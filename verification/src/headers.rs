//! The parts of the [`http`] crate that the request and response logic uses.
//!
//! Header maps, names, values, methods and status codes stay opaque. What a
//! value holds is described by one of the names below; the contracts of the
//! functions that read or build such a value are trusted.

use crate::text::{all_visible, same, text};
use http::header::ToStrError;
use http::{HeaderMap, HeaderName, HeaderValue, Method, StatusCode};
use vstd::prelude::*;

verus! {

/// [`http::HeaderMap`], opaque.
#[verifier::external_type_specification]
#[verifier::external_body]
#[verifier::reject_recursive_types(T)]
pub struct ExHeaderMap<T>(http::HeaderMap<T>);

/// [`http::HeaderName`], opaque.
#[verifier::external_type_specification]
#[verifier::external_body]
pub struct ExHeaderName(http::HeaderName);

/// [`http::HeaderValue`], opaque.
#[verifier::external_type_specification]
#[verifier::external_body]
pub struct ExHeaderValue(http::HeaderValue);

/// [`http::header::ToStrError`], opaque.
#[verifier::external_type_specification]
#[verifier::external_body]
pub struct ExToStrError(http::header::ToStrError);

/// [`http::Method`], opaque.
#[verifier::external_type_specification]
#[verifier::external_body]
pub struct ExMethod(http::Method);

/// [`http::StatusCode`], opaque.
#[verifier::external_type_specification]
#[verifier::external_body]
pub struct ExStatusCode(http::StatusCode);

/// The fields of a header map: each name once, with its values in the order in
/// which they were added. The names are in the order in which the map hands them
/// out.
pub uninterp spec fn header_entries(map: HeaderMap<HeaderValue>) -> Seq<(Seq<char>, Seq<Seq<u8>>)>;

/// The text of a header name.
pub uninterp spec fn field_name(name: HeaderName) -> Seq<char>;

/// The bytes of a header value.
pub uninterp spec fn field_value(value: HeaderValue) -> Seq<u8>;

/// The text of a request method.
pub uninterp spec fn method_name(method: Method) -> Seq<char>;

/// The number of a status code.
pub uninterp spec fn status_number(status: StatusCode) -> u16;

/// The standard reason phrase of a status number.
pub uninterp spec fn reason_phrase(number: u16) -> Option<Seq<char>>;

/// A field name of the kind this crate writes: lower-case letters and dashes,
/// at most 64 of them.
pub open spec fn is_field_name(s: Seq<char>) -> bool {
    &&& 0 < s.len() <= 64
    &&& forall|i: int| 0 <= i < s.len() ==> ('a' <= #[trigger] s[i] <= 'z' || s[i] == '-')
}

/// Whether every character is visible ASCII.
pub open spec fn is_visible_chars(s: Seq<char>) -> bool {
    forall|i: int| 0 <= i < s.len() ==> (' ' <= #[trigger] s[i] <= '~' || s[i] == '\t')
}

/// The most names that a header map may hold for another one to be added. Up to
/// here `http::HeaderMap` has room for one more whatever the names are; beyond it,
/// names whose hashes collide may fill it up.
pub const MAX_FIELD_NAMES: usize = 6_553;

/// The index of the first entry of a name, or the length if there is none.
pub open spec fn find_entry(entries: Seq<(Seq<char>, Seq<Seq<u8>>)>, name: Seq<char>) -> int
    decreases entries.len(),
{
    if entries.len() == 0 || entries[0].0 == name {
        0
    } else {
        1 + find_entry(entries.skip(1), name)
    }
}

/// Whether there is a field of a name.
pub open spec fn has_field(entries: Seq<(Seq<char>, Seq<Seq<u8>>)>, name: Seq<char>) -> bool {
    find_entry(entries, name) < entries.len()
}

/// The first value of a field, if there is one.
pub open spec fn first_value(entries: Seq<(Seq<char>, Seq<Seq<u8>>)>, name: Seq<char>) -> Option<
    Seq<u8>,
> {
    if has_field(entries, name) {
        Some(entries[find_entry(entries, name)].1[0])
    } else {
        None
    }
}

/// The fields after a value was added: behind the other values of that name, or
/// as a new field at the end.
pub open spec fn with_value(
    entries: Seq<(Seq<char>, Seq<Seq<u8>>)>,
    name: Seq<char>,
    value: Seq<u8>,
) -> Seq<(Seq<char>, Seq<Seq<u8>>)> {
    let i = find_entry(entries, name);
    if i < entries.len() {
        entries.update(i, (name, entries[i].1.push(value)))
    } else {
        entries.push((name, seq![value]))
    }
}

/// The fields after a field was set to a single value.
pub open spec fn with_field(
    entries: Seq<(Seq<char>, Seq<Seq<u8>>)>,
    name: Seq<char>,
    value: Seq<u8>,
) -> Seq<(Seq<char>, Seq<Seq<u8>>)> {
    let i = find_entry(entries, name);
    if i < entries.len() {
        entries.update(i, (name, seq![value]))
    } else {
        entries.push((name, seq![value]))
    }
}

/// The fields after all values of a list were added, one after the other.
pub open spec fn with_values(
    entries: Seq<(Seq<char>, Seq<Seq<u8>>)>,
    list: Seq<(Seq<char>, Seq<u8>)>,
) -> Seq<(Seq<char>, Seq<Seq<u8>>)>
    decreases list.len(),
{
    if list.len() == 0 {
        entries
    } else {
        with_value(with_values(entries, list.drop_last()), list.last().0, list.last().1)
    }
}

/// The fields of one entry, one per value.
pub open spec fn entry_fields(entry: (Seq<char>, Seq<Seq<u8>>)) -> Seq<(Seq<char>, Seq<u8>)> {
    entry.1.map_values(|v: Seq<u8>| (entry.0, v))
}

/// All fields, one per value.
pub open spec fn all_fields(entries: Seq<(Seq<char>, Seq<Seq<u8>>)>) -> Seq<(Seq<char>, Seq<u8>)>
    decreases entries.len(),
{
    if entries.len() == 0 {
        Seq::empty()
    } else {
        all_fields(entries.drop_last()) + entry_fields(entries.last())
    }
}

/// The name and the value of a header field.
pub open spec fn field(f: (HeaderName, HeaderValue)) -> (Seq<char>, Seq<u8>) {
    (field_name(f.0), field_value(f.1))
}

/// The names and values of a list of header fields.
pub open spec fn fields(list: Seq<(HeaderName, HeaderValue)>) -> Seq<(Seq<char>, Seq<u8>)> {
    list.map_values(|f: (HeaderName, HeaderValue)| field(f))
}

/// `http::HeaderMap::new` makes an empty map.
pub assume_specification[ HeaderMap::<HeaderValue>::new ]() -> (r: HeaderMap<HeaderValue>)
    ensures
        header_entries(r) == Seq::<(Seq<char>, Seq<Seq<u8>>)>::empty(),
;

/// Looks a field up with `http::HeaderMap::get`: the first value of the field
/// of that name, or `None` if the map has no such field.
#[verifier::external_body]
pub(crate) fn get_field<'a>(map: &'a HeaderMap<HeaderValue>, name: &HeaderName) -> (r: Option<
    &'a HeaderValue,
>)
    ensures
        match r {
            Some(v) => first_value(header_entries(*map), field_name(*name)) == Some(
                field_value(*v),
            ),
            None => first_value(header_entries(*map), field_name(*name)) is None,
        },
{
    map.get(name)
}

/// Adds a value to a field with `http::HeaderMap::append`: behind the values that
/// the field has already, or as a new field at the end. It panics when the map is
/// full.
#[verifier::external_body]
pub(crate) fn append_field(map: &mut HeaderMap<HeaderValue>, name: HeaderName, value: HeaderValue)
    requires
        header_entries(*old(map)).len() <= MAX_FIELD_NAMES,
    ensures
        header_entries(*final(map)) == with_value(
            header_entries(*old(map)),
            field_name(name),
            field_value(value),
        ),
{
    map.append(name, value);
}

/// Sets a field with `http::HeaderMap::insert`: the value replaces all values
/// that the field has, or makes a new field at the end. It panics when the map is
/// full.
#[verifier::external_body]
pub(crate) fn insert_field(map: &mut HeaderMap<HeaderValue>, name: HeaderName, value: HeaderValue)
    requires
        header_entries(*old(map)).len() <= MAX_FIELD_NAMES,
    ensures
        header_entries(*final(map)) == with_field(
            header_entries(*old(map)),
            field_name(name),
            field_value(value),
        ),
{
    map.insert(name, value);
}

/// Lists the fields of a map, one per value, in the order of
/// `http::HeaderMap::iter`: name by name, and the values of a name in the order in
/// which they were added.
#[verifier::external_body]
pub(crate) fn list_fields(map: &HeaderMap<HeaderValue>) -> (r: Vec<(HeaderName, HeaderValue)>)
    ensures
        fields(r@) == all_fields(header_entries(*map)),
{
    map.iter().map(|(k, v)| (k.clone(), v.clone())).collect()
}

/// Cloning an `http::HeaderMap` keeps its fields.
#[verifier::external_body]
pub(crate) fn clone_map(map: &HeaderMap<HeaderValue>) -> (r: HeaderMap<HeaderValue>)
    ensures
        header_entries(r) == header_entries(*map),
{
    map.clone()
}

/// `http::HeaderValue::as_bytes` gives the bytes of the value.
pub assume_specification[ HeaderValue::as_bytes ](value: &HeaderValue) -> (r: &[u8])
    ensures
        r@ == field_value(*value),
;

/// `http::HeaderValue::to_str` gives the value as a string if all of its bytes
/// are visible ASCII, and an error if one is not.
pub assume_specification[ HeaderValue::to_str ](value: &HeaderValue) -> (r: Result<
    &str,
    ToStrError,
>)
    ensures
        r is Ok <==> all_visible(field_value(*value)),
        r matches Ok(s) ==> text(s@) == field_value(*value),
;

/// Cloning an `http::HeaderValue` keeps its bytes.
pub assume_specification[ <HeaderValue as Clone>::clone ](value: &HeaderValue) -> (r: HeaderValue)
    ensures
        field_value(r) == field_value(*value),
;

/// Builds a header value from a string constant with
/// `http::HeaderValue::from_static`, which panics unless the string is visible
/// ASCII.
#[verifier::external_body]
pub(crate) fn static_value(s: &'static str) -> (r: HeaderValue)
    requires
        is_visible_chars(s@),
    ensures
        field_value(r) == text(s@),
{
    HeaderValue::from_static(s)
}

/// Builds a header value from visible ASCII bytes with
/// `http::HeaderValue::from_bytes`, which fails only on control characters.
#[verifier::external_body]
pub(crate) fn value_from_bytes(bytes: &[u8]) -> (r: HeaderValue)
    requires
        all_visible(bytes@),
    ensures
        field_value(r) == bytes@,
{
    HeaderValue::from_bytes(bytes).expect("visible ASCII is a valid header value")
}

/// Builds a header name from a string constant with
/// `http::HeaderName::from_static`, which panics unless the string is a
/// lower-case header name.
#[verifier::external_body]
pub(crate) fn static_name(s: &'static str) -> (r: HeaderName)
    requires
        is_field_name(s@),
    ensures
        field_name(r) == s@,
{
    HeaderName::from_static(s)
}

/// `http::HeaderName::as_str` gives the text of the name.
pub assume_specification[ HeaderName::as_str ](name: &HeaderName) -> (r: &str)
    ensures
        r@ == field_name(*name),
;

/// Cloning an `http::HeaderName` keeps its text.
pub assume_specification[ <HeaderName as Clone>::clone ](name: &HeaderName) -> (r: HeaderName)
    ensures
        field_name(r) == field_name(*name),
;

/// `http::Method::as_str` gives the text of the method.
pub assume_specification[ Method::as_str ](method: &Method) -> (r: &str)
    ensures
        r@ == method_name(*method),
;

/// Builds a status code from its number with `http::StatusCode::from_u16`,
/// which accepts 100 to 999.
#[verifier::external_body]
pub(crate) fn status_code(number: u16) -> (r: StatusCode)
    requires
        100 <= number <= 999,
    ensures
        status_number(r) == number,
{
    StatusCode::from_u16(number).expect("status codes have three digits")
}

/// `http::StatusCode::as_u16` gives the number of the status code.
pub assume_specification[ StatusCode::as_u16 ](status: &StatusCode) -> (r: u16)
    ensures
        r == status_number(*status),
;

/// `http::StatusCode::canonical_reason` looks the reason phrase up by the number.
pub assume_specification[ StatusCode::canonical_reason ](status: &StatusCode) -> (r: Option<
    &'static str,
>)
    ensures
        match r {
            Some(s) => reason_phrase(status_number(*status)) == Some(s@),
            None => reason_phrase(status_number(*status)) is None,
        },
;

/// Whether two strings are equal.
pub(crate) fn same_text(a: &str, b: &str) -> (r: bool)
    ensures
        r == (a@ == b@),
{
    proof {
        vstd::utf8::encode_utf8_decode_utf8(a@);
        vstd::utf8::encode_utf8_decode_utf8(b@);
    }
    same(a.as_bytes(), b.as_bytes())
}

/// `find_entry` is the least index of an entry of that name.
pub proof fn lemma_find_entry(entries: Seq<(Seq<char>, Seq<Seq<u8>>)>, name: Seq<char>)
    ensures
        0 <= find_entry(entries, name) <= entries.len(),
        forall|j: int| 0 <= j < find_entry(entries, name) ==> (#[trigger] entries[j]).0 != name,
        has_field(entries, name) ==> entries[find_entry(entries, name)].0 == name,
    decreases entries.len(),
{
    if entries.len() > 0 && entries[0].0 != name {
        let t = entries.skip(1);
        lemma_find_entry(t, name);
        assert forall|j: int| 0 <= j < find_entry(entries, name) implies (#[trigger] entries[j]).0
            != name by {
            if j > 0 {
                assert(t[j - 1] == entries[j]);
            }
        }
    }
}

/// An index with no earlier entry of a name is the result of `find_entry` when it
/// holds that name or is the end.
pub proof fn lemma_find_entry_is(
    entries: Seq<(Seq<char>, Seq<Seq<u8>>)>,
    name: Seq<char>,
    i: int,
)
    requires
        0 <= i <= entries.len(),
        forall|j: int| 0 <= j < i ==> (#[trigger] entries[j]).0 != name,
        i < entries.len() ==> entries[i].0 == name,
    ensures
        find_entry(entries, name) == i,
{
    lemma_find_entry(entries, name);
    let r = find_entry(entries, name);
    if r < i {
        assert(entries[r].0 != name);
    } else if i < r {
        assert(entries[i].0 != name);
    }
}

/// Adding one value adds at most one name.
pub proof fn lemma_with_value_len(
    entries: Seq<(Seq<char>, Seq<Seq<u8>>)>,
    name: Seq<char>,
    value: Seq<u8>,
)
    ensures
        entries.len() <= with_value(entries, name, value).len() <= entries.len() + 1,
{
    lemma_find_entry(entries, name);
}

/// Appends a field with a name that is a string constant.
pub(crate) fn push_field(map: &mut HeaderMap<HeaderValue>, name: &'static str, value: HeaderValue)
    requires
        is_field_name(name@),
        header_entries(*old(map)).len() <= MAX_FIELD_NAMES,
    ensures
        header_entries(*final(map)) == with_value(
            header_entries(*old(map)),
            name@,
            field_value(value),
        ),
        header_entries(*final(map)).len() <= header_entries(*old(map)).len() + 1,
{
    proof {
        lemma_with_value_len(header_entries(*map), name@, field_value(value));
    }
    append_field(map, static_name(name), value);
}

/// Visible characters have visible bytes.
pub proof fn lemma_visible_text(s: Seq<char>)
    requires
        is_visible_chars(s),
    ensures
        all_visible(text(s)),
{
    assert forall|i: int| 0 <= i < s.len() implies (#[trigger] s[i] as u32) < 128 by {}
    crate::text::lemma_text_ascii(s);
    assert forall|i: int| 0 <= i < text(s).len() implies crate::text::is_visible(
        #[trigger] text(s)[i],
    ) by {
        assert(text(s)[i] == s[i] as u8);
    }
}

/// Looks a field up by a name that is a string constant.
pub(crate) fn get_named<'a>(map: &'a HeaderMap<HeaderValue>, name: &'static str) -> (r: Option<
    &'a HeaderValue,
>)
    requires
        is_field_name(name@),
    ensures
        match r {
            Some(v) => first_value(header_entries(*map), name@) == Some(field_value(*v)),
            None => first_value(header_entries(*map), name@) is None,
        },
{
    get_field(map, &static_name(name))
}

/// Adding a list of values and one more is adding the longer list.
pub proof fn lemma_with_values_push(
    entries: Seq<(Seq<char>, Seq<Seq<u8>>)>,
    list: Seq<(Seq<char>, Seq<u8>)>,
    f: (Seq<char>, Seq<u8>),
)
    ensures
        with_values(entries, list.push(f)) == with_value(with_values(entries, list), f.0, f.1),
{
    assert(list.push(f).drop_last() =~= list);
}

/// Adding the values of two lists is adding those of the one behind those of the
/// other.
pub proof fn lemma_with_values_concat(
    entries: Seq<(Seq<char>, Seq<Seq<u8>>)>,
    a: Seq<(Seq<char>, Seq<u8>)>,
    b: Seq<(Seq<char>, Seq<u8>)>,
)
    ensures
        with_values(entries, a + b) == with_values(with_values(entries, a), b),
    decreases b.len(),
{
    if b.len() == 0 {
        assert(a + b =~= a);
    } else {
        assert((a + b).drop_last() =~= a + b.drop_last());
        assert((a + b).last() == b.last());
        lemma_with_values_concat(entries, a, b.drop_last());
    }
}

/// Adding the first values of one field adds at most one name.
proof fn lemma_one_entry(
    entries: Seq<(Seq<char>, Seq<Seq<u8>>)>,
    entry: (Seq<char>, Seq<Seq<u8>>),
    k: int,
)
    requires
        0 <= k <= entry.1.len(),
    ensures
        with_values(entries, entry_fields(entry).take(k)).len() <= entries.len() + 1,
        k > 0 ==> has_field(with_values(entries, entry_fields(entry).take(k)), entry.0),
    decreases k,
{
    let list = entry_fields(entry).take(k);
    if k > 0 {
        lemma_one_entry(entries, entry, k - 1);
        assert(list.drop_last() =~= entry_fields(entry).take(k - 1));
        let before = with_values(entries, list.drop_last());
        lemma_find_entry(before, entry.0);
        let after = with_values(entries, list);
        let i = find_entry(before, entry.0);
        assert(list.last().0 == entry.0);
        if k == 1 {
            assert(list.drop_last().len() == 0);
        }
        assert forall|j: int| 0 <= j < i implies (#[trigger] after[j]).0 != entry.0 by {
            assert(after[j] == before[j]);
        }
        lemma_find_entry_is(after, entry.0, i);
    }
}

/// Adding the first values of a map's fields adds no more names than the map has.
pub proof fn lemma_merged_len(
    entries: Seq<(Seq<char>, Seq<Seq<u8>>)>,
    more: Seq<(Seq<char>, Seq<Seq<u8>>)>,
    k: int,
)
    requires
        0 <= k <= all_fields(more).len(),
    ensures
        with_values(entries, all_fields(more).take(k)).len() <= entries.len() + more.len(),
    decreases more.len(),
{
    if more.len() > 0 {
        let head = all_fields(more.drop_last());
        let last = entry_fields(more.last());
        if k <= head.len() {
            assert(all_fields(more).take(k) =~= head.take(k));
            lemma_merged_len(entries, more.drop_last(), k);
        } else {
            let n = k - head.len();
            assert(all_fields(more).take(k) =~= head + last.take(n));
            assert(head.take(head.len() as int) =~= head);
            lemma_merged_len(entries, more.drop_last(), head.len() as int);
            lemma_with_values_concat(entries, head, last.take(n));
            lemma_one_entry(with_values(entries, head), more.last(), n);
        }
    } else {
        assert(all_fields(more).take(k) =~= Seq::empty());
    }
}

/// Appends the fields of one map to another.
pub(crate) fn extend_map(map: &mut HeaderMap<HeaderValue>, more: &HeaderMap<HeaderValue>)
    requires
        header_entries(*old(map)).len() + header_entries(*more).len() <= MAX_FIELD_NAMES,
    ensures
        header_entries(*final(map)) == with_values(
            header_entries(*old(map)),
            all_fields(header_entries(*more)),
        ),
        header_entries(*final(map)).len() <= header_entries(*old(map)).len() + header_entries(
            *more,
        ).len(),
{
    let list = list_fields(more);
    let ghost before = header_entries(*map);
    let ghost all = all_fields(header_entries(*more));
    let mut i: usize = 0;
    assert(all.take(0) =~= Seq::empty());
    while i < list.len()
        invariant
            i <= list@.len(),
            fields(list@) == all,
            all == all_fields(header_entries(*more)),
            header_entries(*map) == with_values(before, all.take(i as int)),
            before.len() + header_entries(*more).len() <= MAX_FIELD_NAMES,
        decreases list@.len() - i,
    {
        proof {
            lemma_merged_len(before, header_entries(*more), i as int);
            assert(all.take(i + 1).drop_last() =~= all.take(i as int));
            assert(all.take(i + 1).last() == field(list@[i as int]));
        }
        append_field(map, list[i].0.clone(), list[i].1.clone());
        i += 1;
    }
    proof {
        assert(all.take(i as int) =~= all);
        lemma_merged_len(before, header_entries(*more), i as int);
    }
}

/// The first value of a name in a list of fields.
pub open spec fn first_listed(list: Seq<(Seq<char>, Seq<u8>)>, name: Seq<char>) -> Option<Seq<u8>>
    decreases list.len(),
{
    if list.len() == 0 {
        None
    } else {
        match first_listed(list.drop_last(), name) {
            Some(v) => Some(v),
            None => if list.last().0 == name {
                Some(list.last().1)
            } else {
                None
            },
        }
    }
}

/// Whether every entry has a value.
pub open spec fn all_have_values(entries: Seq<(Seq<char>, Seq<Seq<u8>>)>) -> bool {
    forall|i: int| 0 <= i < entries.len() ==> (#[trigger] entries[i]).1.len() > 0
}

/// Fields that are added one after the other can be looked up: the first value of a
/// name is the one that was added first.
pub proof fn added_fields_can_be_looked_up(list: Seq<(Seq<char>, Seq<u8>)>, name: Seq<char>)
    ensures
        all_have_values(with_values(Seq::empty(), list)),
        first_value(with_values(Seq::empty(), list), name) == first_listed(list, name),
    decreases list.len(),
{
    if list.len() > 0 {
        let before = with_values(Seq::empty(), list.drop_last());
        let after = with_values(Seq::empty(), list);
        let (n, v) = list.last();
        added_fields_can_be_looked_up(list.drop_last(), name);
        lemma_find_entry(before, n);
        lemma_find_entry(before, name);
        let i = find_entry(before, n);
        let k = find_entry(before, name);
        assert(all_have_values(after)) by {
            assert forall|j: int| 0 <= j < after.len() implies (#[trigger] after[j]).1.len() > 0 by {
                if j < before.len() && j != i {
                    assert(after[j] == before[j]);
                }
            }
        }
        assert forall|j: int| 0 <= j < k implies (#[trigger] after[j]).0 != name by {
            if j == i {
                assert(before[j].0 == n);
            } else {
                assert(after[j] == before[j]);
            }
            assert(before[j].0 != name);
        }
        if k < before.len() {
            assert(before[k].0 == name);
            lemma_find_entry_is(after, name, k);
            if k == i {
                assert(after[k].1 == before[k].1.push(v));
                assert(after[k].1[0] == before[k].1[0]);
            } else {
                assert(after[k] == before[k]);
            }
        } else if n == name {
            assert(i == before.len());
            lemma_find_entry_is(after, name, i);
        } else {
            assert forall|j: int| 0 <= j < after.len() implies (#[trigger] after[j]).0 != name by {
                if j < before.len() {
                    assert(before[j].0 != name);
                    if j != i {
                        assert(after[j] == before[j]);
                    }
                }
            }
            lemma_find_entry_is(after, name, after.len() as int);
        }
    }
}

/// The first value of a field stays the first one when more values are added.
pub proof fn lemma_earlier_stay_first(
    entries: Seq<(Seq<char>, Seq<Seq<u8>>)>,
    list: Seq<(Seq<char>, Seq<u8>)>,
    name: Seq<char>,
)
    requires
        all_have_values(entries),
        has_field(entries, name),
    ensures
        all_have_values(with_values(entries, list)),
        has_field(with_values(entries, list), name),
        first_value(with_values(entries, list), name) == first_value(entries, name),
    decreases list.len(),
{
    if list.len() > 0 {
        lemma_earlier_stay_first(entries, list.drop_last(), name);
        let before = with_values(entries, list.drop_last());
        let after = with_values(entries, list);
        let (n, v) = list.last();
        lemma_find_entry(before, n);
        lemma_find_entry(before, name);
        let i = find_entry(before, n);
        let k = find_entry(before, name);
        assert forall|j: int| 0 <= j < after.len() implies (#[trigger] after[j]).1.len() > 0 by {
            if j < before.len() && j != i {
                assert(after[j] == before[j]);
            }
        }
        assert forall|j: int| 0 <= j < k implies (#[trigger] after[j]).0 != name by {
            assert(before[j].0 != name);
            if j != i {
                assert(after[j] == before[j]);
            }
        }
        if k != i {
            assert(after[k] == before[k]);
        }
        lemma_find_entry_is(after, name, k);
    }
}

/// What is listed first stays first when more is added behind it.
pub proof fn lemma_first_listed_concat(
    a: Seq<(Seq<char>, Seq<u8>)>,
    b: Seq<(Seq<char>, Seq<u8>)>,
    name: Seq<char>,
)
    ensures
        first_listed(a + b, name) == (match first_listed(a, name) {
            Some(v) => Some(v),
            None => first_listed(b, name),
        }),
    decreases b.len(),
{
    if b.len() == 0 {
        assert(a + b =~= a);
    } else {
        assert((a + b).drop_last() =~= a + b.drop_last());
        lemma_first_listed_concat(a, b.drop_last(), name);
    }
}

/// Every value of every entry is a field of its own, in the order of the entries and of their
/// values.
pub proof fn every_value_is_a_field(
    a: Seq<(Seq<char>, Seq<Seq<u8>>)>,
    b: Seq<(Seq<char>, Seq<Seq<u8>>)>,
    entry: (Seq<char>, Seq<Seq<u8>>),
)
    ensures
        all_fields(a + b) == all_fields(a) + all_fields(b),
        all_fields(seq![entry]).len() == entry.1.len(),
        forall|i: int|
            0 <= i < entry.1.len() ==> #[trigger] all_fields(seq![entry])[i] == (
                entry.0,
                entry.1[i],
            ),
    decreases b.len(),
{
    let none = Seq::<(Seq<char>, Seq<Seq<u8>>)>::empty();
    assert(seq![entry].drop_last() =~= none);
    assert(all_fields(none) =~= Seq::empty());
    assert(all_fields(seq![entry]) =~= entry_fields(entry));
    if b.len() == 0 {
        assert(a + b =~= a);
        assert(all_fields(b) =~= Seq::empty());
        assert(all_fields(a) + all_fields(b) =~= all_fields(a));
    } else {
        every_value_is_a_field(a, b.drop_last(), entry);
        assert((a + b).drop_last() =~= a + b.drop_last());
        assert((a + b).last() == b.last());
        let last = entry_fields(b.last());
        assert(all_fields(a) + all_fields(b.drop_last()) + last =~= all_fields(a) + (all_fields(
            b.drop_last(),
        ) + last));
    }
}

} // verus!
