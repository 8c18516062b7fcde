//! What an `Accept-Encoding` header stands for, and which files are tried for it.

use crate::compression::{
    all_digits, all_zeros, candidates, coding_of, codings_of, quality, qvalue,
    stated_quality, support_of, CompressionSupport, ContentEncoding,
};
use crate::path::with_extension;
use crate::text::{
    all_ows, all_visible, find_byte, is_digit, is_numeral, is_ows, is_visible, joined_by,
    lemma_find_byte, lemma_find_byte_is, lemma_text_ascii, lemma_visible_concat,
    numeral_value, split, splitting_distributes_over_joining, splitting_undoes_joining, text, trim,
    trimming_takes_whitespace, trimming_undoes_padding, COMMA, DOT, SEMICOLON, ZERO,
};
use vstd::prelude::*;

verus! {

/// A power of ten.
pub open spec fn ten_to(k: nat) -> nat
    decreases k,
{
    if k == 0 {
        1
    } else {
        10 * ten_to((k - 1) as nat)
    }
}

/// The digits of a decimal number, without the dot behind the first.
pub open spec fn digits_of(s: Seq<u8>) -> Seq<u8> {
    if s.len() <= 1 {
        s
    } else {
        seq![s[0]] + s.skip(2)
    }
}

/// Whether a text is a decimal number from 0 to 1: a digit, and maybe a dot and up to three more
/// digits.
pub open spec fn is_fraction(s: Seq<u8>) -> bool {
    &&& 1 <= s.len() <= 5
    &&& s.len() >= 2 ==> s[1] == DOT
    &&& is_numeral(digits_of(s))
    &&& numeral_value(digits_of(s)) <= ten_to((digits_of(s).len() - 1) as nat)
}

/// A digit in front counts as often as there are digits behind it.
proof fn lemma_leading_digit(a: u8, t: Seq<u8>)
    requires
        a >= 48,
        all_digits(t),
    ensures
        numeral_value(seq![a] + t) == (a - 48) * ten_to(t.len()) + numeral_value(t),
    decreases t.len(),
{
    let s = seq![a] + t;
    if t.len() == 0 {
        assert(s.drop_last() =~= Seq::<u8>::empty());
        assert(s.last() == a);
        assert(numeral_value(s.drop_last()) == 0);
        assert(ten_to(t.len()) == 1);
        assert((a - 48) * ten_to(t.len()) == a - 48);
    } else {
        assert(s.drop_last() =~= seq![a] + t.drop_last());
        assert(s.last() == t.last());
        assert forall|i: int| 0 <= i < t.drop_last().len() implies is_digit(
            #[trigger] t.drop_last()[i],
        ) by {
            assert(t.drop_last()[i] == t[i]);
        }
        assert(is_digit(t[t.len() - 1]));
        lemma_leading_digit(a, t.drop_last());
        let n = (a - 48) as int;
        let k = ten_to(t.drop_last().len()) as int;
        let m = numeral_value(t.drop_last()) as int;
        assert(n * (10 * k) == (n * k) * 10) by (nonlinear_arith);
        assert(ten_to(t.len()) == 10 * k);
        assert(numeral_value(s) == (n * k + m) * 10 + (t.last() - 48));
        assert((a - 48) * ten_to(t.len()) == n * (10 * k));
    }
}

/// The digits of a small numeral stand for 0 if and only if all are 0.
proof fn lemma_zeros(t: Seq<u8>)
    requires
        forall|i: int| 0 <= i < t.len() ==> is_digit(#[trigger] t[i]),
    ensures
        numeral_value(t) == 0 <==> all_zeros(t),
        numeral_value(t) < ten_to(t.len()),
    decreases t.len(),
{
    if t.len() > 0 {
        let head = t.drop_last();
        assert forall|i: int| 0 <= i < head.len() implies is_digit(#[trigger] head[i]) by {
            assert(head[i] == t[i]);
        }
        lemma_zeros(head);
        assert(is_digit(t[t.len() - 1]));
        if all_zeros(t) {
            assert forall|i: int| 0 <= i < head.len() implies #[trigger] head[i] == ZERO by {
                assert(t[i] == ZERO);
            }
            assert(t[t.len() - 1] == ZERO);
        } else if all_zeros(head) && t.last() == ZERO {
            assert forall|i: int| 0 <= i < t.len() implies #[trigger] t[i] == ZERO by {
                if i < head.len() {
                    assert(head[i] == ZERO);
                }
            }
        }
    }
}

/// A quality value is a decimal number from 0 to 1 with at most three decimals, in thousandths.
/// Nothing else is one.
pub proof fn a_quality_is_a_decimal_number(s: Seq<u8>)
    ensures
        qvalue(s) is Some <==> is_fraction(s),
        qvalue(s) matches Some(q) ==> q <= 1000 && q * ten_to((digits_of(s).len() - 1) as nat)
            == 1000 * numeral_value(digits_of(s)),
{
    if 1 <= s.len() <= 5 && (s.len() >= 2 ==> s[1] == DOT) {
        if s.len() == 1 {
            lemma_short_quality(s);
        } else {
            lemma_long_quality(s);
        }
    }
}

/// A quality value with a dot.
proof fn lemma_long_quality(s: Seq<u8>)
    requires
        2 <= s.len() <= 5,
        s[1] == DOT,
    ensures
        qvalue(s) is Some <==> is_fraction(s),
        qvalue(s) matches Some(q) ==> q <= 1000 && q * ten_to((digits_of(s).len() - 1) as nat)
            == 1000 * numeral_value(digits_of(s)),
{
    reveal_with_fuel(ten_to, 5);
    let t = s.skip(2);
    let all = digits_of(s);
    assert(all[0] == s[0]);
    assert(is_numeral(all) <==> is_digit(s[0]) && all_digits(t)) by {
        if is_numeral(all) {
            assert(is_digit(all[0]));
            assert forall|i: int| 0 <= i < t.len() implies is_digit(#[trigger] t[i]) by {
                assert(is_digit(all[i + 1]));
            }
        }
        if is_digit(s[0]) && all_digits(t) {
            assert forall|i: int| 0 <= i < all.len() implies is_digit(#[trigger] all[i]) by {
                if i > 0 {
                    assert(is_digit(t[i - 1]));
                }
            }
        }
    }
    if t.len() == 0 {
        assert(all_digits(t));
    }
    if all_zeros(t) {
        assert(all_digits(t)) by {
            assert forall|i: int| 0 <= i < t.len() implies is_digit(#[trigger] t[i]) by {
                assert(t[i] == ZERO);
            }
        }
    }
    if is_digit(s[0]) && all_digits(t) {
        lemma_leading_digit(s[0], t);
        lemma_zeros(t);
        let n = (s[0] - 48) as int;
        let k = ten_to(t.len()) as int;
        assert(digits_of(s).len() - 1 == t.len());
        assert(t.len() == 0 || t.len() == 1 || t.len() == 2 || t.len() == 3);
        assert(k == 1 || k == 10 || k == 100 || k == 1000);
        assert(0 * k == 0 && 1 * k == k);
        if t.len() == 0 {
            assert(t =~= Seq::<u8>::empty());
            assert(numeral_value(t) == 0);
        }
        if n >= 2 {
            assert(n * k >= 2 * k) by (nonlinear_arith)
                requires
                    n >= 2,
                    k > 0,
            ;
        }
    }
}

/// A quality value of a single digit.
proof fn lemma_short_quality(s: Seq<u8>)
    requires
        s.len() == 1,
    ensures
        qvalue(s) is Some <==> is_fraction(s),
        qvalue(s) matches Some(q) ==> q <= 1000 && q * ten_to((digits_of(s).len() - 1) as nat)
            == 1000 * numeral_value(digits_of(s)),
{
    reveal_with_fuel(numeral_value, 2);
    if is_fraction(s) {
        assert(is_digit(s[0]));
    }
    if s[0] == ZERO || s[0] == ZERO + 1 {
        assert(is_digit(s[0]));
    }
}

/// Whether a text is another one with optional whitespace around it.
pub open spec fn is_padded(s: Seq<u8>, inner: Seq<u8>) -> bool {
    exists|before: Seq<u8>, after: Seq<u8>|
        all_ows(before) && all_ows(after) && s == #[trigger] (before + inner + after)
}

/// Whether a text states a quality, in thousandths: `q=` and a number, and maybe whitespace
/// around both.
pub open spec fn is_weight(s: Seq<u8>, q: u16) -> bool {
    exists|number: Seq<u8>|
        is_fraction(number) && q * ten_to((digits_of(number).len() - 1) as nat) == 1000
            * numeral_value(digits_of(number)) && is_padded(s, #[trigger] (text("q="@) + number))
}

/// Whether an item states the quality that is asked for.
pub open spec fn is_weighted_item(item: Seq<u8>, name: Seq<u8>, q: u16) -> bool {
    exists|head: Seq<u8>, weight: Seq<u8>|
        item == #[trigger] (head + seq![SEMICOLON] + weight) && is_padded(head, name) && is_weight(
            weight,
            q,
        )
}

/// Whether an item of an `Accept-Encoding` header names a coding, and gives it a quality, in
/// thousandths: the one it states, or 1 if it states none.
pub open spec fn is_item(item: Seq<u8>, name: Seq<u8>, q: u16) -> bool {
    &&& !name.contains(SEMICOLON)
    &&& name.len() > 0 ==> !is_ows(name[0]) && !is_ows(name.last())
    &&& (q == 1000 && is_padded(item, name)) || is_weighted_item(item, name, q)
}

/// Whitespace around a text without a semicolon does not bring one in.
proof fn lemma_padded(s: Seq<u8>, inner: Seq<u8>)
    requires
        is_padded(s, inner),
        inner.len() > 0 ==> !is_ows(inner[0]) && !is_ows(inner.last()),
    ensures
        trim(s) == inner,
        !inner.contains(SEMICOLON) ==> !s.contains(SEMICOLON),
{
    let (before, after) = choose|before: Seq<u8>, after: Seq<u8>|
        all_ows(before) && all_ows(after) && s == #[trigger] (before + inner + after);
    trimming_undoes_padding(before, inner, after);
    if !inner.contains(SEMICOLON) && s.contains(SEMICOLON) {
        let i = choose|i: int| 0 <= i < s.len() && s[i] == SEMICOLON;
        if i < before.len() {
            assert(is_ows(before[i]));
        } else if i < before.len() + inner.len() {
            assert(inner[i - before.len()] == SEMICOLON);
        } else {
            assert(is_ows(after[i - before.len() - inner.len()]));
        }
    }
}

/// An item is what its form says it is.
proof fn lemma_item_is_read(item: Seq<u8>, name: Seq<u8>, q: u16)
    requires
        is_item(item, name, q),
    ensures
        coding_of(item) == Some((name, q)),
{
    lemma_find_byte(item, SEMICOLON);
    if q == 1000 && is_padded(item, name) {
        lemma_padded(item, name);
        let i = find_byte(item, SEMICOLON);
        if i < item.len() {
            assert(item.contains(item[i]));
        }
    } else {
        let (head, weight) = choose|head: Seq<u8>, weight: Seq<u8>|
            item == #[trigger] (head + seq![SEMICOLON] + weight) && is_padded(head, name)
                && is_weight(weight, q);
        lemma_padded(head, name);
        assert forall|j: int| 0 <= j < head.len() implies item[j] != SEMICOLON by {
            assert(item[j] == head[j]);
            assert(head.contains(head[j]));
        }
        lemma_find_byte_is(item, SEMICOLON, head.len() as int);
        assert(item.take(head.len() as int) =~= head);
        assert(item.skip(1 + head.len() as int) =~= weight);
        let number = choose|number: Seq<u8>|
            is_fraction(number) && q * ten_to((digits_of(number).len() - 1) as nat) == 1000
                * numeral_value(digits_of(number)) && is_padded(
                weight,
                #[trigger] (text("q="@) + number),
            );
        let prefix = text("q="@);
        reveal_strlit("q=");
        lemma_text_ascii("q="@);
        let all = prefix + number;
        assert(is_digit(digits_of(number)[digits_of(number).len() - 1]));
        assert(all[0] == prefix[0]);
        assert(all.last() == number.last());
        assert(number.len() == 2 ==> number.last() == DOT);
        assert(number.len() != 2 ==> number.last() == digits_of(number).last());
        lemma_padded(weight, all);
        assert(trim(weight) == all);
        assert(all.take(prefix.len() as int) =~= prefix);
        assert(all.skip(prefix.len() as int) =~= number);
        a_quality_is_a_decimal_number(number);
        let k = ten_to((digits_of(number).len() - 1) as nat);
        let p = qvalue(number).unwrap();
        lemma_ten_to((digits_of(number).len() - 1) as nat);
        lemma_same_quality(p, q, k);
    }
}

/// A quality is determined by any multiple of it.
proof fn lemma_same_quality(p: u16, q: u16, k: nat)
    requires
        p * k == q * k,
        k > 0,
    ensures
        p == q,
{
    assert(p == q) by (nonlinear_arith)
        requires
            p * k == q * k,
            k > 0,
    ;
}

/// A power of ten is positive.
proof fn lemma_ten_to(k: nat)
    ensures
        ten_to(k) > 0,
    decreases k,
{
    if k > 0 {
        lemma_ten_to((k - 1) as nat);
    }
}

/// What is read as an item has its form.
proof fn lemma_read_is_item(item: Seq<u8>, name: Seq<u8>, q: u16)
    requires
        coding_of(item) == Some((name, q)),
    ensures
        is_item(item, name, q),
{
    let i = find_byte(item, SEMICOLON);
    lemma_find_byte(item, SEMICOLON);
    if i >= item.len() {
        let (before, after) = trimming_takes_whitespace(item);
        assert(item == before + name + after);
        lemma_inner_has_no_semicolon(item, before, name, after);
    } else {
        let head = item.take(i);
        let weight = item.skip(i + 1);
        let (before, after) = trimming_takes_whitespace(head);
        assert(head == before + name + after);
        lemma_inner_has_no_semicolon(head, before, name, after);
        let prefix = text("q="@);
        let parameter = trim(weight);
        let number = parameter.skip(prefix.len() as int);
        let (start, end) = trimming_takes_whitespace(weight);
        assert(parameter =~= prefix + number);
        assert(weight == start + (prefix + number) + end);
        assert(is_padded(weight, prefix + number));
        a_quality_is_a_decimal_number(number);
        assert(is_weight(weight, q));
        assert(item =~= head + seq![SEMICOLON] + weight);
        assert(is_weighted_item(item, name, q));
    }
}

/// A part of a text without a semicolon has none.
proof fn lemma_inner_has_no_semicolon(
    s: Seq<u8>,
    before: Seq<u8>,
    inner: Seq<u8>,
    after: Seq<u8>,
)
    requires
        s == before + inner + after,
        forall|j: int| 0 <= j < s.len() ==> s[j] != SEMICOLON,
    ensures
        !inner.contains(SEMICOLON),
{
    assert forall|j: int| 0 <= j < inner.len() implies inner[j] != SEMICOLON by {
        assert(s[before.len() + j] == inner[j]);
    }
}

/// An item is understood if and only if it is a name with whitespace around it, and maybe a
/// semicolon and a quality behind it. It then stands for that name and that quality, which is 1
/// if it is not stated.
pub proof fn an_item_names_a_coding(item: Seq<u8>, name: Seq<u8>, q: u16)
    ensures
        coding_of(item) == Some((name, q)) <==> is_item(item, name, q),
{
    if is_item(item, name, q) {
        lemma_item_is_read(item, name, q);
    }
    if coding_of(item) == Some((name, q)) {
        lemma_read_is_item(item, name, q);
    }
}

/// An item without a parameter is always understood, whatever its name is.
pub proof fn an_item_without_a_parameter_is_understood(
    before: Seq<u8>,
    name: Seq<u8>,
    after: Seq<u8>,
)
    requires
        all_ows(before),
        all_ows(after),
        !name.contains(SEMICOLON),
        name.len() > 0 ==> !is_ows(name[0]) && !is_ows(name.last()),
    ensures
        coding_of(before + name + after) == Some((name, 1000u16)),
{
    lemma_item_is_read(before + name + after, name, 1000);
}

/// Whether the last item that names a coding gives it this quality.
pub open spec fn is_stated(names: Seq<Seq<u8>>, qs: Seq<u16>, name: Seq<u8>, q: u16) -> bool {
    exists|i: int|
        0 <= i < names.len() && #[trigger] names[i] == name && qs[i] == q && forall|j: int|
            i < j < names.len() ==> #[trigger] names[j] != name
}

/// Whether no item names a coding.
pub open spec fn is_unstated(names: Seq<Seq<u8>>, name: Seq<u8>) -> bool {
    forall|i: int| 0 <= i < names.len() ==> #[trigger] names[i] != name
}

/// Whether items give a coding this quality: the one that is stated for it, or else that of `*`,
/// or else 0.
pub open spec fn has_quality(names: Seq<Seq<u8>>, qs: Seq<u16>, name: Seq<u8>, q: u16) -> bool {
    ||| is_stated(names, qs, name, q)
    ||| is_unstated(names, name) && is_stated(names, qs, text("*"@), q)
    ||| is_unstated(names, name) && is_unstated(names, text("*"@)) && q == 0
}

/// Names with their qualities.
spec fn paired(names: Seq<Seq<u8>>, qs: Seq<u16>) -> Seq<(Seq<u8>, u16)> {
    Seq::new(names.len(), |i: int| (names[i], qs[i]))
}

/// All items are read if each is.
proof fn lemma_items_are_read(items: Seq<Seq<u8>>, names: Seq<Seq<u8>>, qs: Seq<u16>)
    requires
        items.len() == names.len() == qs.len(),
        forall|i: int| 0 <= i < items.len() ==> is_item(#[trigger] items[i], names[i], qs[i]),
    ensures
        codings_of(items) == Some(paired(names, qs)),
    decreases items.len(),
{
    if items.len() > 0 {
        assert forall|i: int| 0 <= i < items.skip(1).len() implies is_item(
            #[trigger] items.skip(1)[i],
            names.skip(1)[i],
            qs.skip(1)[i],
        ) by {
            assert(items.skip(1)[i] == items[i + 1]);
        }
        lemma_items_are_read(items.skip(1), names.skip(1), qs.skip(1));
        assert(is_item(items[0], names[0], qs[0]));
        lemma_item_is_read(items[0], names[0], qs[0]);
        assert(seq![(names[0], qs[0])] + paired(names.skip(1), qs.skip(1)) =~= paired(names, qs));
    } else {
        assert(paired(names, qs) =~= Seq::<(Seq<u8>, u16)>::empty());
    }
}

/// The quality that is stated last is found.
proof fn lemma_stated(names: Seq<Seq<u8>>, qs: Seq<u16>, name: Seq<u8>, i: int)
    requires
        names.len() == qs.len(),
        0 <= i < names.len(),
        names[i] == name,
        forall|j: int| i < j < names.len() ==> #[trigger] names[j] != name,
    ensures
        stated_quality(paired(names, qs), name) == Some(qs[i]),
    decreases names.len(),
{
    let last = names.len() - 1;
    assert(paired(names, qs).drop_last() =~= paired(names.drop_last(), qs.drop_last()));
    if i < last {
        assert(names[last] != name);
        assert forall|j: int| i < j < names.drop_last().len() implies #[trigger] names.drop_last()[j]
            != name by {
            assert(names.drop_last()[j] == names[j]);
        }
        lemma_stated(names.drop_last(), qs.drop_last(), name, i);
    }
}

/// No quality is found for what no item names.
proof fn lemma_unstated(names: Seq<Seq<u8>>, qs: Seq<u16>, name: Seq<u8>)
    requires
        names.len() == qs.len(),
        is_unstated(names, name),
    ensures
        stated_quality(paired(names, qs), name) is None,
    decreases names.len(),
{
    if names.len() > 0 {
        let last = names.len() - 1;
        assert(names[last] != name);
        assert(paired(names, qs).drop_last() =~= paired(names.drop_last(), qs.drop_last()));
        assert forall|j: int| 0 <= j < names.drop_last().len() implies #[trigger] names.drop_last()[j]
            != name by {
            assert(names.drop_last()[j] == names[j]);
        }
        lemma_unstated(names.drop_last(), qs.drop_last(), name);
    }
}

/// The quality of a coding is found.
proof fn lemma_quality(names: Seq<Seq<u8>>, qs: Seq<u16>, name: Seq<u8>, q: u16)
    requires
        names.len() == qs.len(),
        has_quality(names, qs, name, q),
    ensures
        quality(paired(names, qs), name) == q,
{
    let star = text("*"@);
    if is_stated(names, qs, name, q) {
        let i = choose|i: int|
            0 <= i < names.len() && #[trigger] names[i] == name && qs[i] == q && forall|j: int|
                i < j < names.len() ==> #[trigger] names[j] != name;
        lemma_stated(names, qs, name, i);
    } else {
        lemma_unstated(names, qs, name);
        if is_stated(names, qs, star, q) {
            let i = choose|i: int|
                0 <= i < names.len() && #[trigger] names[i] == star && qs[i] == q && forall|j: int|
                    i < j < names.len() ==> #[trigger] names[j] != star;
            lemma_stated(names, qs, star, i);
        } else {
            lemma_unstated(names, qs, star);
        }
    }
}

/// An encoding is used if and only if the client accepts it, and likes it no less than uncoded
/// content. How well it likes either is what the last item that names it says, or else the last
/// item that names `*`.
pub proof fn the_client_chooses(
    items: Seq<Seq<u8>>,
    names: Seq<Seq<u8>>,
    qs: Seq<u16>,
    gzip: u16,
    br: u16,
    zstd: u16,
    identity: u16,
)
    requires
        items.len() == names.len() == qs.len(),
        items.len() > 0,
        forall|i: int|
            0 <= i < items.len() ==> !(#[trigger] items[i]).contains(COMMA) && is_item(
                items[i],
                names[i],
                qs[i],
            ),
        all_visible(joined_by(items, COMMA)),
        has_quality(names, qs, text("gzip"@), gzip),
        has_quality(names, qs, text("br"@), br),
        has_quality(names, qs, text("zstd"@), zstd),
        has_quality(names, qs, text("identity"@), identity),
    ensures
        ({
            let support = support_of(Some(joined_by(items, COMMA)));
            &&& support.gzip <==> gzip > 0 && gzip >= identity
            &&& support.br <==> br > 0 && br >= identity
            &&& support.zstd <==> zstd > 0 && zstd >= identity
        }),
{
    splitting_undoes_joining(items, COMMA);
    lemma_items_are_read(items, names, qs);
    lemma_quality(names, qs, text("gzip"@), gzip);
    lemma_quality(names, qs, text("br"@), br);
    lemma_quality(names, qs, text("zstd"@), zstd);
    lemma_quality(names, qs, text("identity"@), identity);
}

/// Items cannot be read if one of them cannot.
proof fn lemma_malformed(items: Seq<Seq<u8>>, i: int)
    requires
        0 <= i < items.len(),
        coding_of(items[i]) is None,
    ensures
        codings_of(items) is None,
    decreases i,
{
    if i > 0 {
        assert(items.skip(1)[i - 1] == items[i]);
        lemma_malformed(items.skip(1), i - 1);
    }
}

/// Without an `Accept-Encoding` header, or with one that has an item that is not understood or
/// bytes that are not visible text, nothing is encoded.
pub proof fn a_malformed_header_allows_nothing(items: Seq<Seq<u8>>, i: int)
    requires
        0 <= i < items.len(),
        forall|j: int| 0 <= j < items.len() ==> !(#[trigger] items[j]).contains(COMMA),
        (forall|name: Seq<u8>, q: u16| !is_item(items[i], name, q)) || !all_visible(
            joined_by(items, COMMA),
        ),
    ensures
        support_of(Some(joined_by(items, COMMA))) == (CompressionSupport {
            gzip: false,
            br: false,
            zstd: false,
        }),
        support_of(None) == (CompressionSupport { gzip: false, br: false, zstd: false }),
{
    splitting_undoes_joining(items, COMMA);
    if all_visible(joined_by(items, COMMA)) {
        if let Some((name, q)) = coding_of(items[i]) {
            lemma_read_is_item(items[i], name, q);
        }
        lemma_malformed(items, i);
    }
}

/// The items of two lists are those of the one, then those of the other.
proof fn lemma_codings_concat(a: Seq<Seq<u8>>, b: Seq<Seq<u8>>)
    ensures
        codings_of(a + b) == (match (codings_of(a), codings_of(b)) {
            (Some(x), Some(y)) => Some(x + y),
            _ => None,
        }),
    decreases a.len(),
{
    if a.len() == 0 {
        assert(a + b =~= b);
        if let Some(y) = codings_of(b) {
            assert(Seq::<(Seq<u8>, u16)>::empty() + y =~= y);
        }
    } else {
        assert((a + b).skip(1) =~= a.skip(1) + b);
        lemma_codings_concat(a.skip(1), b);
        if let (Some(c), Some(x), Some(y)) = (coding_of(a[0]), codings_of(a.skip(1)), codings_of(b)) {
            assert(seq![c] + (x + y) =~= (seq![c] + x) + y);
        }
    }
}

/// What is stated of one coding does not depend on an item for another one.
proof fn lemma_other_names(a: Seq<(Seq<u8>, u16)>, c: (Seq<u8>, u16), name: Seq<u8>)
    requires
        c.0 != name,
    ensures
        stated_quality(a + seq![c], name) == stated_quality(a, name),
        stated_quality(seq![c] + a, name) == stated_quality(a, name),
    decreases a.len(),
{
    assert((a + seq![c]).drop_last() =~= a);
    assert((a + seq![c]).last() == c);
    if a.len() == 0 {
        assert(seq![c] + a =~= seq![c]);
        assert(seq![c].drop_last() =~= a);
    } else {
        assert((seq![c] + a).last() == a.last());
        assert((seq![c] + a).drop_last() =~= seq![c] + a.drop_last());
        lemma_other_names(a.drop_last(), c, name);
    }
}

/// A coding that the library does not know makes no difference, with or without a quality, before
/// or behind any header: it neither allows nor forbids anything.
pub proof fn unknown_codings_make_no_difference(
    field: Seq<u8>,
    item: Seq<u8>,
    name: Seq<u8>,
    q: u16,
)
    requires
        !item.contains(COMMA),
        all_visible(item),
        is_item(item, name, q),
        name != text("gzip"@),
        name != text("br"@),
        name != text("zstd"@),
        name != text("identity"@),
        name != text("*"@),
    ensures
        support_of(Some(field + seq![COMMA] + item)) == support_of(Some(field)),
        support_of(Some(item + seq![COMMA] + field)) == support_of(Some(field)),
{
    let behind = field + seq![COMMA] + item;
    let before = item + seq![COMMA] + field;
    lemma_visible_around(field, item);
    splitting_undoes_joining(seq![item], COMMA);
    assert(split(item, COMMA) == seq![item]);
    splitting_distributes_over_joining(field, item, COMMA);
    splitting_distributes_over_joining(item, field, COMMA);
    lemma_codings_concat(split(field, COMMA), seq![item]);
    lemma_codings_concat(seq![item], split(field, COMMA));
    lemma_item_is_read(item, name, q);
    lemma_items_are_read(seq![item], seq![name], seq![q]);
    assert(paired(seq![name], seq![q]) =~= seq![(name, q)]);
    if let Some(codings) = codings_of(split(field, COMMA)) {
        lemma_other_names(codings, (name, q), text("gzip"@));
        lemma_other_names(codings, (name, q), text("br"@));
        lemma_other_names(codings, (name, q), text("zstd"@));
        lemma_other_names(codings, (name, q), text("identity"@));
        lemma_other_names(codings, (name, q), text("*"@));
    }
}

/// A visible text joined to another one is visible if and only if that one is.
proof fn lemma_visible_around(field: Seq<u8>, item: Seq<u8>)
    requires
        all_visible(item),
    ensures
        all_visible(field + seq![COMMA] + item) <==> all_visible(field),
        all_visible(item + seq![COMMA] + field) <==> all_visible(field),
{
    let behind = field + seq![COMMA] + item;
    let before = item + seq![COMMA] + field;
    assert(all_visible(seq![COMMA]));
    if all_visible(field) {
        lemma_visible_concat(field, seq![COMMA]);
        lemma_visible_concat(field + seq![COMMA], item);
        lemma_visible_concat(item, seq![COMMA]);
        lemma_visible_concat(item + seq![COMMA], field);
    }
    if all_visible(behind) {
        assert forall|i: int| 0 <= i < field.len() implies is_visible(#[trigger] field[i]) by {
            assert(is_visible(behind[i]));
        }
    }
    if all_visible(before) {
        assert forall|i: int| 0 <= i < field.len() implies is_visible(#[trigger] field[i]) by {
            assert(is_visible(before[item.len() + 1 + i]));
        }
    }
}

/// The order in which encodings are tried.
pub open spec fn rank(encoding: ContentEncoding) -> int {
    match encoding {
        ContentEncoding::Brotli => 0,
        ContentEncoding::Zstd => 1,
        ContentEncoding::Gzip => 2,
        ContentEncoding::Identity => 3,
    }
}

/// Whether a file is among those that are tried.
pub open spec fn is_tried(
    path: Seq<u8>,
    client: CompressionSupport,
    server: CompressionSupport,
    file: Seq<u8>,
    encoding: ContentEncoding,
) -> bool {
    candidates(path, client, server).contains((file, encoding))
}

/// Every encoding that both sides support is tried, and no other one: in the file of that name
/// with another extension added. Brotli comes before Zstandard, Zstandard before gzip, and the
/// file itself comes last.
pub proof fn every_supported_encoding_is_tried(
    path: Seq<u8>,
    client: CompressionSupport,
    server: CompressionSupport,
)
    ensures
        is_tried(path, client, server, with_extension(path, text("br"@)), ContentEncoding::Brotli)
            <==> client.br && server.br,
        is_tried(path, client, server, with_extension(path, text("zstd"@)), ContentEncoding::Zstd)
            <==> client.zstd && server.zstd,
        is_tried(path, client, server, with_extension(path, text("gz"@)), ContentEncoding::Gzip)
            <==> client.gzip && server.gzip,
        is_tried(path, client, server, path, ContentEncoding::Identity),
        forall|i: int, j: int|
            0 <= i < j < candidates(path, client, server).len() ==> rank(
                #[trigger] candidates(path, client, server)[i].1,
            ) < rank(#[trigger] candidates(path, client, server)[j].1),
{
    let list = candidates(path, client, server);
    if client.br && server.br {
        assert(list[0] == (with_extension(path, text("br"@)), ContentEncoding::Brotli));
    }
    let n: int = if client.br && server.br { 1 } else { 0 };
    if client.zstd && server.zstd {
        assert(list[n] == (with_extension(path, text("zstd"@)), ContentEncoding::Zstd));
    }
    let m: int = if client.zstd && server.zstd { n + 1 } else { n };
    if client.gzip && server.gzip {
        assert(list[m] == (with_extension(path, text("gz"@)), ContentEncoding::Gzip));
    }
    let k: int = if client.gzip && server.gzip { m + 1 } else { m };
    assert(list[k] == (path, ContentEncoding::Identity));
}

} // verus!
