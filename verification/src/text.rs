//! Byte-string helpers shared by the header parsers and formatters.
//!
//! HTTP header fields and URL paths are handled as plain bytes. The
//! specifications in this module describe the few operations the rest of the
//! crate needs: prefixes, searching, trimming, and decimal numerals.

use vstd::prelude::*;
use vstd::slice::slice_subrange;

verus! {

/// Horizontal tab.
pub const TAB: u8 = 0x09;

/// Space.
pub const SPACE: u8 = 0x20;

/// `"`.
pub const QUOTE: u8 = 0x22;

/// `,`.
pub const COMMA: u8 = 0x2c;

/// `-`.
pub const DASH: u8 = 0x2d;

/// `.`.
pub const DOT: u8 = 0x2e;

/// `/`.
pub const SLASH: u8 = 0x2f;

/// `0`, the first of the ten decimal digits.
pub const ZERO: u8 = 0x30;

/// `:`.
pub const COLON: u8 = 0x3a;

/// `;`.
pub const SEMICOLON: u8 = 0x3b;

/// `\`.
pub const BACKSLASH: u8 = 0x5c;

/// The UTF-8 bytes of a string.
pub open spec fn text(s: Seq<char>) -> Seq<u8> {
    vstd::utf8::encode_utf8(s)
}

/// An ASCII string has one byte per character, of the same value.
pub proof fn lemma_text_ascii(s: Seq<char>)
    requires
        vstd::utf8::is_ascii_chars(s),
    ensures
        text(s).len() == s.len(),
        forall|i: int| 0 <= i < s.len() ==> #[trigger] text(s)[i] == s[i] as u8,
{
    vstd::utf8::is_ascii_chars_encode_utf8(s);
}

/// The bytes of two strings joined are their bytes joined.
pub proof fn lemma_text_concat(a: Seq<char>, b: Seq<char>)
    ensures
        text(a + b) == text(a) + text(b),
    decreases a.len(),
{
    if a.len() == 0 {
        assert(a + b =~= b);
        assert(text(a) + text(b) =~= text(b));
    } else {
        assert((a + b).drop_first() =~= a.drop_first() + b);
        lemma_text_concat(a.drop_first(), b);
        assert(text(a + b) =~= text(a) + text(b));
    }
}

/// Whether `s` begins with `prefix`.
pub open spec fn has_prefix(s: Seq<u8>, prefix: Seq<u8>) -> bool {
    prefix.len() <= s.len() && s.take(prefix.len() as int) == prefix
}

/// The index of the first `b` in `s`, or `s.len()` if there is none.
pub open spec fn find_byte(s: Seq<u8>, b: u8) -> int
    decreases s.len(),
{
    if s.len() == 0 {
        0
    } else if s[0] == b {
        0
    } else {
        1 + find_byte(s.skip(1), b)
    }
}

/// `find_byte` is the least index at which `b` stands.
pub proof fn lemma_find_byte(s: Seq<u8>, b: u8)
    ensures
        0 <= find_byte(s, b) <= s.len(),
        forall|j: int| 0 <= j < find_byte(s, b) ==> s[j] != b,
        find_byte(s, b) < s.len() ==> s[find_byte(s, b)] == b,
    decreases s.len(),
{
    if s.len() > 0 && s[0] != b {
        let t = s.skip(1);
        lemma_find_byte(t, b);
        assert forall|j: int| 0 <= j < find_byte(s, b) implies s[j] != b by {
            if j > 0 {
                assert(t[j - 1] == s[j]);
            }
        }
    }
}

/// An index with no earlier `b` is the result of `find_byte` when it holds `b`
/// or is the end.
pub proof fn lemma_find_byte_is(s: Seq<u8>, b: u8, i: int)
    requires
        0 <= i <= s.len(),
        forall|j: int| 0 <= j < i ==> s[j] != b,
        i < s.len() ==> s[i] == b,
    ensures
        find_byte(s, b) == i,
{
    lemma_find_byte(s, b);
    let r = find_byte(s, b);
    if r < i {
        assert(s[r] != b);
    } else if i < r {
        assert(s[i] != b);
    }
}

/// The parts of `s` between separators. There is always at least one part.
pub open spec fn split(s: Seq<u8>, sep: u8) -> Seq<Seq<u8>>
    decreases s.len(),
{
    let i = find_byte(s, sep);
    if 0 <= i < s.len() {
        seq![s.take(i)] + split(s.skip(i + 1), sep)
    } else {
        seq![s]
    }
}

/// Parts with a separator between each and the next.
pub open spec fn joined_by(parts: Seq<Seq<u8>>, sep: u8) -> Seq<u8>
    decreases parts.len(),
{
    if parts.len() == 0 {
        Seq::empty()
    } else if parts.len() == 1 {
        parts[0]
    } else {
        parts[0] + seq![sep] + joined_by(parts.skip(1), sep)
    }
}

/// Splitting gives back the parts that were joined, if none of them holds the separator.
pub proof fn splitting_undoes_joining(parts: Seq<Seq<u8>>, sep: u8)
    requires
        parts.len() > 0,
        forall|i: int| 0 <= i < parts.len() ==> !(#[trigger] parts[i]).contains(sep),
    ensures
        split(joined_by(parts, sep), sep) == parts,
    decreases parts.len(),
{
    let s = joined_by(parts, sep);
    let n = parts[0].len() as int;
    assert(!parts[0].contains(sep));
    assert forall|j: int| 0 <= j < n implies s[j] != sep by {
        assert(s[j] == parts[0][j]);
        assert(parts[0].contains(parts[0][j]));
    }
    lemma_find_byte_is(s, sep, n);
    if parts.len() == 1 {
        assert(parts =~= seq![s]);
    } else {
        let rest = parts.skip(1);
        assert forall|i: int| 0 <= i < rest.len() implies !(#[trigger] rest[i]).contains(sep) by {
            assert(rest[i] == parts[i + 1]);
        }
        splitting_undoes_joining(rest, sep);
        assert(s.take(n) =~= parts[0]);
        assert(s.skip(n + 1) =~= joined_by(rest, sep));
        assert(parts =~= seq![parts[0]] + rest);
    }
}

/// Splitting two texts with a separator between them is splitting each.
pub proof fn splitting_distributes_over_joining(a: Seq<u8>, b: Seq<u8>, sep: u8)
    ensures
        split(a + seq![sep] + b, sep) == split(a, sep) + split(b, sep),
    decreases a.len(),
{
    let s = a + seq![sep] + b;
    let n = find_byte(a, sep);
    lemma_find_byte(a, sep);
    assert forall|j: int| 0 <= j < n implies s[j] != sep by {
        assert(s[j] == a[j]);
    }
    lemma_find_byte_is(s, sep, n);
    if n < a.len() {
        assert(s.take(n) =~= a.take(n));
        assert(s.skip(n + 1) =~= a.skip(n + 1) + seq![sep] + b);
        splitting_distributes_over_joining(a.skip(n + 1), b, sep);
        assert(split(s, sep) =~= split(a, sep) + split(b, sep));
    } else {
        assert(s.take(n) =~= a);
        assert(s.skip(n + 1) =~= b);
    }
}

/// Optional whitespace: a space or a tab.
pub open spec fn is_ows(b: u8) -> bool {
    b == SPACE || b == TAB
}

/// `s` without leading optional whitespace.
pub open spec fn trim_start(s: Seq<u8>) -> Seq<u8>
    decreases s.len(),
{
    if s.len() > 0 && is_ows(s[0]) {
        trim_start(s.skip(1))
    } else {
        s
    }
}

/// `s` without trailing optional whitespace.
pub open spec fn trim_end(s: Seq<u8>) -> Seq<u8>
    decreases s.len(),
{
    if s.len() > 0 && is_ows(s.last()) {
        trim_end(s.drop_last())
    } else {
        s
    }
}

/// `s` without optional whitespace at either end.
pub open spec fn trim(s: Seq<u8>) -> Seq<u8> {
    trim_end(trim_start(s))
}

/// Whether there is nothing but spaces and tabs.
pub open spec fn all_ows(s: Seq<u8>) -> bool {
    forall|i: int| 0 <= i < s.len() ==> #[trigger] s[i] == 0x20 || s[i] == 0x09
}

/// Trimming takes the optional whitespace around a text away, and nothing of the text.
pub proof fn trimming_undoes_padding(before: Seq<u8>, s: Seq<u8>, after: Seq<u8>)
    requires
        all_ows(before),
        all_ows(after),
        s.len() > 0 ==> !is_ows(s[0]) && !is_ows(s.last()),
    ensures
        trim(before + s + after) == s,
    decreases before.len() + after.len(),
{
    let all = before + s + after;
    if before.len() > 0 {
        assert(is_ows(before[0]));
        assert(all.skip(1) =~= before.skip(1) + s + after);
        assert forall|i: int| 0 <= i < before.skip(1).len() implies is_ows(
            #[trigger] before.skip(1)[i],
        ) by {
            assert(before.skip(1)[i] == before[i + 1]);
        }
        trimming_undoes_padding(before.skip(1), s, after);
    } else if s.len() == 0 {
        assert(all =~= after);
        if after.len() > 0 {
            assert(is_ows(after[0]));
            assert(all.skip(1) =~= before + s + after.skip(1));
            assert forall|i: int| 0 <= i < after.skip(1).len() implies is_ows(
                #[trigger] after.skip(1)[i],
            ) by {
                assert(after.skip(1)[i] == after[i + 1]);
            }
            trimming_undoes_padding(before, s, after.skip(1));
        } else {
            assert(all =~= s);
        }
    } else {
        assert(all =~= s + after);
        assert(all[0] == s[0]);
        lemma_trim_end_padding(s, after);
    }
}

/// Whitespace behind a text is trimmed away.
proof fn lemma_trim_end_padding(s: Seq<u8>, after: Seq<u8>)
    requires
        all_ows(after),
        s.len() > 0,
        !is_ows(s.last()),
    ensures
        trim_end(s + after) == s,
    decreases after.len(),
{
    let all = s + after;
    if after.len() > 0 {
        assert(all.last() == after.last());
        assert(is_ows(after[after.len() - 1]));
        assert(all.drop_last() =~= s + after.drop_last());
        assert forall|i: int| 0 <= i < after.drop_last().len() implies is_ows(
            #[trigger] after.drop_last()[i],
        ) by {
            assert(after.drop_last()[i] == after[i]);
        }
        lemma_trim_end_padding(s, after.drop_last());
    } else {
        assert(all =~= s);
    }
}

/// Trimming takes nothing but optional whitespace away, and all of it: what is left has none at
/// either end. The result is what was taken away before and behind it.
pub proof fn trimming_takes_whitespace(s: Seq<u8>) -> (r: (Seq<u8>, Seq<u8>))
    ensures
        all_ows(r.0),
        all_ows(r.1),
        s == r.0 + trim(s) + r.1,
        trim(s).len() > 0 ==> !is_ows(trim(s)[0]) && !is_ows(trim(s).last()),
    decreases s.len(),
{
    if s.len() > 0 && is_ows(s[0]) {
        let (before, after) = trimming_takes_whitespace(s.skip(1));
        assert(trim(s) == trim(s.skip(1)));
        assert(s =~= seq![s[0]] + s.skip(1));
        assert(s =~= (seq![s[0]] + before) + trim(s) + after);
        (seq![s[0]] + before, after)
    } else {
        let after = lemma_trim_end_takes(s);
        assert(s =~= Seq::<u8>::empty() + trim(s) + after);
        (Seq::empty(), after)
    }
}

/// The whitespace that is trimmed away behind a text that does not begin with any.
proof fn lemma_trim_end_takes(s: Seq<u8>) -> (after: Seq<u8>)
    requires
        s.len() > 0 ==> !is_ows(s[0]),
    ensures
        all_ows(after),
        s == trim_end(s) + after,
        trim_end(s).len() > 0 ==> !is_ows(trim_end(s)[0]) && !is_ows(trim_end(s).last()),
    decreases s.len(),
{
    if s.len() > 0 && is_ows(s.last()) {
        let after = lemma_trim_end_takes(s.drop_last());
        assert(s =~= s.drop_last() + seq![s.last()]);
        assert(s =~= trim_end(s) + (after + seq![s.last()]));
        after + seq![s.last()]
    } else {
        assert(s =~= s + Seq::<u8>::empty());
        Seq::empty()
    }
}

/// A byte of visible ASCII text: a printable character, a space or a tab.
pub open spec fn is_visible(b: u8) -> bool {
    b == TAB || 32 <= b < 127
}

/// Whether every byte is visible ASCII.
pub open spec fn all_visible(s: Seq<u8>) -> bool {
    forall|i: int| 0 <= i < s.len() ==> is_visible(#[trigger] s[i])
}

/// A decimal digit.
pub open spec fn is_digit(b: u8) -> bool {
    48 <= b < 58
}

/// Whether `s` is a decimal numeral: one or more digits.
pub open spec fn is_numeral(s: Seq<u8>) -> bool {
    s.len() > 0 && forall|i: int| 0 <= i < s.len() ==> is_digit(#[trigger] s[i])
}

/// The number that a string of digits stands for, most significant digit first.
pub open spec fn numeral_value(s: Seq<u8>) -> nat
    decreases s.len(),
{
    if s.len() == 0 {
        0
    } else {
        numeral_value(s.drop_last()) * 10 + (s.last() - 48) as nat
    }
}

/// The decimal numeral of a number, without leading zeros.
pub open spec fn decimal(n: nat) -> Seq<u8>
    decreases n,
{
    if n < 10 {
        seq![(48 + n) as u8]
    } else {
        decimal(n / 10).push((48 + n % 10) as u8)
    }
}

/// The decimal numeral of a number is a numeral and stands for that number.
pub proof fn decimal_reads_back(n: nat)
    ensures
        is_numeral(decimal(n)),
        numeral_value(decimal(n)) == n,
    decreases n,
{
    if n < 10 {
        let s = decimal(n);
        assert(s.drop_last() =~= Seq::<u8>::empty());
        assert(numeral_value(s.drop_last()) == 0);
    } else {
        decimal_reads_back(n / 10);
        let d = (48 + n % 10) as u8;
        assert(decimal(n).drop_last() =~= decimal(n / 10));
        assert forall|i: int| 0 <= i < decimal(n).len() implies is_digit(#[trigger] decimal(n)[i]) by {
            if i < decimal(n / 10).len() {
                assert(decimal(n)[i] == decimal(n / 10)[i]);
            }
        }
    }
}

/// A decimal numeral is visible text.
pub proof fn lemma_decimal_visible(n: nat)
    ensures
        all_visible(decimal(n)),
{
    decimal_reads_back(n);
    assert forall|i: int| 0 <= i < decimal(n).len() implies is_visible(#[trigger] decimal(n)[i]) by {
        assert(is_digit(decimal(n)[i]));
    }
}

/// Joining visible text gives visible text.
pub proof fn lemma_visible_concat(a: Seq<u8>, b: Seq<u8>)
    requires
        all_visible(a),
        all_visible(b),
    ensures
        all_visible(a + b),
{
    assert forall|i: int| 0 <= i < (a + b).len() implies is_visible(#[trigger] (a + b)[i]) by {
        if i < a.len() {
            assert((a + b)[i] == a[i]);
        } else {
            assert((a + b)[i] == b[i - a.len()]);
        }
    }
}

/// Whether two byte strings are equal.
pub(crate) fn same(a: &[u8], b: &[u8]) -> (r: bool)
    ensures
        r == (a@ == b@),
{
    if a.len() != b.len() {
        return false;
    }
    let mut i: usize = 0;
    while i < a.len()
        invariant
            a@.len() == b@.len(),
            i <= a@.len(),
            forall|j: int| 0 <= j < i ==> a@[j] == b@[j],
        decreases a@.len() - i,
    {
        if a[i] != b[i] {
            return false;
        }
        i += 1;
    }
    assert(a@ =~= b@);
    true
}

/// Whether `s` begins with `prefix`.
pub(crate) fn starts_with(s: &[u8], prefix: &[u8]) -> (r: bool)
    ensures
        r == has_prefix(s@, prefix@),
{
    if s.len() < prefix.len() {
        return false;
    }
    let head = slice_subrange(s, 0, prefix.len());
    assert(head@ =~= s@.take(prefix@.len() as int));
    same(head, prefix)
}

/// The index of the first `b` at or after `from`, or the length of `s`.
pub(crate) fn find_from(s: &[u8], b: u8, from: usize) -> (r: usize)
    requires
        from <= s@.len(),
    ensures
        r == from + find_byte(s@.skip(from as int), b),
        from <= r <= s@.len(),
{
    let mut i: usize = from;
    while i < s.len() && s[i] != b
        invariant
            from <= i <= s@.len(),
            forall|j: int| from <= j < i ==> s@[j] != b,
        decreases s@.len() - i,
    {
        i += 1;
    }
    proof {
        let t = s@.skip(from as int);
        assert forall|j: int| 0 <= j < i - from implies t[j] != b by {
            assert(t[j] == s@[j + from]);
        }
        lemma_find_byte_is(t, b, i - from);
    }
    i
}

/// Strips leading optional whitespace.
pub(crate) fn strip_start(s: &[u8]) -> (r: &[u8])
    ensures
        r@ == trim_start(s@),
{
    let mut i: usize = 0;
    assert(s@.skip(0) =~= s@);
    while i < s.len() && (s[i] == SPACE || s[i] == TAB)
        invariant
            i <= s@.len(),
            trim_start(s@) == trim_start(s@.skip(i as int)),
        decreases s@.len() - i,
    {
        assert(s@.skip(i as int).skip(1) =~= s@.skip(i + 1));
        i += 1;
    }
    assert(trim_start(s@.skip(i as int)) == s@.skip(i as int));
    let r = slice_subrange(s, i, s.len());
    assert(r@ =~= s@.skip(i as int));
    r
}

/// Strips trailing optional whitespace.
pub(crate) fn strip_end(s: &[u8]) -> (r: &[u8])
    ensures
        r@ == trim_end(s@),
{
    let mut n: usize = s.len();
    assert(s@.take(n as int) =~= s@);
    while n > 0 && (s[n - 1] == SPACE || s[n - 1] == TAB)
        invariant
            n <= s@.len(),
            trim_end(s@) == trim_end(s@.take(n as int)),
        decreases n,
    {
        assert(s@.take(n as int).drop_last() =~= s@.take(n - 1));
        n -= 1;
    }
    let r = slice_subrange(s, 0, n);
    assert(r@ =~= s@.take(n as int));
    r
}

/// Strips optional whitespace from both ends.
pub(crate) fn strip(s: &[u8]) -> (r: &[u8])
    ensures
        r@ == trim(s@),
{
    strip_end(strip_start(s))
}

/// Appends bytes to a buffer.
pub(crate) fn push_bytes(buf: &mut Vec<u8>, s: &[u8])
    ensures
        final(buf)@ == old(buf)@ + s@,
{
    let mut i: usize = 0;
    while i < s.len()
        invariant
            i <= s@.len(),
            buf@ == old(buf)@ + s@.take(i as int),
        decreases s@.len() - i,
    {
        buf.push(s[i]);
        i += 1;
        assert(s@.take(i as int) =~= s@.take(i - 1).push(s@[i - 1]));
    }
    assert(s@.take(i as int) =~= s@);
}

/// Copies bytes into a new vector.
pub(crate) fn to_vec(s: &[u8]) -> (r: Vec<u8>)
    ensures
        r@ == s@,
{
    let mut v: Vec<u8> = Vec::new();
    push_bytes(&mut v, s);
    v
}

/// Appends the decimal numeral of a number to a buffer.
pub(crate) fn push_decimal(buf: &mut Vec<u8>, n: u64)
    ensures
        final(buf)@ == old(buf)@ + decimal(n as nat),
    decreases n,
{
    if n >= 10 {
        push_decimal(buf, n / 10);
    }
    buf.push(48u8 + (n % 10) as u8);
    assert(buf@ =~= old(buf)@ + decimal(n as nat));
}

/// A longer string of digits stands for no smaller a number.
proof fn lemma_numeral_prefix(s: Seq<u8>, n: int)
    requires
        0 <= n <= s.len(),
    ensures
        numeral_value(s.take(n)) <= numeral_value(s),
    decreases s.len() - n,
{
    if n == s.len() {
        assert(s.take(n) =~= s);
    } else {
        lemma_numeral_prefix(s, n + 1);
        assert(s.take(n + 1).drop_last() =~= s.take(n));
    }
}

/// Reads a decimal numeral. `None` if the text is not one, or if its number
/// does not fit in 64 bits.
pub(crate) fn parse_decimal(s: &[u8]) -> (r: Option<u64>)
    ensures
        r == (if is_numeral(s@) && numeral_value(s@) <= u64::MAX {
            Some(numeral_value(s@) as u64)
        } else {
            None
        }),
{
    if s.len() == 0 {
        return None;
    }
    let mut n: u64 = 0;
    let mut i: usize = 0;
    let mut overflow: bool = false;
    while i < s.len()
        invariant
            i <= s@.len(),
            forall|j: int| 0 <= j < i ==> is_digit(#[trigger] s@[j]),
            !overflow ==> n == numeral_value(s@.take(i as int)),
            overflow ==> numeral_value(s@) > u64::MAX,
        decreases s@.len() - i,
    {
        let b = s[i];
        if b < 48 || b >= 58 {
            assert(!is_digit(s@[i as int]));
            return None;
        }
        let d: u64 = (b - 48) as u64;
        assert(s@.take(i + 1).drop_last() =~= s@.take(i as int));
        if !overflow {
            if n > (u64::MAX - d) / 10 {
                proof {
                    lemma_numeral_prefix(s@, i + 1);
                }
                overflow = true;
            } else {
                n = n * 10 + d;
            }
        }
        i += 1;
    }
    assert(s@.take(i as int) =~= s@);
    if overflow {
        None
    } else {
        Some(n)
    }
}

/// The characters of the decimal numeral of a number.
pub open spec fn decimal_chars(n: nat) -> Seq<char> {
    decimal(n).map_values(|b: u8| b as char)
}

/// Appends the decimal numeral of a number to a string.
pub(crate) fn append_decimal(s: &mut String, n: u64)
    ensures
        final(s)@ == old(s)@ + decimal_chars(n as nat),
    decreases n,
{
    if n >= 10 {
        append_decimal(s, n / 10);
    }
    let digit = match n % 10 {
        0 => "0",
        1 => "1",
        2 => "2",
        3 => "3",
        4 => "4",
        5 => "5",
        6 => "6",
        7 => "7",
        8 => "8",
        _ => "9",
    };
    proof {
        reveal_strlit("0");
        reveal_strlit("1");
        reveal_strlit("2");
        reveal_strlit("3");
        reveal_strlit("4");
        reveal_strlit("5");
        reveal_strlit("6");
        reveal_strlit("7");
        reveal_strlit("8");
        reveal_strlit("9");
        assert(digit@ =~= seq![((48 + n % 10) as u8) as char]);
    }
    s.append(digit);
    assert(s@ =~= old(s)@ + decimal_chars(n as nat));
}

/// The characters of a numeral are its bytes.
pub proof fn decimal_chars_are_the_decimal(n: nat)
    ensures
        text(decimal_chars(n)) == decimal(n),
{
    decimal_reads_back(n);
    let chars = decimal_chars(n);
    let d = decimal(n);
    assert forall|i: int| 0 <= i < chars.len() implies (#[trigger] chars[i] as u32) < 128 by {
        assert(is_digit(d[i]));
    }
    lemma_text_ascii(chars);
    assert forall|i: int| 0 <= i < d.len() implies text(chars)[i] == d[i] by {
        assert(is_digit(d[i]));
        assert(text(chars)[i] == chars[i] as u8);
    }
    assert(text(chars) =~= d);
}

/// A numeral of more than one digit is that of the number without its last digit, and that digit.
pub proof fn a_decimal_has_its_digits(n: nat, d: nat)
    requires
        d < 10,
    ensures
        decimal(d) == seq![(0x30 + d) as u8],
        n > 0 ==> decimal(10 * n + d) == decimal(n) + seq![(0x30 + d) as u8],
{
    if n > 0 {
        assert((10 * n + d) / 10 == n);
        assert((10 * n + d) % 10 == d);
        assert(decimal(10 * n + d) =~= decimal(n) + seq![(0x30 + d) as u8]);
    }
}

/// Zeros in front of a numeral do not change the number that it stands for, and a digit behind it
/// counts one, after ten times what precedes it.
pub proof fn digits_count_by_their_place(s: Seq<u8>, d: nat)
    requires
        d < 10,
    ensures
        numeral_value(seq![0x30u8] + s) == numeral_value(s),
        numeral_value(s + seq![(0x30 + d) as u8]) == 10 * numeral_value(s) + d,
    decreases s.len(),
{
    let t = s + seq![(0x30 + d) as u8];
    assert(t.drop_last() =~= s);
    assert(t.last() == (0x30 + d) as u8);
    let z = seq![0x30u8] + s;
    if s.len() == 0 {
        assert(z.drop_last() =~= s);
        assert(z.last() == 0x30);
    } else {
        digits_count_by_their_place(s.drop_last(), d);
        assert(z.drop_last() =~= seq![0x30u8] + s.drop_last());
        assert(z.last() == s.last());
    }
}

} // verus!
