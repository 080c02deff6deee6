//! Text: decimal and hexadecimal digits, and the few string operations of
//! the standard library that the codecs call.

use vstd::prelude::*;

verus! {

/// The text that `str::trim` leaves of `s`: `s` without the white space
/// at its ends.
pub uninterp spec fn trimmed(s: Seq<char>) -> Seq<char>;

/// `str::trim` of the standard library. Its result is a function of the
/// text alone; the contract gives that function the name `trimmed`.
#[verifier::external_body]
pub(crate) fn trim(s: &str) -> (r: &str)
    ensures
        r@ == trimmed(s@),
{
    s.trim()
}

/// `String::push` of the standard library appends one character.
pub assume_specification[ String::push ](s: &mut String, c: char)
    ensures
        final(s)@ == old(s)@.push(c),
;

/// The characters of `s`, in order.
pub fn chars_of(s: &str) -> (v: Vec<char>)
    ensures
        v@ == s@,
{
    let mut v: Vec<char> = Vec::new();
    for c in it: s.chars()
        invariant
            v@ == it.seq().take(it.index()),
    {
        v.push(c);
    }
    v
}

/// `c` is one of the decimal digits `0` to `9`.
pub open spec fn is_digit(c: char) -> bool {
    '0' <= c <= '9'
}

/// The value of the decimal digit `c`.
pub open spec fn digit_value(c: char) -> nat {
    (c as u32 - '0' as u32) as nat
}

/// Every character of `s` is a decimal digit.
pub open spec fn all_digits(s: Seq<char>) -> bool {
    forall|i: int| 0 <= i < s.len() ==> is_digit(#[trigger] s[i])
}

/// `s` is a decimal numeral: one or more decimal digits and nothing else.
pub open spec fn is_decimal(s: Seq<char>) -> bool {
    s.len() >= 1 && all_digits(s)
}

/// The number that the digits of `s` write in base ten (0 for no digits).
pub open spec fn decimal_value(s: Seq<char>) -> nat
    decreases s.len(),
{
    if s.len() == 0 {
        0
    } else {
        decimal_value(s.drop_last()) * 10 + digit_value(s.last())
    }
}

/// Where the run of decimal digits that starts at `from` ends: the index of
/// the first character at or after `from` that is no digit, or the length
/// of `s` where every character from there on is one.
pub open spec fn digits_end(s: Seq<char>, from: int) -> int
    decreases s.len() - from,
{
    if 0 <= from < s.len() && is_digit(s[from]) {
        digits_end(s, from + 1)
    } else {
        from
    }
}

/// `v`, held at `cap + 1` where it is larger than `cap`.
pub open spec fn capped(v: nat, cap: nat) -> nat {
    if v > cap {
        cap + 1
    } else {
        v
    }
}

/// The run of digits from `from` ends at `digits_end`: up to there every
/// character is a digit, and the character there, if any, is none.
pub proof fn lemma_digits_end(s: Seq<char>, from: int)
    requires
        0 <= from <= s.len(),
    ensures
        from <= digits_end(s, from) <= s.len(),
        all_digits(s.subrange(from, digits_end(s, from))),
        digits_end(s, from) < s.len() ==> !is_digit(s[digits_end(s, from)]),
    decreases s.len() - from,
{
    if from < s.len() && is_digit(s[from]) {
        lemma_digits_end(s, from + 1);
        let e = digits_end(s, from);
        assert forall|i: int| 0 <= i < e - from implies is_digit(
            #[trigger] s.subrange(from, e)[i],
        ) by {
            if i > 0 {
                assert(s.subrange(from + 1, e)[i - 1] == s[from + i]);
            }
        }
    }
}

/// A run of digits that starts earlier ends where the run from any of its
/// own positions ends.
pub proof fn lemma_digits_end_from(s: Seq<char>, from: int, mid: int)
    requires
        0 <= from <= mid <= s.len(),
        all_digits(s.subrange(from, mid)),
    ensures
        digits_end(s, from) == digits_end(s, mid),
    decreases mid - from,
{
    if from < mid {
        assert(s.subrange(from, mid)[0] == s[from]);
        assert forall|i: int| 0 <= i < mid - (from + 1) implies is_digit(
            #[trigger] s.subrange(from + 1, mid)[i],
        ) by {
            assert(s.subrange(from, mid)[i + 1] == s[from + 1 + i]);
        }
        lemma_digits_end_from(s, from + 1, mid);
    }
}

/// Whether `c` is a decimal digit.
pub(crate) fn is_digit_char(c: char) -> (r: bool)
    ensures
        r == is_digit(c),
{
    c >= '0' && c <= '9'
}

/// The value of the decimal digit `c`.
pub(crate) fn digit_value_of(c: char) -> (d: u32)
    requires
        is_digit(c),
    ensures
        d as nat == digit_value(c),
        d <= 9,
{
    (c as u32) - ('0' as u32)
}

/// Reads the run of decimal digits of `s` that starts at `from`. Returns
/// where the run ends, and its value held at `cap + 1`.
pub(crate) fn read_digits(s: &Vec<char>, from: usize, cap: u32) -> (r: (usize, u32))
    requires
        from <= s.len(),
        cap <= 100_000_000,
    ensures
        r.0 as int == digits_end(s@, from as int),
        from <= r.0 <= s.len(),
        r.1 as nat == capped(decimal_value(s@.subrange(from as int, r.0 as int)), cap as nat),
{
    let mut i: usize = from;
    let mut v: u32 = 0;
    while i < s.len() && is_digit_char(s[i])
        invariant
            from <= i <= s.len(),
            cap <= 100_000_000,
            digits_end(s@, from as int) == digits_end(s@, i as int),
            v as nat == capped(decimal_value(s@.subrange(from as int, i as int)), cap as nat),
        decreases s.len() - i,
    {
        let d: u32 = digit_value_of(s[i]);
        proof {
            let t = s@.subrange(from as int, i as int + 1);
            assert(t.drop_last() =~= s@.subrange(from as int, i as int));
            assert(t.last() == s@[i as int]);
        }
        v = v * 10 + d;
        if v > cap {
            v = cap + 1;
        }
        i = i + 1;
    }
    (i, v)
}

/// `s` without the slash that it starts with, if it starts with one.
pub open spec fn strip_slash(s: Seq<char>) -> Seq<char> {
    if s.len() > 0 && s[0] == '/' {
        s.subrange(1, s.len() as int)
    } else {
        s
    }
}

/// The prefix length that `s` writes, if it writes one: a decimal numeral,
/// with or without a slash before it.
pub open spec fn prefix_length_value(s: Seq<char>) -> Option<nat> {
    if is_decimal(strip_slash(s)) {
        Some(decimal_value(strip_slash(s)))
    } else {
        None
    }
}

/// The text from `from` to the end of `s` is a decimal numeral exactly if
/// it is not empty and the run of digits at `from` reaches the end of `s`.
pub proof fn lemma_decimal_suffix(s: Seq<char>, from: int)
    requires
        0 <= from <= s.len(),
    ensures
        is_decimal(s.subrange(from, s.len() as int)) <==> (from < s.len() && digits_end(s, from)
            == s.len()),
{
    lemma_digits_end(s, from);
    if is_decimal(s.subrange(from, s.len() as int)) {
        lemma_digits_end_from(s, from, s.len() as int);
    }
}

/// Reads a prefix length: a decimal numeral, with or without a slash
/// before it. Returns its value held at 1001, or `None` where the text
/// writes no prefix length.
pub(crate) fn read_prefix_length(s: &Vec<char>) -> (r: Option<u32>)
    ensures
        match prefix_length_value(s@) {
            Some(v) => r == Some(capped(v, 1000) as u32),
            None => r is None,
        },
{
    let start: usize = if s.len() > 0 && s[0] == '/' {
        1
    } else {
        0
    };
    let (e, v) = read_digits(s, start, 1000);
    proof {
        lemma_decimal_suffix(s@, start as int);
        assert(s@.subrange(0, s@.len() as int) =~= s@);
    }
    if start < s.len() && e == s.len() {
        Some(v)
    } else {
        None
    }
}

/// The character that writes the digit `d` in base sixteen, in lower case.
pub open spec fn hex_digit_char(d: nat) -> char {
    seq!['0', '1', '2', '3', '4', '5', '6', '7', '8', '9', 'a', 'b', 'c', 'd', 'e', 'f'][d as int]
}

/// `n` in base ten, without leading zeros.
pub open spec fn decimal_text(n: nat) -> Seq<char>
    decreases n,
{
    if n < 10 {
        seq![hex_digit_char(n)]
    } else {
        decimal_text(n / 10).push(hex_digit_char(n % 10))
    }
}

/// A number in base ten is a decimal numeral of that value, one to three
/// digits long for a number below a thousand, and starts with a zero only
/// where the number is zero.
pub proof fn lemma_decimal_text(n: nat)
    ensures
        is_decimal(decimal_text(n)),
        decimal_value(decimal_text(n)) == n,
        n >= 1 ==> decimal_text(n)[0] != '0',
        n < 10 <==> decimal_text(n).len() == 1,
        n < 100 ==> decimal_text(n).len() <= 2,
        n < 1000 ==> decimal_text(n).len() <= 3,
    decreases n,
{
    let d: nat = n % 10;
    let c = hex_digit_char(d);
    assert(is_digit(c) && digit_value(c) == d && (d >= 1 ==> c != '0')) by {
        assert(d == 0 || d == 1 || d == 2 || d == 3 || d == 4 || d == 5 || d == 6 || d == 7 || d
            == 8 || d == 9);
    }
    let t = decimal_text(n);
    if n < 10 {
        assert(t.drop_last() =~= Seq::<char>::empty());
        assert(decimal_value(t.drop_last()) == 0);
    } else {
        lemma_decimal_text(n / 10);
        let head = decimal_text(n / 10);
        assert(t.drop_last() =~= head);
        assert(t[0] == head[0]);
        assert forall|i: int| 0 <= i < t.len() implies is_digit(#[trigger] t[i]) by {
            if i < head.len() {
                assert(t[i] == head[i]);
            }
        }
    }
}

/// A decimal numeral that does not start with a zero writes a number of
/// at least one.
pub proof fn lemma_decimal_value_positive(s: Seq<char>)
    requires
        is_decimal(s),
        s[0] != '0',
    ensures
        decimal_value(s) >= 1,
    decreases s.len(),
{
    if s.len() > 1 {
        assert(s.drop_last()[0] == s[0]);
        assert forall|i: int| 0 <= i < s.drop_last().len() implies is_digit(
            #[trigger] s.drop_last()[i],
        ) by {
            assert(s.drop_last()[i] == s[i]);
        }
        lemma_decimal_value_positive(s.drop_last());
    } else {
        assert(s.drop_last() =~= Seq::<char>::empty());
        assert(decimal_value(s.drop_last()) == 0);
        assert(is_digit(s[0]));
    }
}

/// A decimal numeral without a leading zero before another digit is the
/// text in base ten of the number it writes.
pub proof fn lemma_decimal_numeral_is_text(s: Seq<char>)
    requires
        is_decimal(s),
        s.len() > 1 ==> s[0] != '0',
    ensures
        decimal_text(decimal_value(s)) == s,
    decreases s.len(),
{
    let c = s.last();
    let d = digit_value(c);
    assert(is_digit(c));
    assert(hex_digit_char(d) == c) by {
        assert(d == 0 || d == 1 || d == 2 || d == 3 || d == 4 || d == 5 || d == 6 || d == 7 || d
            == 8 || d == 9);
    }
    let head = s.drop_last();
    if s.len() == 1 {
        assert(head =~= Seq::<char>::empty());
        assert(decimal_value(head) == 0);
        assert(decimal_text(d) =~= s);
    } else {
        assert(head[0] == s[0]);
        assert forall|i: int| 0 <= i < head.len() implies is_digit(#[trigger] head[i]) by {
            assert(head[i] == s[i]);
        }
        lemma_decimal_value_positive(head);
        lemma_decimal_numeral_is_text(head);
        let v = decimal_value(s);
        assert(v / 10 == decimal_value(head) && v % 10 == d);
        assert(decimal_text(v) =~= head.push(c));
        assert(head.push(c) =~= s);
    }
}

/// The four hexadecimal digits of `x`, leading zeros included.
pub open spec fn hex4_text(x: nat) -> Seq<char> {
    seq![
        hex_digit_char((x / 4096) % 16),
        hex_digit_char((x / 256) % 16),
        hex_digit_char((x / 16) % 16),
        hex_digit_char(x % 16),
    ]
}

/// The character that writes the digit `d` in base sixteen.
pub(crate) fn hex_digit(d: u8) -> (c: char)
    requires
        d < 16,
    ensures
        c == hex_digit_char(d as nat),
{
    if d < 10 {
        (48u8 + d) as char
    } else {
        (87u8 + d) as char
    }
}

/// Appends `n` in base ten to `out`.
pub fn push_decimal(out: &mut String, n: u128)
    ensures
        final(out)@ == old(out)@ + decimal_text(n as nat),
    decreases n,
{
    if n >= 10 {
        push_decimal(out, n / 10);
    }
    out.push(hex_digit((n % 10) as u8));
}

/// The label of a prefix length: a slash and the length in base ten.
pub open spec fn prefix_label(prefix: nat) -> Seq<char> {
    seq!['/'] + decimal_text(prefix)
}

/// The label of a prefix length.
pub fn prefix_label_of(prefix: u8) -> (r: String)
    ensures
        r@ == prefix_label(prefix as nat),
{
    let mut label = String::new();
    label.push('/');
    push_decimal(&mut label, prefix as u128);
    label
}

/// Appends the four hexadecimal digits of `x` to `out`.
pub fn push_hex4(out: &mut String, x: u16)
    ensures
        final(out)@ == old(out)@ + hex4_text(x as nat),
{
    out.push(hex_digit(((x / 4096) % 16) as u8));
    out.push(hex_digit(((x / 256) % 16) as u8));
    out.push(hex_digit(((x / 16) % 16) as u8));
    out.push(hex_digit((x % 16) as u8));
}

} // verus!
