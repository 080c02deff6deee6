//! IPv4 addresses as text: dotted decimal, read and written.

use crate::text::{
    all_digits, chars_of, decimal_text, decimal_value, digits_end, is_digit, lemma_decimal_numeral_is_text,
    lemma_decimal_text,
    lemma_digits_end, lemma_digits_end_from, push_decimal, read_digits,
};
use vstd::prelude::*;

verus! {

/// `s` writes one octet of an address: one to three decimal digits, no
/// leading zero before another digit, and a value of at most 255.
pub open spec fn is_octet_text(s: Seq<char>) -> bool {
    &&& 1 <= s.len() <= 3
    &&& all_digits(s)
    &&& (s.len() > 1 ==> s[0] != '0')
    &&& decimal_value(s) <= 255
}

/// The address whose octets are `a`, `b`, `c` and `d`, first to last.
pub open spec fn address_of_octets(a: nat, b: nat, c: nat, d: nat) -> nat {
    ((a * 256 + b) * 256 + c) * 256 + d
}

/// The address that `s` writes in dotted decimal, if it writes one: four
/// octets with a dot between each two, and nothing before, between or
/// after them.
pub open spec fn dotted_quad_value(s: Seq<char>) -> Option<u32> {
    let e0 = digits_end(s, 0);
    let e1 = digits_end(s, e0 + 1);
    let e2 = digits_end(s, e1 + 1);
    let e3 = digits_end(s, e2 + 1);
    if is_octet_text(s.subrange(0, e0)) && e0 < s.len() && s[e0] == '.' && is_octet_text(
        s.subrange(e0 + 1, e1),
    ) && e1 < s.len() && s[e1] == '.' && is_octet_text(s.subrange(e1 + 1, e2)) && e2 < s.len()
        && s[e2] == '.' && is_octet_text(s.subrange(e2 + 1, e3)) && e3 == s.len() {
        Some(
            address_of_octets(
                decimal_value(s.subrange(0, e0)),
                decimal_value(s.subrange(e0 + 1, e1)),
                decimal_value(s.subrange(e1 + 1, e2)),
                decimal_value(s.subrange(e2 + 1, e3)),
            ) as u32,
        )
    } else {
        None
    }
}

/// `addr` in dotted decimal: its four octets in base ten, first to last,
/// with a dot between each two.
pub open spec fn dotted_quad_text(addr: nat) -> Seq<char> {
    decimal_text(addr / 16777216) + seq!['.'] + decimal_text((addr / 65536) % 256) + seq!['.']
        + decimal_text((addr / 256) % 256) + seq!['.'] + decimal_text(addr % 256)
}

/// A run of digits that ends at the end of the text, or before a
/// character that is no digit, ends there.
proof fn lemma_digit_run(s: Seq<char>, from: int, to: int)
    requires
        0 <= from <= to <= s.len(),
        all_digits(s.subrange(from, to)),
        to == s.len() || !is_digit(s[to]),
    ensures
        digits_end(s, from) == to,
{
    lemma_digits_end_from(s, from, to);
}

/// Reading what was written gives the address back: the dotted decimal
/// text of an address writes that address.
pub proof fn lemma_written_address_is_read(addr: u32)
    ensures
        dotted_quad_value(dotted_quad_text(addr as nat)) == Some(addr),
{
    let a: nat = addr as nat / 16777216;
    let b: nat = (addr as nat / 65536) % 256;
    let c: nat = (addr as nat / 256) % 256;
    let d: nat = addr as nat % 256;
    let ta = decimal_text(a);
    let tb = decimal_text(b);
    let tc = decimal_text(c);
    let td = decimal_text(d);
    lemma_decimal_text(a);
    lemma_decimal_text(b);
    lemma_decimal_text(c);
    lemma_decimal_text(d);
    let s = dotted_quad_text(addr as nat);
    let e0 = ta.len() as int;
    let e1 = e0 + 1 + tb.len();
    let e2 = e1 + 1 + tc.len();
    let e3 = e2 + 1 + td.len();
    assert(s.len() == e3);
    assert(s.subrange(0, e0) =~= ta);
    assert(s[e0] == '.');
    assert(s.subrange(e0 + 1, e1) =~= tb);
    assert(s[e1] == '.');
    assert(s.subrange(e1 + 1, e2) =~= tc);
    assert(s[e2] == '.');
    assert(s.subrange(e2 + 1, e3) =~= td);
    lemma_digit_run(s, 0, e0);
    lemma_digit_run(s, e0 + 1, e1);
    lemma_digit_run(s, e1 + 1, e2);
    lemma_digit_run(s, e2 + 1, e3);
    assert(address_of_octets(a, b, c, d) == addr);
}

/// The octets of the address made of four octets are those four.
proof fn lemma_octets_of_address(a: nat, b: nat, c: nat, d: nat)
    requires
        a <= 255,
        b <= 255,
        c <= 255,
        d <= 255,
    ensures
        address_of_octets(a, b, c, d) <= u32::MAX,
        address_of_octets(a, b, c, d) / 16777216 == a,
        (address_of_octets(a, b, c, d) / 65536) % 256 == b,
        (address_of_octets(a, b, c, d) / 256) % 256 == c,
        address_of_octets(a, b, c, d) % 256 == d,
{
}

/// A text cut at three places is its four pieces with what stands at the
/// cuts between them.
proof fn lemma_four_pieces(s: Seq<char>, e0: int, e1: int, e2: int)
    requires
        0 <= e0 < e1 < e2 < s.len(),
        s[e0] == '.',
        s[e1] == '.',
        s[e2] == '.',
    ensures
        s == s.subrange(0, e0) + seq!['.'] + s.subrange(e0 + 1, e1) + seq!['.'] + s.subrange(
            e1 + 1,
            e2,
        ) + seq!['.'] + s.subrange(e2 + 1, s.len() as int),
{
    assert(s =~= s.subrange(0, e0) + seq!['.'] + s.subrange(e0 + 1, e1) + seq!['.'] + s.subrange(
        e1 + 1,
        e2,
    ) + seq!['.'] + s.subrange(e2 + 1, s.len() as int));
}

/// The only text that writes an address is its dotted decimal text.
pub proof fn lemma_read_address_is_written(s: Seq<char>, addr: u32)
    requires
        dotted_quad_value(s) == Some(addr),
    ensures
        s == dotted_quad_text(addr as nat),
{
    let e0 = digits_end(s, 0);
    let e1 = digits_end(s, e0 + 1);
    let e2 = digits_end(s, e1 + 1);
    let ta = s.subrange(0, e0);
    let tb = s.subrange(e0 + 1, e1);
    let tc = s.subrange(e1 + 1, e2);
    let td = s.subrange(e2 + 1, s.len() as int);
    lemma_digits_end(s, 0);
    lemma_digits_end(s, e0 + 1);
    lemma_digits_end(s, e1 + 1);
    lemma_decimal_numeral_is_text(ta);
    lemma_decimal_numeral_is_text(tb);
    lemma_decimal_numeral_is_text(tc);
    lemma_decimal_numeral_is_text(td);
    lemma_octets_of_address(
        decimal_value(ta),
        decimal_value(tb),
        decimal_value(tc),
        decimal_value(td),
    );
    lemma_four_pieces(s, e0, e1, e2);
}

/// Reads the octet that starts at `from`: the run of digits there, if it
/// writes an octet. Returns the octet's value and where the run ends.
fn read_octet(s: &Vec<char>, from: usize) -> (r: Option<(u32, usize)>)
    requires
        from <= s.len(),
    ensures
        match r {
            Some((v, e)) => {
                &&& e as int == digits_end(s@, from as int)
                &&& from < e <= s.len()
                &&& is_octet_text(s@.subrange(from as int, e as int))
                &&& v as nat == decimal_value(s@.subrange(from as int, e as int))
                &&& v <= 255
            },
            None => !is_octet_text(s@.subrange(from as int, digits_end(s@, from as int))),
        },
{
    let (e, v) = read_digits(s, from, 255);
    proof {
        lemma_digits_end(s@, from as int);
    }
    let n: usize = e - from;
    if n == 0 || n > 3 || v > 255 {
        None
    } else if n > 1 && s[from] == '0' {
        assert(s@.subrange(from as int, e as int)[0] == s@[from as int]);
        None
    } else {
        assert(n > 1 ==> s@.subrange(from as int, e as int)[0] == s@[from as int]);
        Some((v, e))
    }
}

/// Reads the dot at `at`.
fn read_dot(s: &Vec<char>, at: usize) -> (r: bool)
    requires
        at <= s.len(),
    ensures
        r == (at < s.len() && s@[at as int] == '.'),
{
    at < s.len() && s[at] == '.'
}

/// Reads an address in dotted decimal from the characters `s`.
pub fn parse_addr_chars(s: &Vec<char>) -> (r: Option<u32>)
    ensures
        r == dotted_quad_value(s@),
{
    let (a, e0) = match read_octet(s, 0) {
        Some(x) => x,
        None => {
            return None;
        },
    };
    if !read_dot(s, e0) {
        return None;
    }
    let (b, e1) = match read_octet(s, e0 + 1) {
        Some(x) => x,
        None => {
            return None;
        },
    };
    if !read_dot(s, e1) {
        return None;
    }
    let (c, e2) = match read_octet(s, e1 + 1) {
        Some(x) => x,
        None => {
            return None;
        },
    };
    if !read_dot(s, e2) {
        return None;
    }
    let (d, e3) = match read_octet(s, e2 + 1) {
        Some(x) => x,
        None => {
            return None;
        },
    };
    if e3 != s.len() {
        return None;
    }
    Some(((a * 256 + b) * 256 + c) * 256 + d)
}

/// Reads an address in dotted decimal.
pub fn parse_addr(text: &str) -> (r: Option<u32>)
    ensures
        r == dotted_quad_value(text@),
{
    let chars = chars_of(text);
    parse_addr_chars(&chars)
}

/// Appends `addr` in dotted decimal to `out`.
pub fn push_addr(out: &mut String, addr: u32)
    ensures
        final(out)@ == old(out)@ + dotted_quad_text(addr as nat),
{
    push_decimal(out, (addr / 16777216) as u128);
    out.push('.');
    push_decimal(out, ((addr / 65536) % 256) as u128);
    out.push('.');
    push_decimal(out, ((addr / 256) % 256) as u128);
    out.push('.');
    push_decimal(out, (addr % 256) as u128);
}

/// `addr` in dotted decimal.
pub fn format_addr(addr: u32) -> (r: String)
    ensures
        r@ == dotted_quad_text(addr as nat),
{
    let mut out = String::new();
    push_addr(&mut out, addr);
    out
}

} // verus!
