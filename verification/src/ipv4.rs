//! IPv4 addresses as numbers and as dotted text. An address is written as
//! its four bytes in decimal, most significant first, with dots between
//! them; only that form is read back: one to three digits for each byte,
//! no zero in front of another digit, no byte above 255, nothing before,
//! between or after.

use vstd::prelude::*;
use vstd::string::StringExecFns;
use crate::key_time::{all_digits, digits_value, lemma_padded_value};
use crate::key_order::lemma_decimal_len;
use crate::text::{
    decimal,
    decimal_text,
    is_digit,
    lemma_decimal_digits,
    pow10,
    push_decimal_text,
};

verus! {

/// The byte `.`.
pub const DOT: u8 = 46;

/// A dot as text.
pub open spec fn dot() -> Seq<u8> {
    seq![DOT]
}

/// Byte `n` of an address, counted from the most significant, which is 0.
pub open spec fn octet(ip: u32, n: int) -> nat {
    if n == 0 {
        (ip / 0x100_0000) as nat
    } else if n == 1 {
        (ip / 0x1_0000 % 0x100) as nat
    } else if n == 2 {
        (ip / 0x100 % 0x100) as nat
    } else {
        (ip % 0x100) as nat
    }
}

/// The address whose four bytes are `a`, `b`, `c` and `d`.
pub open spec fn from_octets(a: nat, b: nat, c: nat, d: nat) -> u32 {
    (a * 0x100_0000 + b * 0x1_0000 + c * 0x100 + d) as u32
}

/// An address as dotted text.
pub open spec fn dotted_quad(ip: u32) -> Seq<u8> {
    decimal(octet(ip, 0)) + dot() + decimal(octet(ip, 1)) + dot() + decimal(octet(ip, 2)) + dot()
        + decimal(octet(ip, 3))
}

/// An address as dotted text, in characters.
pub open spec fn dotted_quad_text(ip: u32) -> Seq<char> {
    decimal_text(octet(ip, 0)) + seq!['.'] + decimal_text(octet(ip, 1)) + seq!['.'] + decimal_text(
        octet(ip, 2),
    ) + seq!['.'] + decimal_text(octet(ip, 3))
}

/// The number of digits of `s` from place `at` on, up to the first byte
/// that is no digit.
pub open spec fn digit_run(s: Seq<u8>, at: int) -> int
    decreases s.len() - at,
{
    if 0 <= at < s.len() && is_digit(s[at]) {
        1 + digit_run(s, at + 1)
    } else {
        0
    }
}

/// The byte of an address that is written at place `at` of `s`, and the
/// place behind it: all the digits that stand there, where they are one to
/// three, start with no zero unless they are one, and spell at most 255.
pub open spec fn octet_at(s: Seq<u8>, at: int) -> Option<(nat, int)> {
    let run = digit_run(s, at);
    let text = s.subrange(at, at + run);
    if 1 <= run <= 3 && (run == 1 || text[0] != 48) && digits_value(text) <= 255 {
        Some((digits_value(text), at + run))
    } else {
        None
    }
}

/// The byte of an address that is written at place `at` of `s` behind a
/// dot, and the place behind it.
pub open spec fn dot_octet_at(s: Seq<u8>, at: int) -> Option<(nat, int)> {
    if 0 <= at < s.len() && s[at] == DOT {
        octet_at(s, at + 1)
    } else {
        None
    }
}

/// The address that `s` spells, or `None` where it spells none.
pub open spec fn parse_ipv4_spec(s: Seq<u8>) -> Option<u32> {
    match octet_at(s, 0) {
        Some((a, n1)) => match dot_octet_at(s, n1) {
            Some((b, n2)) => match dot_octet_at(s, n2) {
                Some((c, n3)) => match dot_octet_at(s, n3) {
                    Some((d, n4)) => if n4 == s.len() {
                        Some(from_octets(a, b, c, d))
                    } else {
                        None
                    },
                    None => None,
                },
                None => None,
            },
            None => None,
        },
        None => None,
    }
}

/// The digits from `at` on go as far as the first byte that is no digit.
pub proof fn lemma_digit_run(s: Seq<u8>, at: int)
    requires
        0 <= at <= s.len(),
    ensures
        0 <= digit_run(s, at) <= s.len() - at,
        all_digits(s.subrange(at, at + digit_run(s, at))),
        at + digit_run(s, at) < s.len() ==> !is_digit(s[at + digit_run(s, at)]),
    decreases s.len() - at,
{
    if at < s.len() && is_digit(s[at]) {
        lemma_digit_run(s, at + 1);
        let run = digit_run(s, at);
        assert forall|i: int| 0 <= i < run implies is_digit(
            #[trigger] s.subrange(at, at + run)[i],
        ) by {
            if i > 0 {
                assert(s.subrange(at, at + run)[i] == s.subrange(at + 1, at + run)[i - 1]);
            }
        }
    }
}

/// Where `n` digits stand from `at` on and no digit follows them, the run
/// of digits there is `n` long.
pub proof fn lemma_digit_run_is(s: Seq<u8>, at: int, n: int)
    requires
        0 <= at,
        0 <= n,
        at + n <= s.len(),
        forall|j: int| at <= j < at + n ==> is_digit(s[j]),
        at + n < s.len() ==> !is_digit(s[at + n]),
    ensures
        digit_run(s, at) == n,
    decreases n,
{
    if n > 0 {
        lemma_digit_run_is(s, at + 1, n - 1);
    }
}

/// Digits that start with no zero, or are one digit alone, are the decimal
/// text of the number they spell.
pub proof fn lemma_canonical_digits(text: Seq<u8>)
    requires
        text.len() >= 1,
        all_digits(text),
        text.len() == 1 || text[0] != 48,
    ensures
        text == decimal(digits_value(text)),
        text.len() > 1 ==> digits_value(text) >= 10,
        text[0] != 48 ==> digits_value(text) >= 1,
    decreases text.len(),
{
    let front = text.drop_last();
    let c = text.last();
    assert(is_digit(text[text.len() - 1]));
    if text.len() == 1 {
        assert(front =~= Seq::<u8>::empty());
        assert(digits_value(front) == 0);
        assert(text =~= seq![c]);
        assert(decimal((c - 48) as nat) =~= seq![c]);
    } else {
        assert forall|i: int| 0 <= i < front.len() implies is_digit(#[trigger] front[i]) by {
            assert(front[i] == text[i]);
        }
        assert(front[0] == text[0]);
        lemma_canonical_digits(front);
        let v = digits_value(text);
        assert(v == digits_value(front) * 10 + (c - 48));
        assert(v / 10 == digits_value(front));
        assert(v % 10 == c - 48);
        assert(text =~= front.push(c));
    }
}

/// Decimal text of a number from ten on starts with no zero.
pub proof fn lemma_decimal_leading(n: nat)
    ensures
        n >= 1 ==> decimal(n)[0] != 48,
        n >= 10 ==> decimal(n).len() >= 2,
    decreases n,
{
    if n >= 10 {
        lemma_decimal_leading(n / 10);
        lemma_decimal_digits(n / 10);
        assert(decimal(n)[0] == decimal(n / 10)[0]);
    }
}

/// Where the decimal text of a byte stands at `at` and no digit follows
/// it, the byte is read there.
pub proof fn lemma_octet_at(s: Seq<u8>, at: int, v: nat)
    requires
        0 <= at,
        v <= 255,
        at + decimal(v).len() <= s.len(),
        s.subrange(at, at + decimal(v).len()) == decimal(v),
        at + decimal(v).len() < s.len() ==> !is_digit(s[at + decimal(v).len()]),
    ensures
        octet_at(s, at) == Some((v, at + decimal(v).len())),
{
    let text = decimal(v);
    lemma_decimal_digits(v);
    assert forall|j: int| at <= j < at + text.len() implies is_digit(s[j]) by {
        assert(s[j] == s.subrange(at, at + text.len())[j - at]);
    }
    lemma_digit_run_is(s, at, text.len() as int);
    assert(pow10(3) == 1000) by {
        reveal_with_fuel(pow10, 4);
    }
    lemma_decimal_len(v, 3);
    lemma_decimal_leading(v);
    lemma_padded_value(Seq::<u8>::empty(), v);
    assert(Seq::<u8>::empty() + text =~= text);
}

/// An address in dotted text is read back as the address.
pub proof fn lemma_parse_dotted_quad(ip: u32)
    ensures
        parse_ipv4_spec(dotted_quad(ip)) == Some(ip),
{
    let a = octet(ip, 0);
    let b = octet(ip, 1);
    let c = octet(ip, 2);
    let d = octet(ip, 3);
    let s = dotted_quad(ip);
    let ta = decimal(a);
    let tb = decimal(b);
    let tc = decimal(c);
    let td = decimal(d);
    lemma_decimal_digits(a);
    lemma_decimal_digits(b);
    lemma_decimal_digits(c);
    lemma_decimal_digits(d);
    let n1 = ta.len() as int;
    let n2 = n1 + 1 + tb.len();
    let n3 = n2 + 1 + tc.len();
    let n4 = n3 + 1 + td.len();
    assert(s.len() == n4);
    assert(s[n1] == DOT && s[n2] == DOT && s[n3] == DOT);
    assert(s.subrange(0, n1) =~= ta);
    assert(s.subrange(n1 + 1, n2) =~= tb);
    assert(s.subrange(n2 + 1, n3) =~= tc);
    assert(s.subrange(n3 + 1, n4) =~= td);
    lemma_octet_at(s, 0, a);
    lemma_octet_at(s, n1 + 1, b);
    lemma_octet_at(s, n2 + 1, c);
    lemma_octet_at(s, n3 + 1, d);
    assert(from_octets(a, b, c, d) == ip);
}

/// The byte read at a place is written there in decimal.
pub proof fn lemma_octet_at_text(s: Seq<u8>, at: int)
    requires
        0 <= at <= s.len(),
        octet_at(s, at) is Some,
    ensures
        ({
            let (v, next) = octet_at(s, at).unwrap();
            at < next <= s.len() && v <= 255 && s.subrange(at, next) == decimal(v)
        }),
{
    let run = digit_run(s, at);
    lemma_digit_run(s, at);
    lemma_canonical_digits(s.subrange(at, at + run));
}

/// Four bytes put together as an address are the bytes of that address.
pub proof fn lemma_octets(a: nat, b: nat, c: nat, d: nat)
    requires
        a <= 255,
        b <= 255,
        c <= 255,
        d <= 255,
    ensures
        octet(from_octets(a, b, c, d), 0) == a,
        octet(from_octets(a, b, c, d), 1) == b,
        octet(from_octets(a, b, c, d), 2) == c,
        octet(from_octets(a, b, c, d), 3) == d,
{
    let ip = a * 0x100_0000 + b * 0x1_0000 + c * 0x100 + d;
    assert(ip / 0x100_0000 == a);
    assert(ip / 0x1_0000 == a * 0x100 + b);
    assert(ip / 0x100 == a * 0x1_0000 + b * 0x100 + c);
    assert((a * 0x100 + b) % 0x100 == b);
    assert((a * 0x1_0000 + b * 0x100 + c) % 0x100 == c);
    assert(ip % 0x100 == d);
}

/// A text that is read as an address is the dotted text of that address.
pub proof fn lemma_parsed_is_dotted_quad(s: Seq<u8>)
    requires
        parse_ipv4_spec(s) is Some,
    ensures
        s == dotted_quad(parse_ipv4_spec(s).unwrap()),
{
    lemma_octet_at_text(s, 0);
    let (a, n1) = octet_at(s, 0).unwrap();
    lemma_octet_at_text(s, n1 + 1);
    let (b, n2) = octet_at(s, n1 + 1).unwrap();
    lemma_octet_at_text(s, n2 + 1);
    let (c, n3) = octet_at(s, n2 + 1).unwrap();
    lemma_octet_at_text(s, n3 + 1);
    let (d, n4) = octet_at(s, n3 + 1).unwrap();
    lemma_octets(a, b, c, d);
    let parts = s.subrange(0, n1) + dot() + s.subrange(n1 + 1, n2) + dot() + s.subrange(
        n2 + 1,
        n3,
    ) + dot() + s.subrange(n3 + 1, n4);
    assert(s =~= parts);
}

/// Reads the byte of an address at place `at`.
fn read_octet(s: &[u8], at: usize) -> (r: Option<(u8, usize)>)
    requires
        at <= s@.len(),
    ensures
        match r {
            Some((v, next)) => octet_at(s@, at as int) == Some((v as nat, next as int)) && next
                <= s@.len(),
            None => octet_at(s@, at as int) is None,
        },
{
    let mut end: usize = at;
    let mut value: u32 = 0;
    let ghost text = s@.subrange(at as int, at as int);
    assert(text =~= Seq::<u8>::empty());
    while end < s.len() && s[end] >= 48 && s[end] <= 57 && end - at < 4
        invariant
            at <= end <= s@.len(),
            end - at <= 4,
            forall|j: int| at <= j < end ==> is_digit(s@[j]),
            value == digits_value(s@.subrange(at as int, end as int)),
            end - at == 0 ==> value == 0,
            end - at == 1 ==> value <= 9,
            end - at == 2 ==> value <= 99,
            end - at == 3 ==> value <= 999,
            end - at == 4 ==> value <= 9999,
        decreases s@.len() - end,
    {
        proof {
            let longer = s@.subrange(at as int, end + 1);
            assert(longer.drop_last() =~= s@.subrange(at as int, end as int));
            assert(longer.last() == s@[end as int]);
        }
        value = value * 10 + (s[end] - 48) as u32;
        end = end + 1;
    }
    let run = end - at;
    proof {
        lemma_digit_run(s@, at as int);
        if run < 4 {
            lemma_digit_run_is(s@, at as int, run as int);
        } else {
            assert(digit_run(s@, at as int) >= 4) by {
                if digit_run(s@, at as int) < 4 {
                    let r = digit_run(s@, at as int);
                    assert(is_digit(s@[at + r]));
                }
            }
        }
    }
    if run == 0 || run > 3 {
        return None;
    }
    if run > 1 && s[at] == 48 {
        assert(s@.subrange(at as int, end as int)[0] == s@[at as int]);
        return None;
    }
    assert(s@.subrange(at as int, end as int)[0] == s@[at as int]);
    if value > 255 {
        return None;
    }
    Some((value as u8, end))
}

/// Reads the byte of an address at place `at`, behind a dot.
fn read_dot_octet(s: &[u8], at: usize) -> (r: Option<(u8, usize)>)
    requires
        at <= s@.len(),
    ensures
        match r {
            Some((v, next)) => dot_octet_at(s@, at as int) == Some((v as nat, next as int)) && next
                <= s@.len(),
            None => dot_octet_at(s@, at as int) is None,
        },
{
    if at < s.len() && s[at] == DOT {
        read_octet(s, at + 1)
    } else {
        None
    }
}

/// The address that `s` spells, or `None` where it spells none.
pub fn parse_ipv4(s: &[u8]) -> (r: Option<u32>)
    ensures
        r == parse_ipv4_spec(s@),
        r matches Some(ip) ==> s@ == dotted_quad(ip),
        r is None ==> forall|ip: u32| s@ != #[trigger] dotted_quad(ip),
{
    proof {
        if parse_ipv4_spec(s@) is Some {
            lemma_parsed_is_dotted_quad(s@);
        } else {
            assert forall|ip: u32| s@ != #[trigger] dotted_quad(ip) by {
                lemma_parse_dotted_quad(ip);
            }
        }
    }
    let (a, n1) = match read_octet(s, 0) {
        Some(x) => x,
        None => {
            return None;
        },
    };
    let (b, n2) = match read_dot_octet(s, n1) {
        Some(x) => x,
        None => {
            return None;
        },
    };
    let (c, n3) = match read_dot_octet(s, n2) {
        Some(x) => x,
        None => {
            return None;
        },
    };
    let (d, n4) = match read_dot_octet(s, n3) {
        Some(x) => x,
        None => {
            return None;
        },
    };
    if n4 != s.len() {
        return None;
    }
    Some((a as u32) * 0x100_0000 + (b as u32) * 0x1_0000 + (c as u32) * 0x100 + (d as u32))
}

/// An address as dotted text.
pub fn format_ipv4(ip: u32) -> (r: String)
    ensures
        r@ == dotted_quad_text(ip),
{
    proof {
        reveal_strlit(".");
    }
    let mut text = String::from_str("");
    proof {
        reveal_strlit("");
    }
    push_decimal_text(&mut text, (ip / 0x100_0000) as u64);
    text.append(".");
    push_decimal_text(&mut text, (ip / 0x1_0000 % 0x100) as u64);
    text.append(".");
    push_decimal_text(&mut text, (ip / 0x100 % 0x100) as u64);
    text.append(".");
    push_decimal_text(&mut text, (ip % 0x100) as u64);
    assert(text@ =~= dotted_quad_text(ip));
    text
}

} // verus!
