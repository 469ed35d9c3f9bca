//! The addresses that are watched from the start, as they are given in one
//! line of text: addresses with commas between them, each four numbers
//! with dots between them. A number is digits, a plus sign in front of
//! them if one likes, and is at most 255; zeros in front of it are taken.

use vstd::prelude::*;
use vstd::slice::slice_subrange;
use vstd::string::StringSliceAdditionalSpecFns;
use crate::ipv4::{dotted_quad_text, format_ipv4, from_octets, DOT};
use crate::key_time::{all_digits, digits_value};
use crate::text::is_digit;

verus! {

/// The byte `,`.
pub const COMMA: u8 = 44;

/// The byte `+`.
pub const PLUS: u8 = 43;

/// A watched address, as a number.
#[derive(Debug, Clone, Copy, PartialEq, Eq, Structural)]
pub struct TargetIp(pub u32);

impl TargetIp {
    /// The address in dotted form.
    pub fn to_string(&self) -> (r: String)
        ensures
            r@ == dotted_quad_text(self.0),
    {
        format_ipv4(self.0)
    }
}

/// The length of the first piece of `s`: the bytes before its first `sep`,
/// or all of it where it has none.
pub open spec fn piece_end(s: Seq<u8>, sep: u8) -> int
    decreases s.len(),
{
    if s.len() == 0 || s[0] == sep {
        0
    } else {
        1 + piece_end(s.drop_first(), sep)
    }
}

/// The pieces of `s` between its separators: one more than there are
/// separators, empty pieces among them.
pub open spec fn split(s: Seq<u8>, sep: u8) -> Seq<Seq<u8>>
    decreases s.len(),
{
    let n = piece_end(s, sep);
    if 0 <= n < s.len() {
        seq![s.take(n)] + split(s.skip(n + 1), sep)
    } else {
        seq![s]
    }
}

/// The number that a piece spells: digits, with or without a plus sign in
/// front, that spell at most 255.
pub open spec fn parse_u8_spec(s: Seq<u8>) -> Option<u8> {
    let digits = if s.len() > 0 && s[0] == PLUS {
        s.skip(1)
    } else {
        s
    };
    if digits.len() >= 1 && all_digits(digits) && digits_value(digits) <= 255 {
        Some(digits_value(digits) as u8)
    } else {
        None
    }
}

/// The address that four pieces spell.
pub open spec fn parse_target_spec(s: Seq<u8>) -> Option<u32> {
    let parts = split(s, DOT);
    if parts.len() == 4 {
        match (
            parse_u8_spec(parts[0]),
            parse_u8_spec(parts[1]),
            parse_u8_spec(parts[2]),
            parse_u8_spec(parts[3]),
        ) {
            (Some(a), Some(b), Some(c), Some(d)) => Some(
                from_octets(a as nat, b as nat, c as nat, d as nat),
            ),
            _ => None,
        }
    } else {
        None
    }
}

/// The addresses that a line spells, or `None` where one of its items
/// spells none.
pub open spec fn parse_targets_spec(s: Seq<u8>) -> Option<Seq<TargetIp>> {
    let items = split(s, COMMA);
    if forall|i: int| 0 <= i < items.len() ==> parse_target_spec(#[trigger] items[i]) is Some {
        Some(Seq::new(items.len(), |i: int| TargetIp(parse_target_spec(items[i]).unwrap())))
    } else {
        None
    }
}

/// Where a text has no separator before place `n`, and ends there or has
/// one there, its first piece ends at `n`.
pub proof fn lemma_piece_end_is(s: Seq<u8>, sep: u8, n: int)
    requires
        0 <= n <= s.len(),
        forall|j: int| 0 <= j < n ==> s[j] != sep,
        n == s.len() || s[n] == sep,
    ensures
        piece_end(s, sep) == n,
    decreases n,
{
    if n > 0 {
        let t = s.drop_first();
        assert forall|j: int| 0 <= j < n - 1 implies t[j] != sep by {
            assert(t[j] == s[j + 1]);
        }
        lemma_piece_end_is(t, sep, n - 1);
    }
}

/// A piece of a text: where it starts and where it ends.
#[derive(Clone, Copy, Debug, PartialEq, Eq, Structural)]
pub struct Piece {
    pub start: usize,
    pub end: usize,
}

/// The texts of pieces of `s`.
pub open spec fn piece_texts(s: Seq<u8>, pieces: Seq<Piece>) -> Seq<Seq<u8>> {
    Seq::new(pieces.len(), |i: int| s.subrange(pieces[i].start as int, pieces[i].end as int))
}

/// The pieces of `s` between its separators.
pub fn split_pieces(s: &[u8], sep: u8) -> (pieces: Vec<Piece>)
    ensures
        piece_texts(s@, pieces@) == split(s@, sep),
        forall|i: int|
            0 <= i < pieces@.len() ==> (#[trigger] pieces@[i]).start <= pieces@[i].end <= s@.len(),
{
    let mut pieces: Vec<Piece> = Vec::new();
    let mut start: usize = 0;
    assert(s@.skip(0) =~= s@);
    assert(piece_texts(s@, pieces@) + split(s@.skip(0), sep) =~= split(s@, sep));
    loop
        invariant_except_break
            start <= s@.len(),
            piece_texts(s@, pieces@) + split(s@.skip(start as int), sep) == split(s@, sep),
            forall|i: int|
                0 <= i < pieces@.len() ==> (#[trigger] pieces@[i]).start <= pieces@[i].end
                    <= s@.len(),
        ensures
            piece_texts(s@, pieces@) == split(s@, sep),
            forall|i: int|
                0 <= i < pieces@.len() ==> (#[trigger] pieces@[i]).start <= pieces@[i].end
                    <= s@.len(),
        decreases s@.len() - start,
    {
        let mut end: usize = start;
        while end < s.len() && s[end] != sep
            invariant
                start <= end <= s@.len(),
                forall|j: int| start <= j < end ==> s@[j] != sep,
            decreases s@.len() - end,
        {
            end = end + 1;
        }
        let ghost rest = s@.skip(start as int);
        let ghost before = piece_texts(s@, pieces@);
        proof {
            lemma_piece_end_is(rest, sep, end - start);
            assert(rest.take(end - start) =~= s@.subrange(start as int, end as int));
        }
        pieces.push(Piece { start, end });
        if end >= s.len() {
            proof {
                assert(rest =~= s@.subrange(start as int, end as int));
                assert(piece_texts(s@, pieces@) =~= before + seq![rest]);
            }
            break ;
        }
        proof {
            assert(rest.skip(end - start + 1) =~= s@.skip(end + 1));
            assert(piece_texts(s@, pieces@) =~= before + seq![rest.take(end - start)]);
            assert(piece_texts(s@, pieces@) + split(s@.skip(end + 1), sep) =~= before + split(
                rest,
                sep,
            ));
        }
        start = end + 1;
    }
    pieces
}

/// The number that a piece spells.
pub fn parse_u8(s: &[u8]) -> (r: Option<u8>)
    ensures
        r == parse_u8_spec(s@),
{
    let from: usize = if s.len() > 0 && s[0] == PLUS {
        1
    } else {
        0
    };
    let digits = slice_subrange(s, from, s.len());
    assert(digits@ =~= s@.skip(from as int));
    assert(s@.skip(0) =~= s@);
    if digits.len() == 0 {
        return None;
    }
    let mut value: u32 = 0;
    let mut i: usize = 0;
    assert(digits@.take(0) =~= Seq::<u8>::empty());
    while i < digits.len()
        invariant
            i <= digits@.len(),
            digits@.len() >= 1,
            digits@ == if s@.len() > 0 && s@[0] == PLUS {
                s@.skip(1)
            } else {
                s@
            },
            all_digits(digits@.take(i as int)),
            value <= 255,
            value == digits_value(digits@.take(i as int)),
        decreases digits@.len() - i,
    {
        let b = digits[i];
        if b < 48 || b > 57 {
            assert(!is_digit(digits@[i as int]));
            return None;
        }
        proof {
            assert(digits@.take(i + 1).drop_last() =~= digits@.take(i as int));
            assert(digits@.take(i + 1).last() == b);
            assert forall|j: int| 0 <= j < i + 1 implies is_digit(
                #[trigger] digits@.take(i + 1)[j],
            ) by {
                if j < i {
                    assert(digits@.take(i + 1)[j] == digits@.take(i as int)[j]);
                }
            }
        }
        value = value * 10 + (b - 48) as u32;
        if value > 255 {
            proof {
                lemma_digits_grow(digits@, i + 1);
            }
            return None;
        }
        i = i + 1;
    }
    assert(digits@.take(i as int) =~= digits@);
    Some(value as u8)
}

/// The digits of a text spell at least what its first digits spell.
pub proof fn lemma_digits_grow(s: Seq<u8>, n: int)
    requires
        0 <= n <= s.len(),
    ensures
        all_digits(s) ==> digits_value(s) >= digits_value(s.take(n)),
    decreases s.len() - n,
{
    if all_digits(s) {
        if n < s.len() {
            lemma_digits_grow(s, n + 1);
            assert(s.take(n + 1).drop_last() =~= s.take(n));
            assert(is_digit(s[n]));
            assert(s.take(n + 1).last() == s[n]);
        } else {
            assert(s.take(n) =~= s);
        }
    }
}

/// The address that four pieces spell.
pub fn parse_target(s: &[u8]) -> (r: Option<u32>)
    ensures
        r == parse_target_spec(s@),
{
    let parts = split_pieces(s, DOT);
    if parts.len() != 4 {
        return None;
    }
    let ghost texts = piece_texts(s@, parts@);
    assert(texts[0] == s@.subrange(parts@[0].start as int, parts@[0].end as int));
    assert(texts[1] == s@.subrange(parts@[1].start as int, parts@[1].end as int));
    assert(texts[2] == s@.subrange(parts@[2].start as int, parts@[2].end as int));
    assert(texts[3] == s@.subrange(parts@[3].start as int, parts@[3].end as int));
    let a = parse_u8(slice_subrange(s, parts[0].start, parts[0].end));
    let b = parse_u8(slice_subrange(s, parts[1].start, parts[1].end));
    let c = parse_u8(slice_subrange(s, parts[2].start, parts[2].end));
    let d = parse_u8(slice_subrange(s, parts[3].start, parts[3].end));
    match (a, b, c, d) {
        (Some(a), Some(b), Some(c), Some(d)) => Some(
            (a as u32) * 0x100_0000 + (b as u32) * 0x1_0000 + (c as u32) * 0x100 + (d as u32),
        ),
        _ => None,
    }
}

/// The addresses that a line of text spells, or `None` where one of its
/// items spells none. A line with nothing in it has one item, which spells
/// no address.
pub fn get_target_ip(line: &str) -> (r: Option<Vec<TargetIp>>)
    ensures
        r is Some <==> parse_targets_spec(line.spec_bytes()) is Some,
        r matches Some(targets) ==> targets@ == parse_targets_spec(line.spec_bytes()).unwrap(),
{
    let s = line.as_bytes();
    let items = split_pieces(s, COMMA);
    let ghost texts = piece_texts(s@, items@);
    let mut targets: Vec<TargetIp> = Vec::new();
    let mut i: usize = 0;
    while i < items.len()
        invariant
            i <= items@.len(),
            s@ == line.spec_bytes(),
            texts == piece_texts(s@, items@),
            texts == split(s@, COMMA),
            forall|j: int|
                0 <= j < items@.len() ==> (#[trigger] items@[j]).start <= items@[j].end <= s@.len(),
            targets@.len() == i,
            forall|j: int|
                0 <= j < i ==> parse_target_spec(#[trigger] texts[j]) == Some(targets@[j].0),
        decreases items@.len() - i,
    {
        assert(texts[i as int] == s@.subrange(items@[i as int].start as int, items@[i as int].end as int));
        match parse_target(slice_subrange(s, items[i].start, items[i].end)) {
            Some(ip) => {
                targets.push(TargetIp(ip));
            },
            None => {
                return None;
            },
        }
        i = i + 1;
    }
    proof {
        let expected = parse_targets_spec(line.spec_bytes()).unwrap();
        assert(targets@ =~= expected);
    }
    Some(targets)
}

} // verus!
