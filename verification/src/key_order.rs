//! Byte order and time order of keys. Time fields of ten digits are ordered
//! as the times they spell, so among keys that start alike the earlier
//! record comes first.

use vstd::prelude::*;
use crate::key_time::{
    all_digits,
    digits_value,
    lemma_padded_value,
    lemma_zeros_value,
};
use crate::text::{
    decimal,
    lemma_decimal_digits,
    lemma_lex_le_skip,
    lemma_lex_le_total,
    lemma_pow10_step,
    lemma_pow10_values,
    lemma_prefix_le,
    lex_le,
    pow10,
    time_field,
    zeros,
};

verus! {

/// The largest time, in seconds, whose time field has ten characters; past
/// it a field is longer and byte order is no longer time order.
pub open spec fn time_limit() -> int {
    10_000_000_000
}

/// Two texts of one length, each with one more byte: the longer texts are
/// ordered as the shorter ones are, and by the last byte where those are
/// the same.
pub proof fn lemma_lex_le_push(s: Seq<u8>, c: u8, t: Seq<u8>, d: u8)
    requires
        s.len() == t.len(),
    ensures
        lex_le(s.push(c), t.push(d)) == if s == t {
            c <= d
        } else {
            lex_le(s, t)
        },
    decreases s.len(),
{
    let sc = s.push(c);
    let td = t.push(d);
    if s.len() == 0 {
        assert(s =~= t);
        assert(sc.drop_first() =~= Seq::<u8>::empty());
        assert(td.drop_first() =~= Seq::<u8>::empty());
        assert(sc[0] == c && td[0] == d);
        assert(lex_le(sc.drop_first(), td.drop_first()));
    } else {
        assert(sc[0] == s[0] && td[0] == t[0]);
        if s[0] != t[0] {
            assert(s != t);
            assert(lex_le(sc, td) == (s[0] < t[0]));
            assert(lex_le(s, t) == (s[0] < t[0]));
        }
        if s[0] == t[0] {
            assert(lex_le(sc, td) == lex_le(sc.drop_first(), td.drop_first()));
            assert(lex_le(s, t) == lex_le(s.drop_first(), t.drop_first()));
            lemma_lex_le_push(s.drop_first(), c, t.drop_first(), d);
            assert(sc.drop_first() =~= s.drop_first().push(c));
            assert(td.drop_first() =~= t.drop_first().push(d));
            if s.drop_first() == t.drop_first() {
                assert forall|i: int| 0 <= i < s.len() implies s[i] == t[i] by {
                    if i > 0 {
                        assert(s[i] == s.drop_first()[i - 1]);
                        assert(t[i] == t.drop_first()[i - 1]);
                    }
                }
                assert(s =~= t);
            }
        }
    }
}

/// Digits of one length are ordered as the numbers they spell, and spell
/// the same number only where they are the same.
pub proof fn lemma_digits_order(s: Seq<u8>, t: Seq<u8>)
    requires
        s.len() == t.len(),
        all_digits(s),
        all_digits(t),
    ensures
        lex_le(s, t) <==> digits_value(s) <= digits_value(t),
        s == t <==> digits_value(s) == digits_value(t),
    decreases s.len(),
{
    if s.len() == 0 {
        assert(s =~= t);
    } else {
        let s1 = s.drop_last();
        let t1 = t.drop_last();
        let c = s.last();
        let d = t.last();
        assert(crate::text::is_digit(s[s.len() - 1]));
        assert(crate::text::is_digit(t[t.len() - 1]));
        assert forall|i: int| 0 <= i < s1.len() implies crate::text::is_digit(#[trigger] s1[i]) by {
            assert(s1[i] == s[i]);
        }
        assert forall|i: int| 0 <= i < t1.len() implies crate::text::is_digit(#[trigger] t1[i]) by {
            assert(t1[i] == t[i]);
        }
        lemma_digits_order(s1, t1);
        assert(s =~= s1.push(c));
        assert(t =~= t1.push(d));
        lemma_lex_le_push(s1, c, t1, d);
        lemma_lex_le_total(s1, t1);
        if s1 != t1 {
            if lex_le(s1, t1) {
                assert(digits_value(s1) + 1 <= digits_value(t1));
            } else {
                assert(digits_value(t1) + 1 <= digits_value(s1));
            }
        }
    }
}

/// A number below ten to the `k` has at most `k` digits.
pub proof fn lemma_decimal_len(n: nat, k: nat)
    requires
        k >= 1,
        n < pow10(k),
    ensures
        decimal(n).len() <= k,
    decreases k,
{
    if n >= 10 {
        lemma_pow10_step((k - 1) as nat);
        if k == 1 {
            assert(pow10(1) == 10);
        } else {
            lemma_decimal_len(n / 10, (k - 1) as nat);
        }
    }
}

/// The time field of a time from 0 up to the limit has ten digits and
/// spells the time.
pub proof fn lemma_time_field_shape(secs: int)
    requires
        0 <= secs < time_limit(),
    ensures
        time_field(secs).len() == 10,
        all_digits(time_field(secs)),
        digits_value(time_field(secs)) == secs,
{
    let n = secs as nat;
    lemma_pow10_values();
    lemma_decimal_len(n, 10);
    lemma_decimal_digits(n);
    let d = decimal(n);
    if d.len() >= 10 {
        lemma_padded_value(Seq::<u8>::empty(), n);
        assert(Seq::<u8>::empty() + d =~= d);
    } else {
        lemma_zeros_value((10 - d.len()) as nat);
        lemma_padded_value(zeros((10 - d.len()) as nat), n);
    }
}

/// Time fields are in byte order exactly where their times are in order.
pub proof fn lemma_time_field_order(a: int, b: int)
    requires
        0 <= a < time_limit(),
        0 <= b < time_limit(),
    ensures
        time_field(a).len() == 10,
        time_field(b).len() == 10,
        lex_le(time_field(a), time_field(b)) <==> a <= b,
        time_field(a) == time_field(b) <==> a == b,
{
    lemma_time_field_shape(a);
    lemma_time_field_shape(b);
    lemma_digits_order(time_field(a), time_field(b));
}

/// Two texts that start with fields of one length are ordered by those
/// fields where they differ, and by what follows where they are the same.
pub proof fn lemma_field_decides(a: Seq<u8>, x: Seq<u8>, b: Seq<u8>, y: Seq<u8>)
    requires
        a.len() == b.len(),
    ensures
        lex_le(a + x, b + y) == if a == b {
            lex_le(x, y)
        } else {
            lex_le(a, b)
        },
    decreases a.len(),
{
    if a.len() == 0 {
        assert(a =~= b);
        assert(a + x =~= x);
        assert(b + y =~= y);
    } else {
        assert((a + x)[0] == a[0] && (b + y)[0] == b[0]);
        if a[0] == b[0] {
            lemma_field_decides(a.drop_first(), x, b.drop_first(), y);
            assert((a + x).drop_first() =~= a.drop_first() + x);
            assert((b + y).drop_first() =~= b.drop_first() + y);
            if a.drop_first() == b.drop_first() {
                assert forall|i: int| 0 <= i < a.len() implies a[i] == b[i] by {
                    if i > 0 {
                        assert(a[i] == a.drop_first()[i - 1]);
                        assert(b[i] == b.drop_first()[i - 1]);
                    }
                }
                assert(a =~= b);
            }
        }
    }
}

/// Within one family and one dimension, a key of a time from `start` up
/// to, but not at, `end` lies between the start key and the end key of
/// those times.
pub proof fn lemma_key_in_range(
    prefix: Seq<u8>,
    secs: int,
    rest: Seq<u8>,
    start: int,
    end: int,
    bound_tail: Seq<u8>,
)
    requires
        0 <= start <= secs < end < time_limit(),
        bound_tail.len() == 0 || (bound_tail.len() <= rest.len() && rest.subrange(
            0,
            bound_tail.len() as int,
        ) == bound_tail),
    ensures
        lex_le(prefix + time_field(start) + bound_tail, prefix + time_field(secs) + rest),
        lex_le(prefix + time_field(secs) + rest, prefix + time_field(end) + bound_tail),
        prefix + time_field(secs) + rest != prefix + time_field(end) + bound_tail,
{
    let ts = time_field(start);
    let tk = time_field(secs);
    let te = time_field(end);
    lemma_time_field_order(start, secs);
    lemma_time_field_order(secs, end);
    lemma_field_decides(ts, bound_tail, tk, rest);
    lemma_field_decides(tk, rest, te, bound_tail);
    if ts == tk {
        if bound_tail.len() == 0 {
            assert(lex_le(bound_tail, rest));
        } else {
            lemma_prefix_le(bound_tail, rest.skip(bound_tail.len() as int));
            assert(bound_tail + rest.skip(bound_tail.len() as int) =~= rest);
        }
    }
    lemma_lex_le_skip(prefix + ts + bound_tail, prefix + tk + rest, prefix.len() as int);
    assert((prefix + ts + bound_tail).skip(prefix.len() as int) =~= ts + bound_tail);
    assert((prefix + tk + rest).skip(prefix.len() as int) =~= tk + rest);
    lemma_lex_le_skip(prefix + tk + rest, prefix + te + bound_tail, prefix.len() as int);
    assert((prefix + te + bound_tail).skip(prefix.len() as int) =~= te + bound_tail);
    assert((prefix + tk + rest).subrange(prefix.len() as int, prefix.len() + 10 as int) =~= tk);
    assert((prefix + te + bound_tail).subrange(prefix.len() as int, prefix.len() + 10 as int) =~= te);
}

/// Within one family and one dimension, a key that lies from the start
/// key to the end key of a stretch of time, and is not the end key itself,
/// is of a time from `start` up to, but not at, `end`.
pub proof fn lemma_key_time_in_range(
    prefix: Seq<u8>,
    secs: int,
    rest: Seq<u8>,
    start: int,
    end: int,
    bound_tail: Seq<u8>,
)
    requires
        0 <= start < time_limit(),
        0 <= secs < time_limit(),
        0 <= end < time_limit(),
        bound_tail.len() <= rest.len(),
        rest.subrange(0, bound_tail.len() as int) == bound_tail,
        lex_le(prefix + time_field(start) + bound_tail, prefix + time_field(secs) + rest),
        lex_le(prefix + time_field(secs) + rest, prefix + time_field(end) + bound_tail),
        prefix + time_field(secs) + rest != prefix + time_field(end) + bound_tail,
    ensures
        start <= secs < end,
{
    let ts = time_field(start);
    let tk = time_field(secs);
    let te = time_field(end);
    lemma_time_field_order(start, secs);
    lemma_time_field_order(secs, end);
    lemma_field_decides(ts, bound_tail, tk, rest);
    lemma_field_decides(tk, rest, te, bound_tail);
    lemma_lex_le_skip(prefix + ts + bound_tail, prefix + tk + rest, prefix.len() as int);
    assert((prefix + ts + bound_tail).skip(prefix.len() as int) =~= ts + bound_tail);
    assert((prefix + tk + rest).skip(prefix.len() as int) =~= tk + rest);
    lemma_lex_le_skip(prefix + tk + rest, prefix + te + bound_tail, prefix.len() as int);
    assert((prefix + te + bound_tail).skip(prefix.len() as int) =~= te + bound_tail);
    if tk == te {
        let more = rest.skip(bound_tail.len() as int);
        let none = Seq::<u8>::empty();
        assert(rest =~= bound_tail + more);
        assert(bound_tail + none =~= bound_tail);
        lemma_field_decides(bound_tail, more, bound_tail, none);
        assert(more.len() == 0);
        assert(rest =~= bound_tail);
    }
}

} // verus!
