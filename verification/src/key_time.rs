//! Reading the time back out of a key: what the retention rule goes by.
//!
//! A key has a time where it starts with the word of a family and a colon
//! and the field at the family's time place is a decimal number, with or
//! without a minus sign. Every key that the store writes has one, and it
//! is the time the key was written with.

use vstd::prelude::*;
use vstd::slice::slice_subrange;
use crate::stats::FlowKey;
use crate::storage_keys::{
    colon,
    joined,
    flow_key_spec,
    ip_flows_key_spec,
    ip_protocol_key_spec,
    port_flows_key_spec,
    port_stats_key_spec,
    protocol_key_spec,
    word_flow,
    word_ip_flows,
    word_ip_protocol,
    word_port_flows,
    word_port_stats,
    word_protocol,
    Family,
    COLON,
};
use crate::text::{decimal, is_digit, lemma_decimal_digits, time_field, zero_padded, zeros};

verus! {

/// The length of the first field of `s`: the bytes before its first colon,
/// or all of it where it has none.
pub open spec fn field_end(s: Seq<u8>) -> int
    decreases s.len(),
{
    if s.len() == 0 || s[0] == COLON {
        0
    } else {
        1 + field_end(s.drop_first())
    }
}

/// The first field of `s`.
pub open spec fn first_field(s: Seq<u8>) -> Seq<u8> {
    s.take(field_end(s))
}

/// What follows the colon after the first field of `s`, or `None` where no
/// colon follows it.
pub open spec fn after_first_field(s: Seq<u8>) -> Option<Seq<u8>> {
    if field_end(s) < s.len() {
        Some(s.skip(field_end(s) + 1))
    } else {
        None
    }
}

/// The family whose word `word` is.
pub open spec fn family_of(word: Seq<u8>) -> Option<Family> {
    if word == word_flow() {
        Some(Family::Flow)
    } else if word == word_ip_flows() {
        Some(Family::IpFlows)
    } else if word == word_port_flows() {
        Some(Family::PortFlows)
    } else if word == word_protocol() {
        Some(Family::Protocol)
    } else if word == word_ip_protocol() {
        Some(Family::IpProtocol)
    } else if word == word_port_stats() {
        Some(Family::PortStats)
    } else {
        None
    }
}

/// Whether `s` holds digits only.
pub open spec fn all_digits(s: Seq<u8>) -> bool {
    forall|i: int| 0 <= i < s.len() ==> is_digit(#[trigger] s[i])
}

/// The number that the digits `s` spell.
pub open spec fn digits_value(s: Seq<u8>) -> nat
    decreases s.len(),
{
    if s.len() == 0 {
        0
    } else {
        digits_value(s.drop_last()) * 10 + (s.last() - 48) as nat
    }
}

/// The number of seconds that a time field spells: digits, or a minus sign
/// and digits. `None` for any other text.
pub open spec fn parse_time_field(s: Seq<u8>) -> Option<int> {
    if s.len() >= 2 && s[0] == 45 && all_digits(s.skip(1)) {
        Some(-(digits_value(s.skip(1)) as int))
    } else if s.len() >= 1 && all_digits(s) {
        Some(digits_value(s) as int)
    } else {
        None
    }
}

/// The time of a key: the number in the first field after the word for the
/// families that start with the time, in the second for the others. `None`
/// for a key of no family or without a number there.
pub open spec fn key_time(key: Seq<u8>) -> Option<int> {
    match (family_of(first_field(key)), after_first_field(key)) {
        (Some(family), Some(rest)) => if family.time_first() {
            parse_time_field(first_field(rest))
        } else {
            match after_first_field(rest) {
                Some(rest) => parse_time_field(first_field(rest)),
                None => None,
            }
        },
        _ => None,
    }
}

/// Whether a key is of a time at or before `cutoff`.
pub open spec fn is_expired_spec(key: Seq<u8>, cutoff: int) -> bool {
    key_time(key) matches Some(t) && t <= cutoff
}

/// Whether `s` holds no colon.
pub open spec fn colon_free(s: Seq<u8>) -> bool {
    forall|i: int| 0 <= i < s.len() ==> (#[trigger] s[i]) != COLON
}

/// A text without a colon is one field.
pub proof fn lemma_field_whole(a: Seq<u8>)
    requires
        colon_free(a),
    ensures
        field_end(a) == a.len(),
        first_field(a) == a,
        after_first_field(a) is None,
    decreases a.len(),
{
    if a.len() > 0 {
        let t = a.drop_first();
        assert forall|i: int| 0 <= i < t.len() implies (#[trigger] t[i]) != COLON by {
            assert(t[i] == a[i + 1]);
        }
        lemma_field_whole(t);
    }
    assert(a.take(a.len() as int) =~= a);
}

/// A text without a colon, then a colon, then more: the first field is the
/// text, and what follows the colon is the rest.
pub proof fn lemma_field_split(a: Seq<u8>, rest: Seq<u8>)
    requires
        colon_free(a),
    ensures
        field_end(a + colon() + rest) == a.len(),
        first_field(a + colon() + rest) == a,
        after_first_field(a + colon() + rest) == Some(rest),
    decreases a.len(),
{
    let s = a + colon() + rest;
    if a.len() > 0 {
        let t = a.drop_first();
        assert forall|i: int| 0 <= i < t.len() implies (#[trigger] t[i]) != COLON by {
            assert(t[i] == a[i + 1]);
        }
        lemma_field_split(t, rest);
        assert(s[0] == a[0]);
        assert(s.drop_first() =~= t + colon() + rest);
    } else {
        assert(s[0] == COLON);
    }
    assert(s.take(a.len() as int) =~= a);
    assert(s.skip(a.len() as int + 1) =~= rest);
}

/// Where a text has no colon before place `n`, and ends there or has a
/// colon there, its first field ends at `n`.
pub proof fn lemma_field_end_is(s: Seq<u8>, n: int)
    requires
        0 <= n <= s.len(),
        forall|j: int| 0 <= j < n ==> s[j] != COLON,
        n == s.len() || s[n] == COLON,
    ensures
        field_end(s) == n,
    decreases n,
{
    if n > 0 {
        let t = s.drop_first();
        assert forall|j: int| 0 <= j < n - 1 implies t[j] != COLON by {
            assert(t[j] == s[j + 1]);
        }
        lemma_field_end_is(t, n - 1);
    }
}

/// The end of the field of `s` that starts at `from`: the place of the
/// first colon at or after `from`, or the end of `s`.
pub fn find_field_end(s: &[u8], from: usize) -> (end: usize)
    requires
        from <= s@.len(),
    ensures
        from <= end <= s@.len(),
        end == from + field_end(s@.skip(from as int)),
{
    let mut i: usize = from;
    while i < s.len() && s[i] != COLON
        invariant
            from <= i <= s@.len(),
            forall|j: int| from <= j < i ==> s@[j] != COLON,
        decreases s@.len() - i,
    {
        i = i + 1;
    }
    proof {
        lemma_field_end_is(s@.skip(from as int), i - from);
    }
    i
}

/// Whether two texts are the same.
pub fn bytes_eq(a: &[u8], b: &[u8]) -> (r: bool)
    ensures
        r == (a@ == b@),
{
    if a.len() != b.len() {
        return false;
    }
    let mut i: usize = 0;
    while i < a.len()
        invariant
            i <= a@.len(),
            a@.len() == b@.len(),
            forall|j: int| 0 <= j < i ==> a@[j] == b@[j],
        decreases a@.len() - i,
    {
        if a[i] != b[i] {
            return false;
        }
        i = i + 1;
    }
    assert(a@ =~= b@);
    true
}

fn is_word(word: &[u8], family: Family) -> (r: bool)
    ensures
        r == (word@ == family.word()),
{
    let mut expected: Vec<u8> = Vec::new();
    family.push_word(&mut expected);
    assert(expected@ =~= family.word());
    bytes_eq(word, expected.as_slice())
}

/// The family whose word `word` is.
pub fn family_of_word(word: &[u8]) -> (r: Option<Family>)
    ensures
        r == family_of(word@),
{
    if is_word(word, Family::Flow) {
        Some(Family::Flow)
    } else if is_word(word, Family::IpFlows) {
        Some(Family::IpFlows)
    } else if is_word(word, Family::PortFlows) {
        Some(Family::PortFlows)
    } else if is_word(word, Family::Protocol) {
        Some(Family::Protocol)
    } else if is_word(word, Family::IpProtocol) {
        Some(Family::IpProtocol)
    } else if is_word(word, Family::PortStats) {
        Some(Family::PortStats)
    } else {
        None
    }
}

/// Whether `field` spells a number of seconds that is at most `cutoff`.
pub fn time_field_at_most(field: &[u8], cutoff: i64) -> (r: bool)
    ensures
        r == (parse_time_field(field@) matches Some(t) && t <= cutoff),
{
    let negative = field.len() >= 2 && field[0] == 45;
    let from: usize = if negative {
        1
    } else {
        0
    };
    if field.len() == 0 {
        return false;
    }
    let digits = slice_subrange(field, from, field.len());
    assert(digits@ =~= field@.skip(from as int));
    let mut value: Option<u64> = Some(0);
    let mut i: usize = 0;
    assert(digits@.take(0) =~= Seq::<u8>::empty());
    while i < digits.len()
        invariant
            i <= digits@.len(),
            field@.len() >= 1,
            negative == (field@.len() >= 2 && field@[0] == 45),
            from == if negative {
                1int
            } else {
                0int
            },
            digits@ == field@.skip(from as int),
            all_digits(digits@.take(i as int)),
            value matches Some(x) ==> digits_value(digits@.take(i as int)) == x,
            value is None ==> digits_value(digits@.take(i as int)) > u64::MAX,
        decreases digits@.len() - i,
    {
        let b = digits[i];
        if b < 48 || b > 57 {
            proof {
                assert(!is_digit(digits@[i as int]));
                if negative {
                    assert(field@.skip(1)[i as int] == digits@[i as int]);
                } else {
                    assert(field@[i as int] == digits@[i as int]);
                }
            }
            return false;
        }
        proof {
            assert(digits@.take(i + 1).drop_last() =~= digits@.take(i as int));
            assert(digits@.take(i + 1).last() == b);
            assert forall|j: int| 0 <= j < i + 1 implies is_digit(
                #[trigger] digits@.take(i + 1)[j],
            ) by {
                if j < i {
                    assert(digits@.take(i + 1)[j] == digits@.take(i as int)[j]);
                }
            }
        }
        value = match value {
            Some(x) => match x.checked_mul(10) {
                Some(y) => y.checked_add((b - 48) as u64),
                None => None,
            },
            None => None,
        };
        i = i + 1;
    }
    proof {
        assert(digits@.take(i as int) =~= digits@);
        if !negative {
            assert(field@.skip(0) =~= field@);
            if field@.len() >= 2 && field@[0] == 45 {
                assert(false);
            }
            assert(is_digit(field@[0]));
        }
    }
    match value {
        Some(x) => if negative {
            -(x as i128) <= cutoff as i128
        } else {
            (x as i128) <= cutoff as i128
        },
        None => negative,
    }
}

/// Whether `key` is of a time at or before `cutoff_secs`. A key of no
/// family, or without a number at the family's time place, is of no time.
pub fn is_expired(key: &[u8], cutoff_secs: i64) -> (r: bool)
    ensures
        r == is_expired_spec(key@, cutoff_secs as int),
{
    let word_end = find_field_end(key, 0);
    assert(key@.skip(0) =~= key@);
    let word = slice_subrange(key, 0, word_end);
    assert(word@ =~= first_field(key@));
    let family = match family_of_word(word) {
        Some(f) => f,
        None => {
            return false;
        },
    };
    if word_end >= key.len() {
        return false;
    }
    let first = word_end + 1;
    let first_end = find_field_end(key, first);
    let ghost rest = key@.skip(first as int);
    let first_text = slice_subrange(key, first, first_end);
    assert(first_text@ =~= first_field(rest));
    if family.has_time_first() {
        return time_field_at_most(first_text, cutoff_secs);
    }
    if first_end >= key.len() {
        return false;
    }
    let second = first_end + 1;
    let second_end = find_field_end(key, second);
    let ghost rest2 = key@.skip(second as int);
    assert(rest.skip(field_end(rest) + 1) =~= rest2);
    let second_text = slice_subrange(key, second, second_end);
    assert(second_text@ =~= first_field(rest2));
    time_field_at_most(second_text, cutoff_secs)
}

/// Zeros spell zero.
pub proof fn lemma_zeros_value(count: nat)
    ensures
        digits_value(zeros(count)) == 0,
        all_digits(zeros(count)),
    decreases count,
{
    if count > 0 {
        lemma_zeros_value((count - 1) as nat);
        assert(zeros(count).drop_last() =~= zeros((count - 1) as nat));
    }
}

/// Digits that spell zero, put in front of a number, change nothing: the
/// text spells the number.
pub proof fn lemma_padded_value(front: Seq<u8>, n: nat)
    requires
        digits_value(front) == 0,
        all_digits(front),
    ensures
        digits_value(front + decimal(n)) == n,
        all_digits(front + decimal(n)),
    decreases n,
{
    let d = decimal(n);
    let s = front + d;
    lemma_decimal_digits(n);
    if n < 10 {
        assert(s.drop_last() =~= front);
        assert(s.last() == 48 + n);
    } else {
        let head = decimal(n / 10);
        lemma_padded_value(front, n / 10);
        assert(s.drop_last() =~= front + head);
        assert(s.last() == 48 + n % 10);
        assert((n / 10) * 10 + n % 10 == n);
    }
    assert forall|i: int| 0 <= i < s.len() implies is_digit(#[trigger] s[i]) by {
        if i >= front.len() {
            assert(s[i] == d[i - front.len()]);
        }
    }
}

/// A time field spells the number of seconds it was made from.
pub proof fn lemma_time_field_parses(secs: int)
    ensures
        parse_time_field(time_field(secs)) == Some(secs),
        colon_free(time_field(secs)),
{
    let field = time_field(secs);
    let empty = Seq::<u8>::empty();
    if secs >= 0 {
        let n = secs as nat;
        let d = decimal(n);
        lemma_decimal_digits(n);
        if d.len() >= 10 {
            lemma_padded_value(empty, n);
            assert(empty + d =~= d);
        } else {
            lemma_zeros_value((10 - d.len()) as nat);
            lemma_padded_value(zeros((10 - d.len()) as nat), n);
        }
        assert(all_digits(field));
        assert(is_digit(field[0]));
    } else {
        let n = (-secs) as nat;
        let d = decimal(n);
        lemma_decimal_digits(n);
        if d.len() >= 9 {
            lemma_padded_value(empty, n);
            assert(empty + d =~= d);
        } else {
            lemma_zeros_value((9 - d.len()) as nat);
            lemma_padded_value(zeros((9 - d.len()) as nat), n);
        }
        assert(field.skip(1) =~= zero_padded(n, 9));
    }
    assert forall|i: int| 0 <= i < field.len() implies (#[trigger] field[i]) != COLON by {
        if secs >= 0 {
            assert(is_digit(field[i]));
        } else if i > 0 {
            assert(field[i] == field.skip(1)[i - 1]);
            assert(is_digit(field.skip(1)[i - 1]));
        }
    }
}

/// Decimal text holds no colon.
pub proof fn lemma_decimal_colon_free(n: nat)
    ensures
        colon_free(decimal(n)),
{
    lemma_decimal_digits(n);
    assert forall|i: int| 0 <= i < decimal(n).len() implies (#[trigger] decimal(n)[i])
        != COLON by {
        assert(is_digit(decimal(n)[i]));
    }
}

/// A field without a colon, then more: the field is the first field and
/// the rest is what follows it.
pub proof fn lemma_joined(field: Seq<u8>, rest: Seq<u8>)
    requires
        colon_free(field),
    ensures
        first_field(joined(field, rest)) == field,
        after_first_field(joined(field, rest)) == Some(rest),
{
    lemma_field_split(field, rest);
}

/// The words of the families hold no colon, and each is the word of its
/// family alone.
pub proof fn lemma_words(family: Family)
    ensures
        colon_free(family.word()),
        family_of(family.word()) == Some(family),
{
    assert(word_flow().len() == 4);
    assert(word_ip_flows().len() == 8);
    assert(word_port_flows().len() == 10);
    assert(word_protocol().len() == 8);
    assert(word_ip_protocol().len() == 11);
    assert(word_port_stats().len() == 10);
    assert(word_ip_flows()[0] != word_protocol()[0]);
    assert(word_port_flows()[5] != word_port_stats()[5]);
}

/// The key of a flow in the family ordered by time has the time it was
/// written with.
pub proof fn lemma_flow_key_time(secs: int, k: FlowKey)
    ensures
        key_time(flow_key_spec(secs, k)) == Some(secs),
{
    let rest2 = joined(
        decimal(k.ip as nat),
        joined(decimal(k.port as nat), joined(decimal(k.protocol as nat), decimal(k.direction as nat))),
    );
    let rest1 = joined(time_field(secs), rest2);
    lemma_words(Family::Flow);
    lemma_time_field_parses(secs);
    lemma_joined(word_flow(), rest1);
    lemma_joined(time_field(secs), rest2);
}

/// The key of a flow in the family ordered by address has the time it was
/// written with.
pub proof fn lemma_ip_flows_key_time(secs: int, k: FlowKey)
    ensures
        key_time(ip_flows_key_spec(secs, k)) == Some(secs),
{
    let rest3 = joined(
        decimal(k.port as nat),
        joined(decimal(k.protocol as nat), decimal(k.direction as nat)),
    );
    let rest2 = joined(time_field(secs), rest3);
    let rest1 = joined(decimal(k.ip as nat), rest2);
    lemma_words(Family::IpFlows);
    lemma_time_field_parses(secs);
    lemma_decimal_colon_free(k.ip as nat);
    lemma_joined(word_ip_flows(), rest1);
    lemma_joined(decimal(k.ip as nat), rest2);
    lemma_joined(time_field(secs), rest3);
}

/// The key of a flow in the family ordered by port has the time it was
/// written with.
pub proof fn lemma_port_flows_key_time(secs: int, k: FlowKey)
    ensures
        key_time(port_flows_key_spec(secs, k)) == Some(secs),
{
    let rest3 = joined(
        decimal(k.ip as nat),
        joined(decimal(k.protocol as nat), decimal(k.direction as nat)),
    );
    let rest2 = joined(time_field(secs), rest3);
    let rest1 = joined(decimal(k.port as nat), rest2);
    lemma_words(Family::PortFlows);
    lemma_time_field_parses(secs);
    lemma_decimal_colon_free(k.port as nat);
    lemma_joined(word_port_flows(), rest1);
    lemma_joined(decimal(k.port as nat), rest2);
    lemma_joined(time_field(secs), rest3);
}

/// The keys of a protocol record have the time they were written with.
pub proof fn lemma_protocol_key_times(secs: int, ip: u32)
    ensures
        key_time(protocol_key_spec(secs, ip)) == Some(secs),
        key_time(ip_protocol_key_spec(secs, ip)) == Some(secs),
{
    let t = time_field(secs);
    let ip_text = decimal(ip as nat);
    lemma_words(Family::Protocol);
    lemma_words(Family::IpProtocol);
    lemma_time_field_parses(secs);
    lemma_decimal_colon_free(ip as nat);
    lemma_joined(word_protocol(), joined(t, ip_text));
    lemma_joined(t, ip_text);
    lemma_joined(word_ip_protocol(), joined(ip_text, t));
    lemma_joined(ip_text, t);
    lemma_field_whole(t);
}

/// The key of a port record has the time it was written with.
pub proof fn lemma_port_stats_key_time(secs: int, port: u16)
    ensures
        key_time(port_stats_key_spec(secs, port)) == Some(secs),
{
    let t = time_field(secs);
    let port_text = decimal(port as nat);
    lemma_words(Family::PortStats);
    lemma_time_field_parses(secs);
    lemma_joined(word_port_stats(), joined(t, port_text));
    lemma_joined(t, port_text);
}

/// The retention rule takes the keys that the store writes by the time
/// they were written with: a key of any family is expired exactly where its
/// time is at or before the cutoff.
pub proof fn lemma_written_keys_expire(secs: int, k: FlowKey, ip: u32, port: u16, cutoff: int)
    ensures
        is_expired_spec(flow_key_spec(secs, k), cutoff) == (secs <= cutoff),
        is_expired_spec(ip_flows_key_spec(secs, k), cutoff) == (secs <= cutoff),
        is_expired_spec(port_flows_key_spec(secs, k), cutoff) == (secs <= cutoff),
        is_expired_spec(protocol_key_spec(secs, ip), cutoff) == (secs <= cutoff),
        is_expired_spec(ip_protocol_key_spec(secs, ip), cutoff) == (secs <= cutoff),
        is_expired_spec(port_stats_key_spec(secs, port), cutoff) == (secs <= cutoff),
{
    lemma_flow_key_time(secs, k);
    lemma_ip_flows_key_time(secs, k);
    lemma_port_flows_key_time(secs, k);
    lemma_protocol_key_times(secs, ip);
    lemma_port_stats_key_time(secs, port);
}

} // verus!
