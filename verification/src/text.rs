//! Numbers as decimal text, and the byte order in which keys are compared.

use vstd::prelude::*;
use vstd::string::StringExecFns;

verus! {

/// The character of the decimal digit `d`.
pub open spec fn digit(d: nat) -> u8 {
    (48 + d) as u8
}

/// `n` in decimal, without a sign and without zeros in front.
pub open spec fn decimal(n: nat) -> Seq<u8>
    decreases n,
{
    if n < 10 {
        seq![digit(n)]
    } else {
        decimal(n / 10).push(digit(n % 10))
    }
}

/// `count` zeros.
pub open spec fn zeros(count: nat) -> Seq<u8> {
    Seq::new(count, |i: int| 48u8)
}

/// `n` in decimal with zeros in front of it where it has fewer than `width`
/// digits.
pub open spec fn zero_padded(n: nat, width: nat) -> Seq<u8> {
    let digits = decimal(n);
    if digits.len() >= width {
        digits
    } else {
        zeros((width - digits.len()) as nat) + digits
    }
}

/// A number of seconds as the time field of a key: ten characters or more,
/// zeros in front, and for a negative number a minus sign that counts as
/// the first of the ten.
pub open spec fn time_field(secs: int) -> Seq<u8> {
    if secs >= 0 {
        zero_padded(secs as nat, 10)
    } else {
        seq![45u8] + zero_padded((-secs) as nat, 9)
    }
}

/// Whether `c` is one of the characters `0` to `9`.
pub open spec fn is_digit(c: u8) -> bool {
    48 <= c <= 57
}

/// Decimal text is never empty and holds digits only.
pub proof fn lemma_decimal_digits(n: nat)
    ensures
        decimal(n).len() >= 1,
        forall|i: int| 0 <= i < decimal(n).len() ==> is_digit(#[trigger] decimal(n)[i]),
    decreases n,
{
    if n >= 10 {
        lemma_decimal_digits(n / 10);
    }
}

/// `n` in decimal as text, without a sign and without zeros in front.
pub open spec fn decimal_text(n: nat) -> Seq<char>
    decreases n,
{
    if n < 10 {
        seq![digit(n) as char]
    } else {
        decimal_text(n / 10).push(digit(n % 10) as char)
    }
}

fn digit_str(d: u64) -> (s: &'static str)
    requires
        d < 10,
    ensures
        s@ == seq![digit(d as nat) as char],
{
    proof {
        reveal_strlit("0");
        reveal_strlit("1");
        reveal_strlit("2");
        reveal_strlit("3");
        reveal_strlit("4");
        reveal_strlit("5");
        reveal_strlit("6");
        reveal_strlit("7");
        reveal_strlit("8");
        reveal_strlit("9");
    }
    let s = if d == 0 {
        "0"
    } else if d == 1 {
        "1"
    } else if d == 2 {
        "2"
    } else if d == 3 {
        "3"
    } else if d == 4 {
        "4"
    } else if d == 5 {
        "5"
    } else if d == 6 {
        "6"
    } else if d == 7 {
        "7"
    } else if d == 8 {
        "8"
    } else {
        "9"
    };
    assert(s@ =~= seq![digit(d as nat) as char]);
    s
}

/// Appends `n` in decimal to a text.
pub fn push_decimal_text(out: &mut String, n: u64)
    ensures
        final(out)@ == old(out)@ + decimal_text(n as nat),
    decreases n,
{
    if n >= 10 {
        push_decimal_text(out, n / 10);
    }
    out.append(digit_str(n % 10));
    assert(final(out)@ =~= old(out)@ + decimal_text(n as nat));
}

/// Byte order: `a` comes before `b` or equals it. The first byte that
/// differs decides, and a text comes before every longer text that starts
/// with it.
pub open spec fn lex_le(a: Seq<u8>, b: Seq<u8>) -> bool
    decreases a.len(),
{
    if a.len() == 0 {
        true
    } else if b.len() == 0 {
        false
    } else if a[0] != b[0] {
        a[0] < b[0]
    } else {
        lex_le(a.drop_first(), b.drop_first())
    }
}

/// Whether `s` starts with `prefix`.
pub open spec fn has_prefix(s: Seq<u8>, prefix: Seq<u8>) -> bool {
    prefix.len() <= s.len() && s.subrange(0, prefix.len() as int) == prefix
}

/// Two texts that agree on their first `n` bytes are ordered as what
/// follows those bytes is.
pub proof fn lemma_lex_le_skip(a: Seq<u8>, b: Seq<u8>, n: int)
    requires
        0 <= n <= a.len(),
        n <= b.len(),
        forall|j: int| 0 <= j < n ==> a[j] == b[j],
    ensures
        lex_le(a, b) == lex_le(a.skip(n), b.skip(n)),
    decreases n,
{
    if n == 0 {
        assert(a.skip(0) =~= a);
        assert(b.skip(0) =~= b);
    } else {
        let a1 = a.drop_first();
        let b1 = b.drop_first();
        assert forall|j: int| 0 <= j < n - 1 implies a1[j] == b1[j] by {
            assert(a1[j] == a[j + 1]);
            assert(b1[j] == b[j + 1]);
        }
        lemma_lex_le_skip(a1, b1, n - 1);
        assert(a1.skip(n - 1) =~= a.skip(n));
        assert(b1.skip(n - 1) =~= b.skip(n));
    }
}

/// Every text is at or before itself.
pub proof fn lemma_lex_le_refl(a: Seq<u8>)
    ensures
        lex_le(a, a),
    decreases a.len(),
{
    if a.len() > 0 {
        lemma_lex_le_refl(a.drop_first());
    }
}

/// Byte order is transitive.
pub proof fn lemma_lex_le_trans(a: Seq<u8>, b: Seq<u8>, c: Seq<u8>)
    requires
        lex_le(a, b),
        lex_le(b, c),
    ensures
        lex_le(a, c),
    decreases a.len(),
{
    if a.len() > 0 && a[0] == b[0] && b[0] == c[0] {
        lemma_lex_le_trans(a.drop_first(), b.drop_first(), c.drop_first());
    }
}

/// Of two texts one is at or before the other.
pub proof fn lemma_lex_le_total(a: Seq<u8>, b: Seq<u8>)
    ensures
        lex_le(a, b) || lex_le(b, a),
    decreases a.len(),
{
    if a.len() > 0 && b.len() > 0 && a[0] == b[0] {
        lemma_lex_le_total(a.drop_first(), b.drop_first());
    }
}

/// Two texts that are each at or before the other are the same.
pub proof fn lemma_lex_le_antisym(a: Seq<u8>, b: Seq<u8>)
    requires
        lex_le(a, b),
        lex_le(b, a),
    ensures
        a == b,
    decreases a.len(),
{
    if a.len() > 0 {
        lemma_lex_le_antisym(a.drop_first(), b.drop_first());
        assert(a =~= seq![a[0]] + a.drop_first());
        assert(b =~= seq![b[0]] + b.drop_first());
    } else {
        assert(a =~= b);
    }
}

/// Byte order, strictly: `a` comes before `b`.
pub open spec fn lex_lt(a: Seq<u8>, b: Seq<u8>) -> bool {
    lex_le(a, b) && a != b
}

/// A text that is not at or before another comes strictly after it.
pub proof fn lemma_lex_not_le(a: Seq<u8>, b: Seq<u8>)
    ensures
        !lex_le(a, b) ==> lex_lt(b, a),
        lex_lt(a, b) ==> !lex_le(b, a),
{
    lemma_lex_le_total(a, b);
    lemma_lex_le_refl(a);
    if lex_le(a, b) && lex_le(b, a) {
        lemma_lex_le_antisym(a, b);
    }
}

/// A text is at or before every text that starts with it.
pub proof fn lemma_prefix_le(prefix: Seq<u8>, rest: Seq<u8>)
    ensures
        lex_le(prefix, prefix + rest),
    decreases prefix.len(),
{
    if prefix.len() > 0 {
        lemma_prefix_le(prefix.drop_first(), rest);
        assert((prefix + rest).drop_first() =~= prefix.drop_first() + rest);
    }
}

/// A text between two texts that start with the same prefix starts with
/// that prefix too.
pub proof fn lemma_between_keeps_prefix(prefix: Seq<u8>, low: Seq<u8>, mid: Seq<u8>, high: Seq<u8>)
    requires
        has_prefix(low, prefix),
        has_prefix(high, prefix),
        lex_le(low, mid),
        lex_le(mid, high),
    ensures
        has_prefix(mid, prefix),
    decreases prefix.len(),
{
    if prefix.len() > 0 {
        assert(low[0] == low.subrange(0, prefix.len() as int)[0]);
        assert(high[0] == high.subrange(0, prefix.len() as int)[0]);
        let p = prefix.drop_first();
        let l = low.drop_first();
        let m = mid.drop_first();
        let h = high.drop_first();
        assert(l.subrange(0, p.len() as int) =~= low.subrange(0, prefix.len() as int).drop_first());
        assert(h.subrange(0, p.len() as int) =~= high.subrange(0, prefix.len() as int).drop_first());
        assert(low[0] == prefix[0] && high[0] == prefix[0]);
        assert(mid.len() > 0);
        assert(mid[0] == prefix[0]);
        assert(lex_le(l, m) && lex_le(m, h));
        lemma_between_keeps_prefix(p, l, m, h);
        assert forall|i: int| 0 <= i < prefix.len() implies mid.subrange(
            0,
            prefix.len() as int,
        )[i] == prefix[i] by {
            if i > 0 {
                assert(mid[i] == m.subrange(0, p.len() as int)[i - 1]);
                assert(p[i - 1] == prefix[i]);
            }
        }
        assert(mid.subrange(0, prefix.len() as int) =~= prefix);
    } else {
        assert(mid.subrange(0, 0) =~= prefix);
    }
}

/// Appends `n` in decimal.
pub fn push_decimal(out: &mut Vec<u8>, n: u64)
    ensures
        final(out)@ == old(out)@ + decimal(n as nat),
    decreases n,
{
    if n >= 10 {
        push_decimal(out, n / 10);
    }
    out.push(48 + (n % 10) as u8);
    proof {
        if n >= 10 {
            assert(final(out)@ =~= old(out)@ + decimal(n as nat));
        } else {
            assert(final(out)@ =~= old(out)@ + decimal(n as nat));
        }
    }
}

/// The number of digits of `n` in decimal.
pub fn decimal_len(n: u64) -> (len: usize)
    ensures
        len == decimal(n as nat).len(),
        1 <= len <= 20,
{
    let mut len: usize = 1;
    let mut rest = n;
    proof {
        assert(pow10(0) == 1);
        assert(n as nat * 1 == n);
    }
    while rest >= 10
        invariant
            1 <= len <= 20,
            decimal(n as nat).len() == decimal(rest as nat).len() + len - 1,
            rest as nat * pow10((len - 1) as nat) <= n,
        decreases rest,
    {
        proof {
            lemma_pow10_step((len - 1) as nat);
            assert(rest as nat * pow10((len - 1) as nat) >= 10 * pow10((len - 1) as nat))
                by (nonlinear_arith)
                requires
                    rest >= 10,
            ;
            assert((rest / 10) as nat * pow10(len as nat) <= rest as nat * pow10((len - 1) as nat))
                by (nonlinear_arith)
                requires
                    pow10(len as nat) == 10 * pow10((len - 1) as nat),
                    (rest / 10) * 10 <= rest,
            ;
            if len == 20 {
                lemma_pow10_values();
            }
        }
        rest = rest / 10;
        len = len + 1;
    }
    len
}

/// Ten to the power `e`.
pub open spec fn pow10(e: nat) -> nat
    decreases e,
{
    if e == 0 {
        1
    } else {
        10 * pow10((e - 1) as nat)
    }
}

/// One more factor of ten.
pub proof fn lemma_pow10_step(e: nat)
    ensures
        pow10(e + 1) == 10 * pow10(e),
        pow10(e) >= 1,
    decreases e,
{
    if e > 0 {
        lemma_pow10_step((e - 1) as nat);
    }
}

/// The powers of ten that bound the time field and the 64-bit numbers.
pub proof fn lemma_pow10_values()
    ensures
        pow10(9) == 1_000_000_000,
        pow10(10) == 10_000_000_000,
        pow10(19) == 10_000_000_000_000_000_000,
        pow10(20) == 100_000_000_000_000_000_000,
{
    reveal_with_fuel(pow10, 21);
}

/// Appends `n` in decimal with zeros in front up to `width` characters.
pub fn push_zero_padded(out: &mut Vec<u8>, n: u64, width: usize)
    ensures
        final(out)@ == old(out)@ + zero_padded(n as nat, width as nat),
{
    let len = decimal_len(n);
    let ghost start = out@;
    if len < width {
        let pad = width - len;
        let mut i: usize = 0;
        while i < pad
            invariant
                i <= pad,
                out@ == start + zeros(i as nat),
            decreases pad - i,
        {
            out.push(48);
            i = i + 1;
            assert(out@ =~= start + zeros(i as nat));
        }
    } else {
        assert(out@ =~= start + zeros(0));
    }
    let ghost padded = out@;
    push_decimal(out, n);
    assert(out@ =~= start + zero_padded(n as nat, width as nat));
}

/// Appends `secs` as the time field of a key.
pub fn push_time_field(out: &mut Vec<u8>, secs: i64)
    ensures
        final(out)@ == old(out)@ + time_field(secs as int),
{
    let ghost start = out@;
    if secs >= 0 {
        push_zero_padded(out, secs as u64, 10);
    } else {
        out.push(45);
        let magnitude: u64 = if secs == i64::MIN {
            0x8000_0000_0000_0000
        } else {
            (-secs) as u64
        };
        push_zero_padded(out, magnitude, 9);
        assert(out@ =~= start + time_field(secs as int));
    }
}

/// Whether `s` starts with `prefix`.
pub fn starts_with(s: &[u8], prefix: &[u8]) -> (r: bool)
    ensures
        r == has_prefix(s@, prefix@),
{
    if prefix.len() > s.len() {
        return false;
    }
    let mut i: usize = 0;
    while i < prefix.len()
        invariant
            i <= prefix@.len() <= s@.len(),
            forall|j: int| 0 <= j < i ==> s@[j] == prefix@[j],
        decreases prefix@.len() - i,
    {
        if s[i] != prefix[i] {
            assert(s@.subrange(0, prefix@.len() as int)[i as int] != prefix@[i as int]);
            return false;
        }
        i = i + 1;
    }
    assert(s@.subrange(0, prefix@.len() as int) =~= prefix@);
    true
}

/// Whether `a` comes before `b` in byte order or equals it.
pub fn bytes_le(a: &[u8], b: &[u8]) -> (r: bool)
    ensures
        r == lex_le(a@, b@),
{
    let mut i: usize = 0;
    while i < a.len() && i < b.len()
        invariant
            i <= a@.len(),
            i <= b@.len(),
            forall|j: int| 0 <= j < i ==> a@[j] == b@[j],
        decreases a@.len() - i,
    {
        if a[i] != b[i] {
            proof {
                lemma_lex_le_skip(a@, b@, i as int);
            }
            return a[i] < b[i];
        }
        i = i + 1;
    }
    proof {
        lemma_lex_le_skip(a@, b@, i as int);
    }
    i == a.len()
}

} // verus!
