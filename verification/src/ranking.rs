//! Top-N rankings: the places of the largest values, largest first. Of two
//! equal values the one that stands earlier ranks first.

use vstd::prelude::*;

verus! {

/// Whether place `a` ranks before place `b`: it holds the larger value, or
/// the same value at an earlier place.
pub open spec fn ranks_before(values: Seq<u64>, a: int, b: int) -> bool {
    values[a] > values[b] || (values[a] == values[b] && a < b)
}

/// Whether `picks` are the places of the `n` values that rank first, in
/// rank order: all of them where there are fewer than `n`. Each pick ranks
/// before the picks after it and before every place that was not picked.
pub open spec fn is_top_ranking(values: Seq<u64>, n: nat, picks: Seq<usize>) -> bool {
    &&& picks.len() == if n <= values.len() {
        n
    } else {
        values.len()
    }
    &&& forall|i: int| 0 <= i < picks.len() ==> (#[trigger] picks[i]) < values.len()
    &&& forall|i: int, j: int|
        0 <= i < j < picks.len() ==> ranks_before(values, picks[i] as int, picks[j] as int)
    &&& forall|i: int, k: int|
        0 <= i < picks.len() && 0 <= k < values.len() && !picks.contains(k as usize)
            ==> #[trigger] ranks_before(values, picks[i] as int, k)
}

/// The places of the `n` values that rank first, in rank order.
pub open spec fn top_picks(values: Seq<u64>, n: nat) -> Seq<usize> {
    choose|picks: Seq<usize>| is_top_ranking(values, n, picks)
}

/// Two rankings of the same values to the same depth are the same.
pub proof fn lemma_top_ranking_unique(values: Seq<u64>, n: nat, p: Seq<usize>, q: Seq<usize>)
    requires
        is_top_ranking(values, n, p),
        is_top_ranking(values, n, q),
    ensures
        p == q,
{
    assert forall|i: int| 0 <= i < p.len() implies p[i] == q[i] by {
        lemma_same_pick(values, n, p, q, i);
    }
    assert(p =~= q);
}

proof fn lemma_same_pick(values: Seq<u64>, n: nat, p: Seq<usize>, q: Seq<usize>, i: int)
    requires
        is_top_ranking(values, n, p),
        is_top_ranking(values, n, q),
        0 <= i < p.len(),
    ensures
        p[i] == q[i],
    decreases i,
{
    if i > 0 {
        assert forall|j: int| 0 <= j < i implies p[j] == q[j] by {
            lemma_same_pick(values, n, p, q, j);
        }
    }
    // The earlier picks agree, so neither pick at `i` is among the other's
    // earlier picks: each either ranks before the other or is the other.

    let a = p[i];
    let b = q[i];
    if a != b {
        // Where is `b` in `p`? Not before `i`, so at `i` or later, or nowhere.
        if p.contains(b) {
            let jb = choose|j: int| 0 <= j < p.len() && p[j] == b;
            if jb < i {
                assert(q[jb] == b);
                assert(ranks_before(values, q[jb] as int, q[i] as int));
            }
            assert(jb > i);
            assert(ranks_before(values, p[i] as int, p[jb] as int));
        } else {
            assert(ranks_before(values, p[i] as int, b as int));
        }
        assert(ranks_before(values, a as int, b as int));
        if q.contains(a) {
            let ja = choose|j: int| 0 <= j < q.len() && q[j] == a;
            if ja < i {
                assert(p[ja] == a);
                assert(ranks_before(values, p[ja] as int, p[i] as int));
            }
            assert(ja > i);
            assert(ranks_before(values, q[i] as int, q[ja] as int));
        } else {
            assert(ranks_before(values, q[i] as int, a as int));
        }
        assert(ranks_before(values, b as int, a as int));
    }
}

/// The places of the `n` largest of `values`, largest first.
pub fn top_ranking(values: &Vec<u64>, n: usize) -> (picks: Vec<usize>)
    ensures
        is_top_ranking(values@, n as nat, picks@),
        picks@ == top_picks(values@, n as nat),
{
    let len = values.len();
    let count = if n <= len {
        n
    } else {
        len
    };
    let mut rest: Vec<usize> = Vec::new();
    let mut k: usize = 0;
    while k < len
        invariant
            k <= len,
            rest@.len() == k,
            forall|a: int| 0 <= a < k ==> rest@[a] == a,
        decreases len - k,
    {
        rest.push(k);
        k = k + 1;
    }
    let mut picks: Vec<usize> = Vec::new();
    proof {
        assert forall|k: int| 0 <= k < len implies #[trigger] rest@.contains(k as usize) by {
            assert(rest@[k] == k as usize);
        }
    }
    while picks.len() < count
        invariant
            len == values@.len(),
            count <= len,
            picks@.len() <= count,
            rest@.len() + picks@.len() == len,
            forall|a: int, b: int| 0 <= a < b < rest@.len() ==> rest@[a] < rest@[b],
            forall|a: int| 0 <= a < rest@.len() ==> (#[trigger] rest@[a]) < len,
            forall|k: int|
                0 <= k < len ==> rest@.contains(k as usize) || #[trigger] picks@.contains(
                    k as usize,
                ),
            forall|i: int| 0 <= i < picks@.len() ==> (#[trigger] picks@[i]) < len,
            forall|i: int, j: int|
                0 <= i < j < picks@.len() ==> ranks_before(
                    values@,
                    picks@[i] as int,
                    picks@[j] as int,
                ),
            forall|i: int, a: int|
                0 <= i < picks@.len() && 0 <= a < rest@.len() ==> ranks_before(
                    values@,
                    #[trigger] picks@[i] as int,
                    #[trigger] rest@[a] as int,
                ),
        decreases count - picks@.len(),
    {
        let mut m: usize = 0;
        let mut a: usize = 1;
        while a < rest.len()
            invariant
                len == values@.len(),
                rest@.len() >= 1,
                1 <= a <= rest@.len(),
                m < a,
                forall|x: int| 0 <= x < rest@.len() ==> (#[trigger] rest@[x]) < len,
                forall|x: int| 0 <= x < m ==> values@[rest@[x] as int] < values@[rest@[m as int] as int],
                forall|x: int|
                    m <= x < a ==> values@[rest@[x] as int] <= values@[rest@[m as int] as int],
            decreases rest@.len() - a,
        {
            if values[rest[a]] > values[rest[m]] {
                m = a;
            }
            a = a + 1;
        }
        let ghost old_rest = rest@;
        let ghost old_picks = picks@;
        let best = rest.remove(m);
        picks.push(best);
        proof {
            assert forall|x: int| 0 <= x < rest@.len() implies ranks_before(
                values@,
                best as int,
                #[trigger] rest@[x] as int,
            ) by {
                if x < m {
                    assert(rest@[x] == old_rest[x]);
                } else {
                    assert(rest@[x] == old_rest[x + 1]);
                    assert(old_rest[m as int] < old_rest[x + 1]);
                }
            }
            assert forall|x: int, y: int| 0 <= x < y < rest@.len() implies rest@[x] < rest@[y] by {
                let ox = if x < m {
                    x
                } else {
                    x + 1
                };
                let oy = if y < m {
                    y
                } else {
                    y + 1
                };
                assert(rest@[x] == old_rest[ox]);
                assert(rest@[y] == old_rest[oy]);
            }
            assert forall|x: int| 0 <= x < rest@.len() implies (#[trigger] rest@[x]) < len by {
                let ox = if x < m {
                    x
                } else {
                    x + 1
                };
                assert(rest@[x] == old_rest[ox]);
            }
            assert forall|k: int| 0 <= k < len implies rest@.contains(k as usize)
                || #[trigger] picks@.contains(k as usize) by {
                if old_picks.contains(k as usize) {
                    let j = choose|j: int| 0 <= j < old_picks.len() && old_picks[j] == k as usize;
                    assert(picks@[j] == k as usize);
                } else {
                    assert(old_rest.contains(k as usize));
                    let j = choose|j: int| 0 <= j < old_rest.len() && old_rest[j] == k as usize;
                    if j == m {
                        assert(picks@[old_picks.len() as int] == k as usize);
                    } else if j < m {
                        assert(rest@[j] == k as usize);
                    } else {
                        assert(rest@[j - 1] == k as usize);
                    }
                }
            }
            assert forall|i: int, j: int| 0 <= i < j < picks@.len() implies ranks_before(
                values@,
                picks@[i] as int,
                picks@[j] as int,
            ) by {
                if j == old_picks.len() {
                    assert(picks@[i] == old_picks[i]);
                    assert(ranks_before(values@, old_picks[i] as int, old_rest[m as int] as int));
                } else {
                    assert(picks@[i] == old_picks[i]);
                    assert(picks@[j] == old_picks[j]);
                }
            }
            assert forall|i: int, x: int|
                0 <= i < picks@.len() && 0 <= x < rest@.len() implies ranks_before(
                values@,
                #[trigger] picks@[i] as int,
                #[trigger] rest@[x] as int,
            ) by {
                let ox = if x < m {
                    x
                } else {
                    x + 1
                };
                assert(rest@[x] == old_rest[ox]);
                if i < old_picks.len() {
                    assert(picks@[i] == old_picks[i]);
                    assert(ranks_before(values@, old_picks[i] as int, old_rest[ox] as int));
                }
            }
        }
    }
    proof {
        assert forall|i: int, k: int|
            0 <= i < picks@.len() && 0 <= k < values@.len() && !picks@.contains(
                k as usize,
            ) implies #[trigger] ranks_before(values@, picks@[i] as int, k) by {
            assert(rest@.contains(k as usize));
            let j = choose|j: int| 0 <= j < rest@.len() && rest@[j] == k as usize;
            assert(ranks_before(values@, picks@[i] as int, rest@[j] as int));
        }
        assert(is_top_ranking(values@, n as nat, picks@));
        lemma_top_ranking_unique(values@, n as nat, picks@, top_picks(values@, n as nat));
    }
    picks
}

} // verus!
