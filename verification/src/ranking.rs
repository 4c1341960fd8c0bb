//! Choosing the best-scored indices, ties broken by insertion order.
//!
//! Retrieval scores every stored chunk, then repeatedly takes the
//! highest-scored index not yet taken, preferring the earliest position on
//! a tie. The selection is deterministic, so it is written as a spec
//! function and the executable scan is proved equal to it.

use vstd::prelude::*;
use crate::similarity::Score;
use crate::similarity::score_lt;
use crate::similarity::score_eqv;
use crate::similarity::score_wf;
use crate::similarity::lemma_score_le_lt_trans;
use crate::similarity::lemma_score_trichotomy;

verus! {

/// Index `i` outranks index `j`: a strictly greater score, or an equal
/// score at an earlier position.
pub open spec fn outranks(s: Seq<Score>, i: int, j: int) -> bool {
    score_lt(s[j], s[i]) || (score_eqv(s[i], s[j]) && i < j)
}

/// The best unused index among the first `upto` positions, ties to the
/// earliest; `-1` if every one of them is used.
pub open spec fn best_scan(s: Seq<Score>, used: Seq<bool>, upto: int) -> int
    decreases upto,
{
    if upto <= 0 {
        -1
    } else {
        let prev = best_scan(s, used, upto - 1);
        if used[upto - 1] {
            prev
        } else if prev == -1 {
            upto - 1
        } else if score_lt(s[prev], s[upto - 1]) {
            upto - 1
        } else {
            prev
        }
    }
}

/// The ranked sequence of the `k` best unused indices.
pub open spec fn top_ranked(s: Seq<Score>, used: Seq<bool>, k: nat) -> Seq<int>
    decreases k,
{
    if k == 0 {
        Seq::empty()
    } else {
        let b = best_scan(s, used, s.len() as int);
        if b == -1 {
            Seq::empty()
        } else {
            seq![b] + top_ranked(s, used.update(b, true), (k - 1) as nat)
        }
    }
}

/// How many positions are still unused.
pub open spec fn free_count(used: Seq<bool>) -> nat
    decreases used.len(),
{
    if used.len() == 0 {
        0
    } else {
        free_count(used.drop_last()) + if used.last() {
            0nat
        } else {
            1nat
        }
    }
}

/// No position is used.
pub open spec fn all_free(n: nat) -> Seq<bool> {
    Seq::new(n, |i: int| false)
}

pub proof fn lemma_free_count_all_free(n: nat)
    ensures
        free_count(all_free(n)) == n,
    decreases n,
{
    if n > 0 {
        lemma_free_count_all_free((n - 1) as nat);
        assert(all_free(n).drop_last() =~= all_free((n - 1) as nat));
    }
}

proof fn lemma_free_count_update(used: Seq<bool>, b: int)
    requires
        0 <= b < used.len(),
        !used[b],
    ensures
        free_count(used.update(b, true)) == free_count(used) - 1,
    decreases used.len(),
{
    if b == used.len() - 1 {
        assert(used.update(b, true).drop_last() =~= used.drop_last());
    } else {
        lemma_free_count_update(used.drop_last(), b);
        assert(used.update(b, true).drop_last() =~= used.drop_last().update(b, true));
    }
}

proof fn lemma_free_count_zero(used: Seq<bool>)
    requires
        forall|j: int| 0 <= j < used.len() ==> used[j],
    ensures
        free_count(used) == 0,
    decreases used.len(),
{
    if used.len() > 0 {
        lemma_free_count_zero(used.drop_last());
    }
}

proof fn lemma_free_count_pos(used: Seq<bool>, j: int)
    requires
        0 <= j < used.len(),
        !used[j],
    ensures
        free_count(used) >= 1,
    decreases used.len(),
{
    if j < used.len() - 1 {
        lemma_free_count_pos(used.drop_last(), j);
    }
}

/// What the scan returns: a position that is in range and unused, and that
/// outranks every other unused position it saw; `-1` exactly when it saw
/// no unused position.
pub proof fn lemma_best_scan(s: Seq<Score>, used: Seq<bool>, upto: int)
    requires
        0 <= upto <= s.len(),
        used.len() == s.len(),
        forall|i: int| 0 <= i < s.len() ==> score_wf(#[trigger] s[i]),
    ensures
        best_scan(s, used, upto) == -1 ==> forall|j: int| 0 <= j < upto ==> used[j],
        best_scan(s, used, upto) != -1 ==> {
            let b = best_scan(s, used, upto);
            &&& 0 <= b < upto
            &&& !used[b]
            &&& forall|j: int| 0 <= j < upto && !used[j] && j != b ==> outranks(s, b, j)
        },
    decreases upto,
{
    if upto > 0 {
        lemma_best_scan(s, used, upto - 1);
        let prev = best_scan(s, used, upto - 1);
        let cur = upto - 1;
        let b = best_scan(s, used, upto);
        if !used[cur] && prev != -1 {
            lemma_score_trichotomy(s[prev], s[cur]);
            if score_lt(s[prev], s[cur]) {
                assert forall|j: int| 0 <= j < upto && !used[j] && j != cur implies outranks(
                    s,
                    cur,
                    j,
                ) by {
                    if j != prev {
                        lemma_score_trichotomy(s[prev], s[j]);
                        lemma_score_le_lt_trans(s[j], s[prev], s[cur]);
                    }
                }
            } else {
                assert(outranks(s, prev, cur));
            }
        }
    }
}

/// What ranked selection returns: as many indices as are available, capped
/// at `k`; each valid and previously unused; each outranking every index
/// selected after it and every unused index left unselected. In
/// particular the selection is sorted by strictly descending score with
/// ties in position order, and nothing left behind outranks anything
/// selected.
pub proof fn lemma_top_ranked(s: Seq<Score>, used: Seq<bool>, k: nat)
    requires
        used.len() == s.len(),
        forall|i: int| 0 <= i < s.len() ==> score_wf(#[trigger] s[i]),
    ensures
        ({
            let r = top_ranked(s, used, k);
            &&& r.len() == if k <= free_count(used) {
                k
            } else {
                free_count(used)
            }
            &&& forall|a: int| 0 <= a < r.len() ==> 0 <= #[trigger] r[a] < s.len() && !used[r[a]]
            &&& forall|a: int, b: int| 0 <= a < b < r.len() ==> outranks(s, r[a], r[b])
            &&& forall|a: int, j: int|
                0 <= a < r.len() && 0 <= j < s.len() && !used[j] && !r.contains(j) ==> outranks(
                    s,
                    r[a],
                    j,
                )
        }),
    decreases k,
{
    if k > 0 {
        let b = best_scan(s, used, s.len() as int);
        lemma_best_scan(s, used, s.len() as int);
        let r = top_ranked(s, used, k);
        if b == -1 {
            lemma_free_count_zero(used);
        } else {
            lemma_free_count_pos(used, b);
            let used2 = used.update(b, true);
            lemma_free_count_update(used, b);
            lemma_top_ranked(s, used2, (k - 1) as nat);
            let r2 = top_ranked(s, used2, (k - 1) as nat);
            assert(r == seq![b] + r2);
            assert(r[0] == b);
            assert forall|a: int| 0 <= a < r.len() implies 0 <= #[trigger] r[a] < s.len()
                && !used[r[a]] by {
                if a > 0 {
                    assert(r[a] == r2[a - 1]);
                }
            }
            assert forall|a: int, bb: int| 0 <= a < bb < r.len() implies outranks(
                s,
                r[a],
                r[bb],
            ) by {
                if a == 0 {
                    assert(r[bb] == r2[bb - 1]);
                    assert(!used2[r2[bb - 1]]);
                } else {
                    assert(r[a] == r2[a - 1] && r[bb] == r2[bb - 1]);
                }
            }
            assert forall|a: int, j: int|
                0 <= a < r.len() && 0 <= j < s.len() && !used[j] && !r.contains(
                    j,
                ) implies outranks(s, r[a], j) by {
                assert(!r2.contains(j)) by {
                    if r2.contains(j) {
                        let idx = choose|idx: int| 0 <= idx < r2.len() && r2[idx] == j;
                        assert(r[idx + 1] == j);
                        assert(r.contains(j));
                    }
                }
                assert(j != b) by {
                    if j == b {
                        assert(r[0] == j);
                        assert(r.contains(j));
                    }
                }
                if a == 0 {
                    assert(outranks(s, b, j));
                } else {
                    assert(r[a] == r2[a - 1]);
                    assert(!used2[j]);
                    assert(outranks(s, r2[a - 1], j));
                }
            }
        }
    }
}

} // verus!
