//! Skill selection. Similarity scores arrive as plain fixed-point values —
//! one per catalog entry, computed from the cached embeddings — and the
//! ranking itself is verified: keep entries scoring above the threshold,
//! order them by descending score (catalog order breaking ties), and cap
//! the list. The keyword fallback used when no embedding can be had is the
//! documented substring match.
use vstd::prelude::*;

verus! {

use crate::text::contains_seq;

/// The documented relevance threshold — 0.4, in the thousandths the
/// ranking works in.
pub const SIMILARITY_THRESHOLD_MILLI: i64 = 400;

/// The documented cap on dynamically selected skills.
pub const MAX_SELECTED_SKILLS: usize = 3;
use crate::text::contains_chars;
use crate::text::chars_of;

/// The position of the first highest-scoring entry of a non-empty list of
/// `(catalog index, score)` pairs.
pub open spec fn first_max_pos(items: Seq<(usize, i64)>) -> int
    decreases items.len(),
{
    if items.len() <= 1 {
        0
    } else {
        let r = first_max_pos(items.drop_last());
        if items.last().1 > items[r].1 {
            items.len() - 1
        } else {
            r
        }
    }
}

pub proof fn lemma_first_max_pos(items: Seq<(usize, i64)>)
    requires
        items.len() > 0,
    ensures
        0 <= first_max_pos(items) < items.len(),
        forall|j: int|
            0 <= j < items.len() ==> (#[trigger] items[j]).1 <= items[first_max_pos(items)].1,
        forall|j: int|
            0 <= j < first_max_pos(items) ==> (#[trigger] items[j]).1 < items[first_max_pos(
                items,
            )].1,
    decreases items.len(),
{
    if items.len() > 1 {
        lemma_first_max_pos(items.drop_last());
        assert(forall|j: int| 0 <= j < items.len() - 1 ==> items[j] == items.drop_last()[j]);
    }
}

/// A position that carries the highest score, with no equal score before
/// it, is the first maximum.
pub proof fn lemma_first_max_pos_unique(items: Seq<(usize, i64)>, m: int)
    requires
        0 <= m < items.len(),
        forall|j: int| 0 <= j < items.len() ==> (#[trigger] items[j]).1 <= items[m].1,
        forall|j: int| 0 <= j < m ==> (#[trigger] items[j]).1 < items[m].1,
    ensures
        first_max_pos(items) == m,
    decreases items.len(),
{
    if items.len() > 1 {
        let pre = items.drop_last();
        assert(forall|j: int| 0 <= j < items.len() - 1 ==> pre[j] == items[j]);
        if m == items.len() - 1 {
            lemma_first_max_pos(pre);
            let r = first_max_pos(pre);
            assert(pre[r].1 == items[r].1);
            assert(items[r].1 < items[m].1);
        } else {
            lemma_first_max_pos_unique(pre, m);
            assert(items.last().1 <= items[m].1);
            assert(!(items.last().1 > pre[first_max_pos(pre)].1));
        }
    }
}

/// The ranked selection: up to `k` catalog indices, chosen by repeatedly
/// taking the first highest-scoring entry still above the threshold.
/// This equals sorting descending by score with stable ties and keeping
/// the first `k` entries above the threshold.
pub open spec fn select_spec(items: Seq<(usize, i64)>, threshold: int, k: nat) -> Seq<usize>
    decreases k,
{
    if k == 0 || items.len() == 0 {
        Seq::empty()
    } else {
        let m = first_max_pos(items);
        if !(0 <= m < items.len()) {
            Seq::empty()
        } else if items[m].1 <= threshold {
            Seq::empty()
        } else {
            seq![items[m].0] + select_spec(items.remove(m), threshold, (k - 1) as nat)
        }
    }
}

/// The selection never exceeds its cap.
pub proof fn lemma_select_capped(items: Seq<(usize, i64)>, threshold: int, k: nat)
    ensures
        select_spec(items, threshold, k).len() <= k,
    decreases k,
{
    if k > 0 && items.len() > 0 {
        let m = first_max_pos(items);
        if 0 <= m < items.len() && items[m].1 > threshold {
            lemma_select_capped(items.remove(m), threshold, (k - 1) as nat);
        }
    }
}

/// Selection is a function of the scored entries, the threshold and the
/// cap alone: two calls over the same cached embeddings and the same
/// message return the same ordered list.
pub proof fn lemma_select_deterministic(
    a: Seq<(usize, i64)>,
    b: Seq<(usize, i64)>,
    threshold: int,
    k: nat,
)
    requires
        a == b,
    ensures
        select_spec(a, threshold, k) == select_spec(b, threshold, k),
{
}

/// Finds the first highest-scoring entry, as `first_max_pos` says.
fn find_first_max(items: &Vec<(usize, i64)>) -> (r: usize)
    requires
        items@.len() > 0,
    ensures
        r < items@.len(),
        r as int == first_max_pos(items@),
{
    let mut best: usize = 0;
    let mut i: usize = 1;
    while i < items.len()
        invariant
            best < i <= items@.len(),
            forall|j: int| 0 <= j < i ==> (#[trigger] items@[j]).1 <= items@[best as int].1,
            forall|j: int| 0 <= j < best ==> (#[trigger] items@[j]).1 < items@[best as int].1,
        decreases items@.len() - i,
    {
        if items[i].1 > items[best].1 {
            best = i;
        }
        i = i + 1;
    }
    proof {
        lemma_first_max_pos_unique(items@, best as int);
    }
    best
}

/// Ranks scored catalog entries: the indices of at most `k` entries with
/// score strictly above `threshold`, highest first, catalog order breaking
/// ties — exactly `select_spec`.
pub fn rank_skills(scores: &Vec<(usize, i64)>, threshold: i64, k: usize) -> (r: Vec<usize>)
    ensures
        r@ == select_spec(scores@, threshold as int, k as nat),
        r@.len() <= k,
{
    let mut pool: Vec<(usize, i64)> = Vec::new();
    let mut ci: usize = 0;
    while ci < scores.len()
        invariant
            ci <= scores@.len(),
            pool@ == scores@.subrange(0, ci as int),
        decreases scores@.len() - ci,
    {
        pool.push(scores[ci]);
        ci = ci + 1;
        assert(pool@ =~= scores@.subrange(0, ci as int));
    }
    assert(pool@ =~= scores@);
    let mut picked: Vec<usize> = Vec::new();
    let mut rounds: usize = 0;
    while rounds < k
        invariant
            rounds <= k,
            picked@.len() == rounds,
            picked@ + select_spec(pool@, threshold as int, (k - rounds) as nat) == select_spec(
                scores@,
                threshold as int,
                k as nat,
            ),
        decreases k - rounds,
    {
        if pool.len() == 0 {
            assert(select_spec(pool@, threshold as int, (k - rounds) as nat)
                =~= Seq::<usize>::empty());
            assert(picked@ =~= select_spec(scores@, threshold as int, k as nat));
            proof {
                lemma_select_capped(scores@, threshold as int, k as nat);
            }
            return picked;
        }
        let m = find_first_max(&pool);
        if pool[m].1 <= threshold {
            assert(select_spec(pool@, threshold as int, (k - rounds) as nat)
                =~= Seq::<usize>::empty());
            assert(picked@ =~= select_spec(scores@, threshold as int, k as nat));
            proof {
                lemma_select_capped(scores@, threshold as int, k as nat);
            }
            return picked;
        }
        let ghost pool_before = pool@;
        let chosen = pool[m].0;
        picked.push(chosen);
        let _ = pool.remove(m);
        proof {
            assert(pool@ =~= pool_before.remove(m as int));
            let rem = (k - rounds) as nat;
            assert(select_spec(pool_before, threshold as int, rem) == seq![pool_before[m as int].0]
                + select_spec(pool_before.remove(m as int), threshold as int, (rem - 1) as nat));
            assert(picked@ + select_spec(pool@, threshold as int, (k - (rounds + 1)) as nat)
                =~= select_spec(scores@, threshold as int, k as nat));
        }
        rounds = rounds + 1;
    }
    assert(select_spec(pool@, threshold as int, 0nat) =~= Seq::<usize>::empty());
    assert(picked@ =~= select_spec(scores@, threshold as int, k as nat));
    proof {
        lemma_select_capped(scores@, threshold as int, k as nat);
    }
    picked
}


/// The chosen entries with their scores, in selection order.
pub open spec fn select_pairs(items: Seq<(usize, i64)>, threshold: int, k: nat) -> Seq<
    (usize, i64),
>
    decreases k,
{
    if k == 0 || items.len() == 0 {
        Seq::empty()
    } else {
        let m = first_max_pos(items);
        if !(0 <= m < items.len()) {
            Seq::empty()
        } else if items[m].1 <= threshold {
            Seq::empty()
        } else {
            seq![items[m]] + select_pairs(items.remove(m), threshold, (k - 1) as nat)
        }
    }
}

/// The selection lists exactly the indices of the chosen entries.
pub proof fn lemma_select_spec_is_pairs(items: Seq<(usize, i64)>, threshold: int, k: nat)
    ensures
        select_spec(items, threshold, k) == select_pairs(items, threshold, k).map_values(
            |p: (usize, i64)| p.0,
        ),
    decreases k,
{
    if k > 0 && items.len() > 0 {
        let m = first_max_pos(items);
        if 0 <= m < items.len() && items[m].1 > threshold {
            lemma_select_spec_is_pairs(items.remove(m), threshold, (k - 1) as nat);
            assert(select_spec(items, threshold, k) =~= select_pairs(
                items,
                threshold,
                k,
            ).map_values(|p: (usize, i64)| p.0));
        } else {
            assert(select_spec(items, threshold, k) =~= select_pairs(
                items,
                threshold,
                k,
            ).map_values(|p: (usize, i64)| p.0));
        }
    } else {
        assert(select_spec(items, threshold, k) =~= select_pairs(items, threshold, k).map_values(
            |p: (usize, i64)| p.0,
        ));
    }
}

/// The selection is a ranking: every chosen entry is one of the scored
/// inputs, every chosen entry scores strictly above the threshold, and the
/// chosen scores never increase along the list.
pub proof fn lemma_selection_ranked(items: Seq<(usize, i64)>, threshold: int, k: nat)
    ensures
        forall|i: int|
            0 <= i < select_pairs(items, threshold, k).len() ==> (#[trigger] select_pairs(
                items,
                threshold,
                k,
            )[i]).1 > threshold,
        forall|i: int|
            0 <= i < select_pairs(items, threshold, k).len() ==> exists|j: int|
                0 <= j < items.len() && (#[trigger] items[j]) == (#[trigger] select_pairs(
                    items,
                    threshold,
                    k,
                )[i]),
        forall|i1: int, i2: int|
            0 <= i1 < i2 < select_pairs(items, threshold, k).len() ==> (#[trigger] select_pairs(
                items,
                threshold,
                k,
            )[i1]).1 >= (#[trigger] select_pairs(items, threshold, k)[i2]).1,
    decreases k,
{
    if k > 0 && items.len() > 0 {
        let m = first_max_pos(items);
        lemma_first_max_pos(items);
        if items[m].1 > threshold {
            let rest = items.remove(m);
            lemma_selection_ranked(rest, threshold, (k - 1) as nat);
            let sel = select_pairs(items, threshold, k);
            let sub = select_pairs(rest, threshold, (k - 1) as nat);
            assert(sel == seq![items[m]] + sub);
            assert(forall|j: int|
                0 <= j < rest.len() ==> (#[trigger] rest[j]) == (if j < m {
                    items[j]
                } else {
                    items[j + 1]
                }));
            assert forall|i: int| 0 <= i < sel.len() implies exists|j: int|
                0 <= j < items.len() && (#[trigger] items[j]) == (#[trigger] sel[i]) by {
                if i == 0 {
                    assert(items[m] == sel[0]);
                } else {
                    assert(sel[i] == sub[i - 1]);
                    let j0 = choose|j0: int|
                        0 <= j0 < rest.len() && (#[trigger] rest[j0]) == sub[i - 1];
                    if j0 < m {
                        assert(items[j0] == sel[i]);
                    } else {
                        assert(items[j0 + 1] == sel[i]);
                    }
                }
            }
            assert forall|i1: int, i2: int| 0 <= i1 < i2 < sel.len() implies (#[trigger] sel[i1]).1
                >= (#[trigger] sel[i2]).1 by {
                if i1 == 0 {
                    assert(sel[i2] == sub[i2 - 1]);
                    let j0 = choose|j0: int|
                        0 <= j0 < rest.len() && (#[trigger] rest[j0]) == sub[i2 - 1];
                    assert(rest[j0].1 <= items[m].1);
                } else {
                    assert(sel[i1] == sub[i1 - 1] && sel[i2] == sub[i2 - 1]);
                }
            }
        }
    }
}

/// The keyword fallback: the catalog indices, in order, of the skills
/// whose (lowered) name occurs in the (lowered) message.
pub open spec fn fallback_spec(msg_low: Seq<char>, names_low: Seq<Seq<char>>) -> Seq<usize>
    decreases names_low.len(),
{
    if names_low.len() == 0 {
        Seq::empty()
    } else {
        fallback_spec(msg_low, names_low.drop_last()) + (if contains_seq(
            msg_low,
            names_low.last(),
        ) {
            seq![(names_low.len() - 1) as usize]
        } else {
            Seq::<usize>::empty()
        })
    }
}

/// The indices of the skills whose lowered name occurs in the lowered
/// message, in catalog order, as `fallback_spec` says. The caller lowers
/// both sides with the same case folding.
pub fn keyword_fallback(msg_low: &str, names_low: &Vec<String>) -> (r: Vec<usize>)
    ensures
        r@ == fallback_spec(msg_low@, names_low.deep_view()),
{
    let mv = chars_of(msg_low);
    let mut out: Vec<usize> = Vec::new();
    let mut i: usize = 0;
    proof {
        assert(names_low.deep_view().subrange(0, 0) =~= Seq::<Seq<char>>::empty());
        assert(out@ =~= fallback_spec(msg_low@, names_low.deep_view().subrange(0, 0)));
    }
    while i < names_low.len()
        invariant
            i <= names_low@.len(),
            mv@ == msg_low@,
            names_low.deep_view().len() == names_low@.len(),
            forall|k: int|
                0 <= k < names_low@.len() ==> names_low.deep_view()[k] == names_low@[k]@,
            out@ == fallback_spec(msg_low@, names_low.deep_view().subrange(0, i as int)),
        decreases names_low@.len() - i,
    {
        proof {
            let pre = names_low.deep_view().subrange(0, i as int);
            let ext = names_low.deep_view().subrange(0, i + 1 as int);
            assert(ext.drop_last() =~= pre);
            assert(ext.last() == names_low@[i as int]@);
        }
        let nv = chars_of(names_low[i].as_str());
        if contains_chars(mv.as_slice(), nv.as_slice()) {
            out.push(i);
        }
        assert(out@ =~= fallback_spec(
            msg_low@,
            names_low.deep_view().subrange(0, i + 1 as int),
        ));
        i = i + 1;
    }
    proof {
        assert(names_low.deep_view().subrange(0, i as int) =~= names_low.deep_view());
    }
    out
}

/// Whether `str::to_lowercase` maps these characters to those; the result
/// depends on the characters alone.
pub uninterp spec fn lower_of(s: Seq<char>) -> Seq<char>;

/// Relies on str::to_lowercase: the lowering depends on the characters
/// alone, and an empty string stays empty.
#[verifier::external_body]
pub fn lowercase(s: &str) -> (r: String)
    ensures
        r@ == lower_of(s@),
        s@.len() == 0 ==> r@.len() == 0,
{
    s.to_lowercase()
}

} // verus!
