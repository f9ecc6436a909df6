//! Retention rotation: order a target's artifacts oldest first — by
//! modification time, ties broken by name — and split off the ones
//! beyond the retention count for deletion. The caller deletes the
//! files of the first component; a failed deletion of one file does
//! not concern the others.

use vstd::prelude::*;

use vstd::seq_lib::lemma_multiset_commutative;
use crate::text::{
    lex_le,
    lex_lt,
    lemma_lex_asym,
    lemma_lex_le_trans,
    lemma_lex_total,
    str_lex_lt,
};

verus! {

broadcast use vstd::seq_lib::group_to_multiset_ensures, vstd::multiset::group_multiset_axioms;

/// One artifact on disk: its file name and its modification time in
/// Unix seconds.
pub struct ArtifactMeta {
    pub name: String,
    pub mtime: i64,
}

/// Age order: earlier modification time first, equal times ordered by
/// name.
pub open spec fn age_le(a: ArtifactMeta, b: ArtifactMeta) -> bool {
    ||| a.mtime < b.mtime
    ||| (a.mtime == b.mtime && lex_le(a.name@, b.name@))
}

/// Oldest first.
pub open spec fn sorted_by_age(s: Seq<ArtifactMeta>) -> bool {
    forall|i: int, j: int| 0 <= i < j < s.len() ==> age_le(s[i], s[j])
}

/// Age order is total.
pub proof fn lemma_age_total(a: ArtifactMeta, b: ArtifactMeta)
    ensures
        age_le(a, b) || age_le(b, a),
{
    lemma_lex_total(a.name@, b.name@);
}

/// Age order is transitive.
pub proof fn lemma_age_trans(a: ArtifactMeta, b: ArtifactMeta, c: ArtifactMeta)
    ensures
        age_le(a, b) && age_le(b, c) ==> age_le(a, c),
{
    if age_le(a, b) && age_le(b, c) && a.mtime == b.mtime && b.mtime == c.mtime {
        lemma_lex_le_trans(a.name@, b.name@, c.name@);
    }
}

/// Decides `age_le` on two artifacts.
fn age_le_exec(a: &ArtifactMeta, b: &ArtifactMeta) -> (r: bool)
    ensures
        r == age_le(*a, *b),
{
    if a.mtime < b.mtime {
        true
    } else if a.mtime == b.mtime {
        let r = !str_lex_lt(b.name.as_str(), a.name.as_str());
        proof {
            if lex_lt(b.name@, a.name@) {
                lemma_lex_asym(b.name@, a.name@);
            } else {
                lemma_lex_total(a.name@, b.name@);
            }
        }
        r
    } else {
        false
    }
}

/// Sorts artifacts oldest first; the result is a permutation of the
/// input.
pub fn sort_by_age(items: Vec<ArtifactMeta>) -> (r: Vec<ArtifactMeta>)
    ensures
        sorted_by_age(r@),
        r@.to_multiset() == items@.to_multiset(),
        r@.len() == items@.len(),
{
    let mut src = items;
    let mut out: Vec<ArtifactMeta> = Vec::new();
    while src.len() > 0
        invariant
            sorted_by_age(out@),
            out@.to_multiset().add(src@.to_multiset()) =~= items@.to_multiset(),
            out@.len() + src@.len() == items@.len(),
            forall|o: int, s: int|
                0 <= o < out@.len() && 0 <= s < src@.len() ==> age_le(out@[o], src@[s]),
        decreases src.len(),
    {
        let n = src.len();
        let mut m: usize = 0;
        let mut i: usize = 1;
        while i < n
            invariant
                m < i <= n,
                n == src@.len(),
                forall|j: int| 0 <= j < i ==> age_le(src@[m as int], src@[j]),
            decreases n - i,
        {
            if age_le_exec(&src[i], &src[m]) {
                proof {
                    assert forall|j: int| 0 <= j < i + 1 implies age_le(src@[i as int], src@[j]) by {
                        lemma_age_trans(src@[i as int], src@[m as int], src@[j]);
                    }
                }
                m = i;
            } else {
                proof {
                    lemma_age_total(src@[m as int], src@[i as int]);
                }
            }
            i += 1;
        }
        let ghost out0 = out@;
        let ghost src0 = src@;
        let item = src.remove(m);
        out.push(item);
        proof {
            assert(src0.contains(item));
            assert(src0.to_multiset().count(item) > 0);
            assert(out@.to_multiset() =~= out0.to_multiset().insert(item));
            assert(src@.to_multiset() =~= src0.to_multiset().remove(item));
            assert(out@.to_multiset().add(src@.to_multiset()) =~= out0.to_multiset().add(
                src0.to_multiset(),
            ));
            assert forall|a: int, b: int|
                0 <= a < b < out@.len() implies age_le(out@[a], out@[b]) by {
                if b < out@.len() - 1 {
                    assert(age_le(out0[a], out0[b]));
                } else {
                    assert(age_le(out0[a], src0[m as int]));
                }
            }
            assert forall|o: int, s: int|
                0 <= o < out@.len() && 0 <= s < src@.len() implies age_le(out@[o], src@[s]) by {
                let orig: int = if s < m { s } else { s + 1 };
                assert(src@[s] == src0[orig]);
                if o < out@.len() - 1 {
                    assert(age_le(out0[o], src0[orig]));
                } else {
                    assert(age_le(src0[m as int], src0[orig]));
                }
            }
        }
    }
    proof {
        assert(src@.to_multiset() =~= vstd::multiset::Multiset::empty());
        assert(out@.to_multiset() =~= items@.to_multiset());
    }
    out
}

/// Splits a target's artifacts for rotation: the first component is
/// to be deleted — the oldest ones beyond the retention count — and
/// the second is kept: the `retention` newest, or all of them when no
/// more than `retention` exist. Nothing is lost: together the two
/// components hold exactly the artifacts given.
pub fn rotation_split(artifacts: Vec<ArtifactMeta>, retention: usize) -> (r: (
    Vec<ArtifactMeta>,
    Vec<ArtifactMeta>,
))
    ensures
        r.1@.len() == vstd::math::min(artifacts@.len() as int, retention as int),
        r.0@.len() + r.1@.len() == artifacts@.len(),
        r.0@.to_multiset().add(r.1@.to_multiset()) == artifacts@.to_multiset(),
        forall|a: int, b: int|
            0 <= a < r.0@.len() && 0 <= b < r.1@.len() ==> age_le(r.0@[a], r.1@[b]),
        sorted_by_age(r.0@),
        sorted_by_age(r.1@),
{
    let sorted = sort_by_age(artifacts);
    let n = sorted.len();
    let excess: usize = if n > retention {
        n - retention
    } else {
        0
    };
    let mut removed: Vec<ArtifactMeta> = Vec::new();
    let mut kept: Vec<ArtifactMeta> = Vec::new();
    let ghost sorted_view = sorted@;
    let mut src = sorted;
    let mut i: usize = 0;
    while src.len() > 0
        invariant
            i + src@.len() == n,
            n == sorted_view.len(),
            excess <= n,
            excess == if n > retention {
                (n - retention) as int
            } else {
                0
            },
            src@ == sorted_view.skip(i as int),
            removed@ == sorted_view.subrange(0, vstd::math::min(i as int, excess as int)),
            kept@ == if i <= excess {
                Seq::<ArtifactMeta>::empty()
            } else {
                sorted_view.subrange(excess as int, i as int)
            },
        decreases src.len(),
    {
        let ghost src0 = src@;
        let item = src.remove(0);
        proof {
            assert(item == sorted_view[i as int]);
            assert(src@ =~= sorted_view.skip(i + 1));
        }
        if i < excess {
            removed.push(item);
            proof {
                assert(removed@ =~= sorted_view.subrange(0, vstd::math::min(i + 1, excess as int)));
            }
        } else {
            kept.push(item);
            proof {
                assert(kept@ =~= sorted_view.subrange(excess as int, i + 1));
            }
        }
        i += 1;
    }
    proof {
        assert(removed@ =~= sorted_view.subrange(0, excess as int));
        if excess < n {
            assert(kept@ =~= sorted_view.subrange(excess as int, n as int));
        } else {
            assert(kept@ =~= sorted_view.subrange(excess as int, n as int));
        }
        assert(sorted_view =~= removed@ + kept@);
        lemma_multiset_commutative(removed@, kept@);
        assert forall|a: int, b: int|
            0 <= a < removed@.len() && 0 <= b < kept@.len() implies age_le(removed@[a], kept@[b]) by {
            assert(removed@[a] == sorted_view[a]);
            assert(kept@[b] == sorted_view[excess + b]);
        }
    }
    (removed, kept)
}

} // verus!
