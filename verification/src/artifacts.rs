//! Artifact naming and selection. An artifact file is named
//! `<target>_<stamp>.sql`; because the stamp is a fixed-width
//! timestamp, names of one target sort chronologically.

use vstd::prelude::*;

use crate::text::{
    lex_le,
    lex_lt,
    lemma_lex_le_trans,
    lemma_lex_lt_common_prefix,
    lemma_lex_lt_eqlen_suffix,
    lemma_lex_total,
    str_lex_lt,
};

verus! {

/// The artifact file name for a target and a timestamp stamp.
pub open spec fn artifact_name_spec(target: Seq<char>, stamp: Seq<char>) -> Seq<char> {
    target + "_"@ + stamp + ".sql"@
}

/// Builds the artifact file name `<target>_<stamp>.sql`. The name is
/// always recognized by `matches_target` as belonging to its target.
pub fn artifact_name(target: &str, stamp: &str) -> (r: String)
    ensures
        r@ == artifact_name_spec(target@, stamp@),
        matches_target(r@, target@),
{
    let mut s = String::from_str(target);
    s.append("_");
    s.append(stamp);
    s.append(".sql");
    proof {
        assert(s@ =~= artifact_name_spec(target@, stamp@));
        lemma_artifact_name_matches(target@, stamp@);
    }
    s
}

/// Whether a file name follows the artifact convention for `target`:
/// the target's name, an underscore, a non-empty rest ending in
/// `.sql`.
pub open spec fn matches_target(name: Seq<char>, target: Seq<char>) -> bool {
    &&& name.len() >= target.len() + 5
    &&& name.subrange(0, target.len() as int) == target
    &&& name[target.len() as int] == '_'
    &&& name.subrange(name.len() - 4, name.len() as int) == ".sql"@
}

/// Every name the engine builds is recognized as belonging to its
/// target.
proof fn lemma_artifact_name_matches(target: Seq<char>, stamp: Seq<char>)
    ensures
        matches_target(artifact_name_spec(target, stamp), target),
{
    reveal_strlit("_");
    reveal_strlit(".sql");
    let name = artifact_name_spec(target, stamp);
    assert(name.subrange(0, target.len() as int) =~= target);
    assert(name[target.len() as int] == '_');
    assert(name.subrange(name.len() - 4, name.len() as int) =~= ".sql"@);
}

/// Artifact names of one target sort as their stamps do, for stamps
/// of one width: the names are chronologically ordered because the
/// engine's timestamp stamps are fixed-width.
pub proof fn lemma_names_sort_as_stamps(target: Seq<char>, s1: Seq<char>, s2: Seq<char>)
    requires
        s1.len() == s2.len(),
    ensures
        s1 == s2 ==> artifact_name_spec(target, s1) == artifact_name_spec(target, s2),
        s1 != s2 ==> lex_lt(artifact_name_spec(target, s1), artifact_name_spec(target, s2))
            == lex_lt(s1, s2),
{
    let p = target + "_"@;
    assert(artifact_name_spec(target, s1) =~= p + (s1 + ".sql"@));
    assert(artifact_name_spec(target, s2) =~= p + (s2 + ".sql"@));
    if s1 != s2 {
        lemma_lex_lt_common_prefix(p, s1 + ".sql"@, s2 + ".sql"@);
        lemma_lex_lt_eqlen_suffix(s1, s2, ".sql"@, ".sql"@);
    }
}

/// Decides `matches_target` on string slices.
pub fn is_artifact_of(name: &str, target: &str) -> (r: bool)
    ensures
        r == matches_target(name@, target@),
{
    let n = name.unicode_len();
    let t = target.unicode_len();
    if n < 5 || n - 5 < t {
        return false;
    }
    let mut i: usize = 0;
    while i < t
        invariant
            i <= t,
            n == name@.len(),
            t == target@.len(),
            t + 5 <= n,
            forall|j: int| 0 <= j < i ==> name@[j] == target@[j],
        decreases t - i,
    {
        if name.get_char(i) as u32 != target.get_char(i) as u32 {
            assert(name@[i as int] != target@[i as int]);
            assert(name@.subrange(0, t as int) != target@) by {
                if name@.subrange(0, t as int) == target@ {
                    assert(name@.subrange(0, t as int)[i as int] == name@[i as int]);
                }
            }
            return false;
        }
        i += 1;
    }
    assert(name@.subrange(0, t as int) =~= target@);
    if name.get_char(t) as u32 != '_' as u32 {
        return false;
    }
    assert(name@[t as int] == '_');
    let suffix_ok = name.get_char(n - 4) as u32 == '.' as u32 && name.get_char(n - 3) as u32
        == 's' as u32 && name.get_char(n - 2) as u32 == 'q' as u32 && name.get_char(n - 1) as u32
        == 'l' as u32;
    proof {
        reveal_strlit(".sql");
        if suffix_ok {
            assert(name@.subrange(n - 4, n as int) =~= ".sql"@);
        } else {
            if name@.subrange(n - 4, n as int) == ".sql"@ {
                assert(name@.subrange(n - 4, n as int)[0] == name@[n - 4]);
                assert(name@.subrange(n - 4, n as int)[1] == name@[n - 3]);
                assert(name@.subrange(n - 4, n as int)[2] == name@[n - 2]);
                assert(name@.subrange(n - 4, n as int)[3] == name@[n - 1]);
                assert(name@[n - 4] == '.');
                assert(name@[n - 3] == 's');
                assert(name@[n - 2] == 'q');
                assert(name@[n - 1] == 'l');
            }
        }
    }
    suffix_ok
}

/// `i` points at a name of `target`'s artifacts no other matching name
/// exceeds lexicographically — the most recent artifact.
pub open spec fn is_latest(names: Seq<String>, target: Seq<char>, i: int) -> bool {
    &&& 0 <= i < names.len()
    &&& matches_target(names[i]@, target)
    &&& forall|j: int|
        0 <= j < names.len() && matches_target(names[j]@, target) ==> lex_le(names[j]@, names[i]@)
}

/// Picks the most recent artifact of `target` from a directory
/// listing: the lexicographically greatest matching name.
pub fn latest_artifact(names: &Vec<String>, target: &str) -> (r: Option<usize>)
    ensures
        r matches Some(i) ==> is_latest(names@, target@, i as int),
        r is None ==> forall|j: int|
            0 <= j < names@.len() ==> !matches_target(names@[j]@, target@),
{
    let n = names.len();
    let mut best: Option<usize> = None;
    let mut i: usize = 0;
    while i < n
        invariant
            i <= n,
            n == names@.len(),
            best matches Some(b) ==> {
                &&& b < i
                &&& matches_target(names@[b as int]@, target@)
                &&& forall|j: int|
                    0 <= j < i && matches_target(names@[j]@, target@) ==> lex_le(
                        names@[j]@,
                        names@[b as int]@,
                    )
            },
            best is None ==> forall|j: int| 0 <= j < i ==> !matches_target(names@[j]@, target@),
        decreases n - i,
    {
        if is_artifact_of(names[i].as_str(), target) {
            match best {
                None => {
                    best = Some(i);
                },
                Some(b) => {
                    if str_lex_lt(names[b].as_str(), names[i].as_str()) {
                        proof {
                            assert forall|j: int|
                                0 <= j < i + 1 && matches_target(
                                    names@[j]@,
                                    target@,
                                ) implies lex_le(names@[j]@, names@[i as int]@) by {
                                if j < i {
                                    lemma_lex_le_trans(
                                        names@[j]@,
                                        names@[b as int]@,
                                        names@[i as int]@,
                                    );
                                }
                            }
                        }
                        best = Some(i);
                    } else {
                        proof {
                            lemma_lex_total(names@[b as int]@, names@[i as int]@);
                        }
                    }
                },
            }
        }
        i += 1;
    }
    best
}

} // verus!
