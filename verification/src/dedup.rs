//! Deduplication: a newly produced artifact is discarded when its
//! bytes equal those of the immediately preceding artifact of the same
//! target. Only that single predecessor is consulted; an identical
//! dump two runs back is deliberately not caught. The directory is
//! modelled as a list of named files; the caller mirrors the one
//! decided deletion on disk.

use vstd::prelude::*;

use crate::artifacts::{is_artifact_of, matches_target};
use crate::models::DbType;
use crate::text::{
    lex_le,
    lex_lt,
    lemma_lex_antisym,
    lemma_lex_le_trans,
    lemma_lex_total,
    str_eq,
    str_lex_lt,
};

verus! {

/// One file of a target's output directory: its name and its bytes.
pub struct FileEntry {
    pub name: String,
    pub content: Vec<u8>,
}

/// A directory listing holds no name twice.
pub open spec fn distinct_names(files: Seq<FileEntry>) -> bool {
    forall|i: int, j: int| 0 <= i < j < files.len() ==> files[i].name@ != files[j].name@
}

/// `i` points at the artifact immediately preceding `new_name` for
/// `target`: the greatest matching name strictly below `new_name`.
pub open spec fn is_preceding(
    files: Seq<FileEntry>,
    target: Seq<char>,
    new_name: Seq<char>,
    i: int,
) -> bool {
    &&& 0 <= i < files.len()
    &&& matches_target(files[i].name@, target)
    &&& lex_lt(files[i].name@, new_name)
    &&& forall|j: int|
        0 <= j < files.len() && matches_target(files[j].name@, target) && lex_lt(
            files[j].name@,
            new_name,
        ) ==> lex_le(files[j].name@, files[i].name@)
}

/// The condition under which deduplication deletes the new artifact:
/// it is present, it has a preceding artifact, and the two hold the
/// same bytes.
pub open spec fn dedup_discards(files: Seq<FileEntry>, target: Seq<char>, new_name: Seq<char>) -> bool {
    exists|ni: int, pi: int|
        {
            &&& 0 <= ni < files.len()
            &&& files[ni].name@ == new_name
            &&& is_preceding(files, target, new_name, pi)
            &&& files[pi].content@ == files[ni].content@
        }
}

/// Whether deduplication applies to a database kind: only the
/// lock-sensitive kind is deduplicated; snapshot dumps carry
/// run-volatile metadata and are exempt.
pub fn dedup_applies(kind: &DbType) -> (r: bool)
    ensures
        r == (*kind is MariaDB),
{
    matches!(kind, DbType::MariaDB)
}

/// Byte-for-byte equality of two files' contents.
pub fn bytes_identical(a: &Vec<u8>, b: &Vec<u8>) -> (r: bool)
    ensures
        r == (a@ == b@),
{
    let n = a.len();
    if n != b.len() {
        return false;
    }
    let mut i: usize = 0;
    while i < n
        invariant
            i <= n,
            n == a@.len(),
            n == b@.len(),
            forall|j: int| 0 <= j < i ==> a@[j] == b@[j],
        decreases n - i,
    {
        if a[i] != b[i] {
            return false;
        }
        i += 1;
    }
    assert(a@ =~= b@);
    true
}

fn find_named(files: &Vec<FileEntry>, name: &str) -> (r: Option<usize>)
    ensures
        r matches Some(i) ==> 0 <= i < files@.len() && files@[i as int].name@ == name@,
        r is None ==> forall|k: int| 0 <= k < files@.len() ==> files@[k].name@ != name@,
{
    let n = files.len();
    let mut i: usize = 0;
    while i < n
        invariant
            i <= n,
            n == files@.len(),
            forall|k: int| 0 <= k < i ==> files@[k].name@ != name@,
        decreases n - i,
    {
        if str_eq(files[i].name.as_str(), name) {
            return Some(i);
        }
        i += 1;
    }
    None
}

fn find_preceding(files: &Vec<FileEntry>, target: &str, new_name: &str) -> (r: Option<usize>)
    ensures
        r matches Some(i) ==> is_preceding(files@, target@, new_name@, i as int),
        r is None ==> forall|j: int|
            0 <= j < files@.len() ==> !(matches_target(files@[j].name@, target@) && lex_lt(
                files@[j].name@,
                new_name@,
            )),
{
    let n = files.len();
    let mut best: Option<usize> = None;
    let mut i: usize = 0;
    while i < n
        invariant
            i <= n,
            n == files@.len(),
            best matches Some(b) ==> {
                &&& b < i
                &&& matches_target(files@[b as int].name@, target@)
                &&& lex_lt(files@[b as int].name@, new_name@)
                &&& forall|j: int|
                    0 <= j < i && matches_target(files@[j].name@, target@) && lex_lt(
                        files@[j].name@,
                        new_name@,
                    ) ==> lex_le(files@[j].name@, files@[b as int].name@)
            },
            best is None ==> forall|j: int|
                0 <= j < i ==> !(matches_target(files@[j].name@, target@) && lex_lt(
                    files@[j].name@,
                    new_name@,
                )),
        decreases n - i,
    {
        if is_artifact_of(files[i].name.as_str(), target) && str_lex_lt(
            files[i].name.as_str(),
            new_name,
        ) {
            match best {
                None => {
                    best = Some(i);
                },
                Some(b) => {
                    if str_lex_lt(files[b].name.as_str(), files[i].name.as_str()) {
                        proof {
                            assert forall|j: int|
                                0 <= j < i + 1 && matches_target(files@[j].name@, target@)
                                    && lex_lt(files@[j].name@, new_name@) implies lex_le(
                                files@[j].name@,
                                files@[i as int].name@,
                            ) by {
                                if j < i {
                                    lemma_lex_le_trans(
                                        files@[j].name@,
                                        files@[b as int].name@,
                                        files@[i as int].name@,
                                    );
                                }
                            }
                        }
                        best = Some(i);
                    } else {
                        proof {
                            lemma_lex_total(files@[b as int].name@, files@[i as int].name@);
                        }
                    }
                },
            }
        }
        i += 1;
    }
    best
}

proof fn lemma_absent_keeps(files: Seq<FileEntry>, target: Seq<char>, new_name: Seq<char>)
    requires
        forall|k: int| 0 <= k < files.len() ==> files[k].name@ != new_name,
    ensures
        !dedup_discards(files, target, new_name),
{
    if dedup_discards(files, target, new_name) {
        let (ni, pi) = choose|ni: int, pi: int|
            {
                &&& 0 <= ni < files.len()
                &&& files[ni].name@ == new_name
                &&& is_preceding(files, target, new_name, pi)
                &&& files[pi].content@ == files[ni].content@
            };
        assert(files[ni].name@ == new_name);
        assert(false);
    }
}

/// Discards are idempotent: once the new artifact is removed, nothing
/// of its name remains, so a repeated run keeps everything — the
/// predecessor itself is never deleted.
pub proof fn lemma_dedup_idempotent(
    files: Seq<FileEntry>,
    target: Seq<char>,
    new_name: Seq<char>,
    ni: int,
)
    requires
        distinct_names(files),
        0 <= ni < files.len(),
        files[ni].name@ == new_name,
    ensures
        !dedup_discards(files.remove(ni), target, new_name),
{
    let rest = files.remove(ni);
    assert forall|k: int| 0 <= k < rest.len() implies rest[k].name@ != new_name by {
        if k < ni {
            assert(rest[k] == files[k]);
        } else {
            assert(rest[k] == files[k + 1]);
        }
    }
    lemma_absent_keeps(rest, target, new_name);
}

/// Deletes the new artifact from the directory model exactly when an
/// identical preceding artifact exists, and reports whether the new
/// artifact was kept.
pub fn deduplicate(files: &mut Vec<FileEntry>, target: &str, new_name: &str) -> (kept: bool)
    requires
        distinct_names(old(files)@),
    ensures
        kept == !dedup_discards(old(files)@, target@, new_name@),
        kept ==> final(files)@ == old(files)@,
        !kept ==> exists|ni: int|
            {
                &&& 0 <= ni < old(files)@.len()
                &&& old(files)@[ni].name@ == new_name@
                &&& final(files)@ == old(files)@.remove(ni)
            },
        distinct_names(final(files)@),
{
    let ni = match find_named(files, new_name) {
        Some(i) => i,
        None => {
            proof {
                lemma_absent_keeps(files@, target@, new_name@);
            }
            return true;
        },
    };
    let pi = match find_preceding(files, target, new_name) {
        Some(p) => p,
        None => {
            proof {
                if dedup_discards(files@, target@, new_name@) {
                    let (a, b) = choose|a: int, b: int|
                        {
                            &&& 0 <= a < files@.len()
                            &&& files@[a].name@ == new_name@
                            &&& is_preceding(files@, target@, new_name@, b)
                            &&& files@[b].content@ == files@[a].content@
                        };
                    assert(matches_target(files@[b].name@, target@));
                    assert(false);
                }
            }
            return true;
        },
    };
    if bytes_identical(&files[pi].content, &files[ni].content) {
        files.remove(ni);
        proof {
            assert(dedup_discards(old(files)@, target@, new_name@)) by {
                assert({
                    &&& 0 <= ni < old(files)@.len()
                    &&& old(files)@[ni as int].name@ == new_name@
                    &&& is_preceding(old(files)@, target@, new_name@, pi as int)
                    &&& old(files)@[pi as int].content@ == old(files)@[ni as int].content@
                });
            }
            assert forall|i: int, j: int|
                0 <= i < j < files@.len() implies files@[i].name@ != files@[j].name@ by {
                let s = old(files)@;
                if i < ni {
                    assert(files@[i] == s[i]);
                } else {
                    assert(files@[i] == s[i + 1]);
                }
                if j < ni {
                    assert(files@[j] == s[j]);
                } else {
                    assert(files@[j] == s[j + 1]);
                }
            }
        }
        false
    } else {
        proof {
            if dedup_discards(files@, target@, new_name@) {
                let (a, b) = choose|a: int, b: int|
                    {
                        &&& 0 <= a < files@.len()
                        &&& files@[a].name@ == new_name@
                        &&& is_preceding(files@, target@, new_name@, b)
                        &&& files@[b].content@ == files@[a].content@
                    };
                if a != ni {
                    if a < ni {
                        assert(files@[a].name@ != files@[ni as int].name@);
                    } else {
                        assert(files@[ni as int].name@ != files@[a].name@);
                    }
                }
                assert(a == ni);
                assert(lex_le(files@[b].name@, files@[pi as int].name@));
                assert(lex_le(files@[pi as int].name@, files@[b].name@));
                lemma_lex_antisym(files@[b].name@, files@[pi as int].name@);
                if b != pi {
                    if b < pi {
                        assert(files@[b].name@ != files@[pi as int].name@);
                    } else {
                        assert(files@[pi as int].name@ != files@[b].name@);
                    }
                }
                assert(b == pi);
                assert(false);
            }
        }
        true
    }
}

} // verus!
