//! Fire-Tracker: per-target memory of the most recent schedule instant
//! already serviced, used to suppress re-firing the same instant while
//! it remains inside the lookback window. In-memory only: the record,
//! and with it the no-duplicate-firing guarantee, does not outlive the
//! process.

use vstd::prelude::*;

use crate::text::str_eq;

verus! {

/// The instant recorded for `name`: the value of its first entry, or
/// `None` when no entry carries that name.
pub open spec fn spec_last_fired(entries: Seq<(String, i64)>, name: Seq<char>) -> Option<int>
    decreases entries.len(),
{
    if entries.len() == 0 {
        None
    } else if entries[0].0@ == name {
        Some(entries[0].1 as int)
    } else {
        spec_last_fired(entries.drop_first(), name)
    }
}

/// Whether a schedule may fire at `instant` given the last serviced
/// instant recorded for its target: yes unless an instant at least as
/// late was already serviced.
pub open spec fn should_fire_given(last: Option<int>, instant: int) -> bool {
    match last {
        None => true,
        Some(l) => l < instant,
    }
}

/// Suppression is exact: firing at `instant` is refused if and only if
/// a prior marking recorded an instant at or past it.
pub proof fn lemma_should_fire_iff(last: Option<int>, instant: int)
    ensures
        !should_fire_given(last, instant) <==> (last matches Some(prior) && prior >= instant),
{
}

proof fn lemma_last_fired_skip(entries: Seq<(String, i64)>, name: Seq<char>, i: int)
    requires
        0 <= i <= entries.len(),
        forall|j: int| 0 <= j < i ==> entries[j].0@ != name,
    ensures
        spec_last_fired(entries, name) == spec_last_fired(entries.skip(i), name),
    decreases i,
{
    if i > 0 {
        lemma_last_fired_skip(entries.drop_first(), name, i - 1);
        assert(entries.drop_first().skip(i - 1) =~= entries.skip(i));
    } else {
        assert(entries.skip(0) =~= entries);
    }
}

proof fn lemma_last_fired_update(s: Seq<(String, i64)>, k: int, p: (String, i64))
    requires
        0 <= k < s.len(),
        p.0@ == s[k].0@,
        forall|j: int| 0 <= j < k ==> s[j].0@ != p.0@,
    ensures
        spec_last_fired(s.update(k, p), p.0@) == Some(p.1 as int),
        forall|q: Seq<char>|
            q != p.0@ ==> spec_last_fired(s.update(k, p), q) == spec_last_fired(s, q),
    decreases k,
{
    if k == 0 {
        assert(s.update(0, p)[0] == p);
        assert(s.update(0, p).drop_first() =~= s.drop_first());
        assert forall|q: Seq<char>|
            q != p.0@ implies spec_last_fired(s.update(0, p), q) == spec_last_fired(s, q) by {
            assert(spec_last_fired(s.update(0, p), q) == spec_last_fired(
                s.update(0, p).drop_first(),
                q,
            ));
            assert(spec_last_fired(s, q) == spec_last_fired(s.drop_first(), q));
        }
    } else {
        lemma_last_fired_update(s.drop_first(), k - 1, p);
        assert(s.update(k, p).drop_first() =~= s.drop_first().update(k - 1, p));
        assert(s.update(k, p)[0] == s[0]);
        assert(s[0].0@ != p.0@);
        assert(spec_last_fired(s.update(k, p), p.0@) == spec_last_fired(
            s.drop_first().update(k - 1, p),
            p.0@,
        ));
        assert forall|q: Seq<char>|
            q != p.0@ implies spec_last_fired(s.update(k, p), q) == spec_last_fired(s, q) by {
            if s[0].0@ == q {
            } else {
                assert(spec_last_fired(s.update(k, p), q) == spec_last_fired(
                    s.drop_first().update(k - 1, p),
                    q,
                ));
                assert(spec_last_fired(s, q) == spec_last_fired(s.drop_first(), q));
            }
        }
    }
}

proof fn lemma_last_fired_push(s: Seq<(String, i64)>, p: (String, i64))
    requires
        forall|j: int| 0 <= j < s.len() ==> s[j].0@ != p.0@,
    ensures
        spec_last_fired(s.push(p), p.0@) == Some(p.1 as int),
        forall|q: Seq<char>| q != p.0@ ==> spec_last_fired(s.push(p), q) == spec_last_fired(s, q),
    decreases s.len(),
{
    if s.len() == 0 {
        assert(s.push(p)[0] == p);
        assert forall|q: Seq<char>|
            q != p.0@ implies spec_last_fired(s.push(p), q) == spec_last_fired(s, q) by {
            assert(s.push(p).drop_first() =~= s);
            assert(spec_last_fired(s.push(p), q) == spec_last_fired(s.push(p).drop_first(), q));
        }
    } else {
        lemma_last_fired_push(s.drop_first(), p);
        assert(s.push(p).drop_first() =~= s.drop_first().push(p));
        assert(s.push(p)[0] == s[0]);
        assert(s[0].0@ != p.0@);
        assert forall|q: Seq<char>|
            q != p.0@ implies spec_last_fired(s.push(p), q) == spec_last_fired(s, q) by {
            if s[0].0@ == q {
            } else {
                assert(spec_last_fired(s.push(p), q) == spec_last_fired(
                    s.drop_first().push(p),
                    q,
                ));
                assert(spec_last_fired(s, q) == spec_last_fired(s.drop_first(), q));
            }
        }
    }
}

/// Per-target record of the last serviced schedule instant.
pub struct FireTracker {
    entries: Vec<(String, i64)>,
}

impl FireTracker {
    /// One entry per target name.
    pub closed spec fn wf(&self) -> bool {
        forall|i: int, j: int|
            0 <= i < j < self.entries@.len() ==> self.entries@[i].0@ != self.entries@[j].0@
    }

    /// The last serviced instant recorded for `name`, if any.
    pub closed spec fn last_fired(&self, name: Seq<char>) -> Option<int> {
        spec_last_fired(self.entries@, name)
    }

    /// An empty tracker: nothing has been serviced yet.
    pub fn new() -> (r: FireTracker)
        ensures
            r.wf(),
            forall|name: Seq<char>| r.last_fired(name) is None,
    {
        FireTracker { entries: Vec::new() }
    }

    /// Whether the firing at `instant` for target `name` still has to
    /// be serviced.
    pub fn should_fire(&self, name: &str, instant: i64) -> (r: bool)
        ensures
            r == should_fire_given(self.last_fired(name@), instant as int),
    {
        let n = self.entries.len();
        let mut i: usize = 0;
        while i < n
            invariant
                i <= n,
                n == self.entries@.len(),
                forall|j: int| 0 <= j < i ==> self.entries@[j].0@ != name@,
            decreases n - i,
        {
            if str_eq(self.entries[i].0.as_str(), name) {
                proof {
                    lemma_last_fired_skip(self.entries@, name@, i as int);
                    assert(self.entries@.skip(i as int)[0] == self.entries@[i as int]);
                }
                return self.entries[i].1 < instant;
            }
            i += 1;
        }
        proof {
            lemma_last_fired_skip(self.entries@, name@, i as int);
        }
        true
    }

    /// Records `instant` as serviced for `name`, overwriting any prior
    /// record of that target and touching no other.
    pub fn mark_fired(&mut self, name: &str, instant: i64)
        requires
            old(self).wf(),
        ensures
            final(self).wf(),
            final(self).last_fired(name@) == Some(instant as int),
            forall|other: Seq<char>|
                other != name@ ==> final(self).last_fired(other) == old(self).last_fired(other),
    {
        let n = self.entries.len();
        let mut i: usize = 0;
        while i < n
            invariant
                i <= n,
                n == self.entries@.len(),
                *self == *old(self),
                old(self).wf(),
                forall|j: int| 0 <= j < i ==> self.entries@[j].0@ != name@,
        decreases n - i,
        {
            if str_eq(self.entries[i].0.as_str(), name) {
                let entry = self.entries.remove(i);
                let updated = (entry.0, instant);
                self.entries.insert(i, updated);
                proof {
                    assert(self.entries@ =~= old(self).entries@.update(i as int, updated));
                    lemma_last_fired_update(old(self).entries@, i as int, updated);
                    assert forall|a: int, b: int|
                        0 <= a < b < self.entries@.len() implies self.entries@[a].0@
                        != self.entries@[b].0@ by {
                        assert(updated.0@ == old(self).entries@[i as int].0@);
                        if a != i {
                            assert(self.entries@[a] == old(self).entries@[a]);
                        }
                        if b != i {
                            assert(self.entries@[b] == old(self).entries@[b]);
                        }
                        assert(self.entries@[a].0@ == old(self).entries@[a].0@);
                        assert(self.entries@[b].0@ == old(self).entries@[b].0@);
                        assert(old(self).entries@[a].0@ != old(self).entries@[b].0@);
                    }
                }
                return;
            }
            i += 1;
        }
        let fresh = (String::from_str(name), instant);
        self.entries.push(fresh);
        proof {
            lemma_last_fired_push(old(self).entries@, fresh);
        }
    }
}

} // verus!
