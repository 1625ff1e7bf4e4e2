//! The table of host files held open, by handle. Handle 0 is never given out: it stands for
//! reads inside an archive, which need no state.

use crate::cache::{key_pos, keys_distinct, lemma_key_pos, lemma_key_pos_at};
use crate::error::FsError;
use vstd::prelude::*;

verus! {

/// Open host files by handle.
pub struct HandleTable<F> {
    entries: Vec<(u64, F)>,
    next: u64,
}

impl<F> HandleTable<F> {
    pub closed spec fn contains(&self, h: u64) -> bool {
        key_pos(self.entries@, h) >= 0
    }

    /// The file held under `h` (meaningful when `contains(h)`).
    pub closed spec fn file(&self, h: u64) -> F {
        self.entries@[key_pos(self.entries@, h)].1
    }

    /// The handle that the next insertion gives out.
    pub closed spec fn next_handle(&self) -> u64 {
        self.next
    }

    /// The number of files held.
    pub closed spec fn count(&self) -> nat {
        self.entries@.len()
    }

    pub closed spec fn wf(&self) -> bool {
        &&& self.next >= 1
        &&& keys_distinct(self.entries@)
        &&& forall|i: int| 0 <= i < self.entries@.len() ==> 1 <= #[trigger] self.entries@[i].0 < self.next
    }

    /// An empty table.
    pub fn new() -> (r: Self)
        ensures
            r.wf(),
            r.count() == 0,
            r.next_handle() == 1,
            forall|h: u64| !r.contains(h),
    {
        let r = HandleTable { entries: Vec::new(), next: 1 };
        proof {
            assert forall|h: u64| !r.contains(h) by {
                lemma_key_pos(r.entries@, h);
            }
        }
        r
    }

    /// Holds `f` under a new handle, never 0 and never given out before.
    pub fn insert(&mut self, f: F) -> (r: Result<u64, FsError>)
        requires
            old(self).wf(),
        ensures
            final(self).wf(),
            old(self).next_handle() < u64::MAX ==> r == Ok::<u64, FsError>(old(self).next_handle()),
            old(self).next_handle() < u64::MAX ==> final(self).next_handle() == old(self).next_handle() + 1,
            r is Err ==> r == Err::<u64, FsError>(FsError::Overflow) && *final(self) == *old(self),
            r matches Ok(h) ==> {
                &&& h >= 1
                &&& !old(self).contains(h)
                &&& final(self).contains(h)
                &&& final(self).file(h) == f
                &&& final(self).count() == old(self).count() + 1
                &&& forall|k: u64| k != h ==> final(self).contains(k) == old(self).contains(k)
                &&& forall|k: u64| k != h && old(self).contains(k) ==> final(self).file(k) == old(self).file(k)
            },
    {
        if self.next == u64::MAX {
            return Err(FsError::Overflow);
        }
        let h = self.next;
        let ghost s = self.entries@;
        self.entries.push((h, f));
        self.next = h + 1;
        proof {
            let t = self.entries@;
            lemma_key_pos(s, h);
            assert forall|i: int| 0 <= i < t.len() implies 1 <= #[trigger] t[i].0 < self.next by {
                if i < s.len() {
                    assert(t[i] == s[i]);
                }
            }
            assert forall|i: int, j: int| 0 <= i < t.len() && 0 <= j < t.len() && i != j implies t[i].0 != t[j].0 by {
                if i < s.len() {
                    assert(t[i] == s[i]);
                }
                if j < s.len() {
                    assert(t[j] == s[j]);
                }
            }
            lemma_key_pos_at(t, s.len() as int);
            assert forall|k: u64| k != h implies self.contains(k) == (key_pos(s, k) >= 0) && (key_pos(s, k) >= 0 ==> self.file(k) == s[key_pos(s, k)].1) by {
                lemma_key_pos(s, k);
                lemma_key_pos(t, k);
                if key_pos(s, k) >= 0 {
                    assert(t[key_pos(s, k)] == s[key_pos(s, k)]);
                    lemma_key_pos_at(t, key_pos(s, k));
                } else if key_pos(t, k) >= 0 {
                    assert(t[key_pos(t, k)] == s[key_pos(t, k)]);
                }
            }
        }
        Ok(h)
    }

    /// The file held under `h`; a handle that is not held is a bad handle.
    pub fn get(&self, h: u64) -> (r: Result<&F, FsError>)
        requires
            self.wf(),
        ensures
            !self.contains(h) ==> r == Err::<&F, FsError>(FsError::BadFileHandle),
            self.contains(h) ==> r == Ok::<&F, FsError>(&self.file(h)),
    {
        let mut i: usize = 0;
        while i < self.entries.len()
            invariant
                self.wf(),
                i <= self.entries@.len(),
                forall|j: int| 0 <= j < i ==> self.entries@[j].0 != h,
            decreases self.entries@.len() - i,
        {
            if self.entries[i].0 == h {
                proof {
                    lemma_key_pos_at(self.entries@, i as int);
                }
                return Ok(&self.entries[i].1);
            }
            i = i + 1;
        }
        proof {
            lemma_key_pos(self.entries@, h);
        }
        Err(FsError::BadFileHandle)
    }

    /// Releases the handle `h`, returning the file it held.
    pub fn remove(&mut self, h: u64) -> (r: Option<F>)
        requires
            old(self).wf(),
        ensures
            final(self).wf(),
            !final(self).contains(h),
            final(self).next_handle() == old(self).next_handle(),
            old(self).contains(h) ==> r == Some(old(self).file(h)) && final(self).count() + 1 == old(self).count(),
            !old(self).contains(h) ==> r.is_none() && final(self).count() == old(self).count(),
            forall|k: u64| k != h ==> final(self).contains(k) == old(self).contains(k),
            forall|k: u64| k != h && old(self).contains(k) ==> final(self).file(k) == old(self).file(k),
    {
        let ghost s = self.entries@;
        let mut i: usize = 0;
        while i < self.entries.len()
            invariant
                self.wf(),
                self.entries@ == s,
                *self == *old(self),
                i <= s.len(),
                forall|j: int| 0 <= j < i ==> s[j].0 != h,
            decreases s.len() - i,
        {
            if self.entries[i].0 == h {
                proof {
                    lemma_key_pos_at(s, i as int);
                }
                let e = self.entries.remove(i);
                proof {
                    let t = self.entries@;
                    assert(t =~= s.remove(i as int));
                    assert forall|a: int| 0 <= a < t.len() implies #[trigger] t[a] == s[if a < i { a } else { a + 1 }] by {}
                    assert forall|a: int, b: int| 0 <= a < t.len() && 0 <= b < t.len() && a != b implies t[a].0 != t[b].0 by {
                        assert(t[a] == s[if a < i { a } else { a + 1 }]);
                        assert(t[b] == s[if b < i { b } else { b + 1 }]);
                    }
                    assert forall|a: int| 0 <= a < t.len() implies 1 <= #[trigger] t[a].0 < self.next by {
                        assert(t[a] == s[if a < i { a } else { a + 1 }]);
                    }
                    assert forall|k: u64| (self.contains(k) == (k != h && key_pos(s, k) >= 0)) && (k != h && key_pos(s, k) >= 0 ==> self.file(k) == s[key_pos(s, k)].1) by {
                        lemma_key_pos(s, k);
                        lemma_key_pos(t, k);
                        let q = key_pos(s, k);
                        if k != h && q >= 0 {
                            let a = if q < i { q } else { q - 1 };
                            assert(t[a] == s[if a < i { a } else { a + 1 }]);
                            lemma_key_pos_at(t, a);
                        } else if key_pos(t, k) >= 0 {
                            let a = key_pos(t, k);
                            assert(t[a] == s[if a < i { a } else { a + 1 }]);
                            lemma_key_pos_at(s, if a < i { a } else { a + 1 });
                        }
                    }
                }
                return Some(e.1);
            }
            i = i + 1;
        }
        proof {
            lemma_key_pos(s, h);
        }
        None
    }
}

} // verus!
