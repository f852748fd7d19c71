//! Control registry: at most one live cancellation handle per task id. Pause
//! and delete act through it, so cancellation happens at most once and no
//! engine run outlives a matching record's removal.
use vstd::prelude::*;

verus! {

/// Relies on tokio::task::AbortHandle being an ordinary owned value: the
/// registry stores it opaquely and only ever calls `abort` on it.
#[verifier::external_type_specification]
#[verifier::external_body]
pub struct ExAbortHandle(tokio::task::AbortHandle);

/// Relies on tokio::task::AbortHandle::abort: it asks the runtime to cancel
/// the spawned task the handle came from, returns nothing, and does not
/// panic; aborting an already finished or cancelled task does nothing.
#[verifier::external_body]
fn abort_task(h: &tokio::task::AbortHandle) {
    h.abort();
}

/// Index of the first entry keyed by `id`, or -1 if none is.
pub open spec fn first_key(s: Seq<Seq<char>>, id: Seq<char>) -> int
    decreases s.len(),
{
    if s.len() == 0 {
        -1
    } else if s[0] == id {
        0
    } else {
        let r = first_key(s.subrange(1, s.len() as int), id);
        if r < 0 {
            -1
        } else {
            r + 1
        }
    }
}

/// What `first_key` finds, exactly as for the store's record lookup.
pub proof fn lemma_first_key(s: Seq<Seq<char>>, id: Seq<char>)
    ensures
        first_key(s, id) == -1 || 0 <= first_key(s, id) < s.len(),
        first_key(s, id) == -1 ==> forall|j: int| 0 <= j < s.len() ==> #[trigger] s[j] != id,
        first_key(s, id) >= 0 ==> s[first_key(s, id)] == id,
        first_key(s, id) >= 0 ==> forall|j: int| 0 <= j < first_key(s, id) ==> #[trigger] s[j] != id,
    decreases s.len(),
{
    if s.len() == 0 {
    } else if s[0] == id {
    } else {
        let tail = s.subrange(1, s.len() as int);
        lemma_first_key(tail, id);
        assert(forall|j: int| 0 <= j < tail.len() ==> #[trigger] tail[j] == s[j + 1]);
        assert(forall|j: int| 1 <= j < s.len() ==> #[trigger] s[j] == tail[j - 1]);
    }
}

/// A witness pins `first_key` down.
pub proof fn lemma_first_key_is(s: Seq<Seq<char>>, id: Seq<char>, i: int)
    requires
        0 <= i < s.len(),
        s[i] == id,
        forall|j: int| 0 <= j < i ==> #[trigger] s[j] != id,
    ensures
        first_key(s, id) == i,
    decreases i,
{
    let tail = s.subrange(1, s.len() as int);
    assert(forall|j: int| 0 <= j < tail.len() ==> #[trigger] tail[j] == s[j + 1]);
    assert(forall|j: int| 1 <= j < s.len() ==> #[trigger] s[j] == tail[j - 1]);
    if i == 0 {
    } else {
        assert(s[0] != id);
        lemma_first_key_is(tail, id, i - 1);
    }
}

/// If no entry carries the key, `first_key` reports none.
pub proof fn lemma_first_key_none(s: Seq<Seq<char>>, id: Seq<char>)
    requires
        forall|j: int| 0 <= j < s.len() ==> #[trigger] s[j] != id,
    ensures
        first_key(s, id) == -1,
    decreases s.len(),
{
    if s.len() == 0 {
    } else {
        let tail = s.subrange(1, s.len() as int);
        assert(forall|j: int| 0 <= j < tail.len() ==> #[trigger] tail[j] == s[j + 1]);
        assert(forall|j: int| 1 <= j < s.len() ==> #[trigger] s[j] == tail[j - 1]);
        lemma_first_key_none(tail, id);
    }
}

/// The registry's invariant: ids are distinct, so at most one live handle
/// exists per task.
pub open spec fn registry_inv(s: Seq<Seq<char>>) -> bool {
    forall|i: int, j: int| 0 <= i < j < s.len() ==> #[trigger] s[i] != #[trigger] s[j]
}

/// The registry itself: its view is the sequence of ids that currently hold
/// a live handle.
pub struct ControlRegistry {
    entries: Vec<(String, tokio::task::AbortHandle)>,
}

impl View for ControlRegistry {
    type V = Seq<Seq<char>>;

    closed spec fn view(&self) -> Seq<Seq<char>> {
        Seq::new(self.entries@.len(), |i: int| self.entries@[i].0@)
    }
}

impl ControlRegistry {
    /// An empty registry.
    pub fn new() -> (r: Self)
        ensures
            r@ == Seq::<Seq<char>>::empty(),
            registry_inv(r@),
    {
        let r = ControlRegistry { entries: Vec::new() };
        proof {
            assert(r@ =~= Seq::<Seq<char>>::empty());
        }
        r
    }

    /// First index keyed by the id, if any.
    fn find_key(&self, id: &String) -> (r: Option<usize>)
        ensures
            match r {
                Some(i) => (i as int) < self@.len() && i as int == first_key(self@, id@),
                None => first_key(self@, id@) == -1,
            },
    {
        let mut j: usize = 0;
        while j < self.entries.len()
            invariant
                j <= self.entries@.len(),
                forall|k: int| 0 <= k < j ==> #[trigger] self@[k] != id@,
            decreases self.entries@.len() - j,
        {
            if self.entries[j].0 == *id {
                proof {
                    lemma_first_key_is(self@, id@, j as int);
                }
                return Some(j);
            }
            j = j + 1;
        }
        proof {
            lemma_first_key_none(self@, id@);
        }
        None
    }

    /// Holds the handle of a freshly launched engine run; an existing handle
    /// for the same id is replaced, so the id set gains at most one entry.
    pub fn register(&mut self, id: String, handle: tokio::task::AbortHandle)
        ensures
            final(self)@ == if first_key(old(self)@, id@) >= 0 {
                old(self)@
            } else {
                old(self)@.push(id@)
            },
            final(self)@.contains(id@),
            registry_inv(old(self)@) ==> registry_inv(final(self)@),
    {
        match self.find_key(&id) {
            Some(i) => {
                self.entries[i] = (id, handle);
                proof {
                    lemma_first_key(old(self)@, id@);
                    assert(self@ =~= old(self)@);
                    assert(self@[first_key(old(self)@, id@)] == id@);
                }
            },
            None => {
                proof {
                    lemma_first_key(old(self)@, id@);
                }
                let ghost prev = self@;
                self.entries.push((id, handle));
                proof {
                    assert(self@ =~= prev.push(self.entries@.last().0@));
                    assert(self@[self@.len() - 1] == self.entries@.last().0@);
                }
            },
        }
    }

    /// Pause or delete: removes the id's handle, if one is live, and cancels
    /// the engine run it belongs to.
    pub fn cancel(&mut self, id: &String) -> (found: bool)
        ensures
            final(self)@ == if first_key(old(self)@, id@) < 0 {
                old(self)@
            } else {
                old(self)@.remove(first_key(old(self)@, id@))
            },
            found == (first_key(old(self)@, id@) >= 0),
            registry_inv(old(self)@) ==> registry_inv(final(self)@),
            registry_inv(old(self)@) ==> !final(self)@.contains(id@),
    {
        match self.find_key(id) {
            None => {
                proof {
                    lemma_first_key(old(self)@, id@);
                    if registry_inv(old(self)@) {
                        assert(forall|j: int|
                            0 <= j < old(self)@.len() ==> #[trigger] old(self)@[j] != id@);
                    }
                }
                false
            },
            Some(i) => {
                let entry = self.entries.remove(i);
                abort_task(&entry.1);
                proof {
                    let gi = i as int;
                    lemma_first_key(old(self)@, id@);
                    assert(self@ =~= old(self)@.remove(gi));
                    if registry_inv(old(self)@) {
                        assert forall|j: int| 0 <= j < self@.len() implies #[trigger] self@[j]
                            != id@ by {
                            if j < gi {
                                assert(self@[j] == old(self)@[j]);
                            } else {
                                assert(self@[j] == old(self)@[j + 1]);
                            }
                        }
                    }
                }
                true
            },
        }
    }

    /// Drains the registry: every live engine run is cancelled and every
    /// handle dropped.
    pub fn cancel_all(&mut self)
        ensures
            final(self)@ == Seq::<Seq<char>>::empty(),
    {
        let mut j: usize = 0;
        while j < self.entries.len()
            invariant
                j <= self.entries@.len(),
            decreases self.entries@.len() - j,
        {
            abort_task(&self.entries[j].1);
            j = j + 1;
        }
        self.entries.clear();
        proof {
            assert(self@ =~= Seq::<Seq<char>>::empty());
        }
    }
}

} // verus!
