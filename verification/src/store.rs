//! Task record store: the single source of truth for task metadata and
//! status. Every mutation is stated exactly, over a mathematical mirror of
//! the operation, and each operation preserves the store's invariant: a
//! completed record's byte count equals its total size.
use vstd::prelude::*;
use crate::task::{DownloadStatus, DownloadTask, StatusView, TaskView};

verus! {

/// The views of a sequence of records.
pub open spec fn views_of(s: Seq<DownloadTask>) -> Seq<TaskView> {
    Seq::new(s.len(), |i: int| s[i]@)
}

/// Index of the first record with the given id, or -1 if none has it.
pub open spec fn first_with_id(s: Seq<TaskView>, id: Seq<char>) -> int
    decreases s.len(),
{
    if s.len() == 0 {
        -1
    } else if s[0].id == id {
        0
    } else {
        let r = first_with_id(s.subrange(1, s.len() as int), id);
        if r < 0 {
            -1
        } else {
            r + 1
        }
    }
}

/// What `first_with_id` finds: a valid index of a record with the id, before
/// which no record has it; or -1 exactly when no record has it.
pub proof fn lemma_first_with_id(s: Seq<TaskView>, id: Seq<char>)
    ensures
        first_with_id(s, id) == -1 || 0 <= first_with_id(s, id) < s.len(),
        first_with_id(s, id) == -1 ==> forall|j: int| 0 <= j < s.len() ==> (#[trigger] s[j]).id != id,
        first_with_id(s, id) >= 0 ==> s[first_with_id(s, id)].id == id,
        first_with_id(s, id) >= 0 ==> forall|j: int|
            0 <= j < first_with_id(s, id) ==> (#[trigger] s[j]).id != id,
    decreases s.len(),
{
    if s.len() == 0 {
    } else if s[0].id == id {
    } else {
        let tail = s.subrange(1, s.len() as int);
        lemma_first_with_id(tail, id);
        assert(forall|j: int| 0 <= j < tail.len() ==> #[trigger] tail[j] == s[j + 1]);
        assert(forall|j: int| 1 <= j < s.len() ==> #[trigger] s[j] == tail[j - 1]);
    }
}

/// A witness pins `first_with_id` down: if `s[i]` has the id and no earlier
/// record does, the first index with the id is `i`.
pub proof fn lemma_first_with_id_is(s: Seq<TaskView>, id: Seq<char>, i: int)
    requires
        0 <= i < s.len(),
        s[i].id == id,
        forall|j: int| 0 <= j < i ==> (#[trigger] s[j]).id != id,
    ensures
        first_with_id(s, id) == i,
    decreases i,
{
    let tail = s.subrange(1, s.len() as int);
    assert(forall|j: int| 0 <= j < tail.len() ==> #[trigger] tail[j] == s[j + 1]);
    assert(forall|j: int| 1 <= j < s.len() ==> #[trigger] s[j] == tail[j - 1]);
    if i == 0 {
    } else {
        assert(s[0].id != id);
        lemma_first_with_id_is(tail, id, i - 1);
    }
}

/// If no record has the id, `first_with_id` reports none.
pub proof fn lemma_first_with_id_none(s: Seq<TaskView>, id: Seq<char>)
    requires
        forall|j: int| 0 <= j < s.len() ==> (#[trigger] s[j]).id != id,
    ensures
        first_with_id(s, id) == -1,
    decreases s.len(),
{
    if s.len() == 0 {
    } else {
        let tail = s.subrange(1, s.len() as int);
        assert(forall|j: int| 0 <= j < tail.len() ==> #[trigger] tail[j] == s[j + 1]);
        assert(forall|j: int| 1 <= j < s.len() ==> #[trigger] s[j] == tail[j - 1]);
        lemma_first_with_id_none(tail, id);
    }
}

/// The record with its status replaced.
pub open spec fn with_status(t: TaskView, st: StatusView) -> TaskView {
    TaskView {
        id: t.id,
        url: t.url,
        filename: t.filename,
        total_size: t.total_size,
        downloaded_bytes: t.downloaded_bytes,
        status: st,
        save_path: t.save_path,
    }
}

/// The record as a fresh engine run leaves it on entry: downloading, sized,
/// placed, and with its progress reset to zero.
pub open spec fn with_run_start(t: TaskView, total: u64, path: Seq<char>) -> TaskView {
    TaskView {
        id: t.id,
        url: t.url,
        filename: t.filename,
        total_size: Some(total),
        downloaded_bytes: 0,
        status: StatusView::Downloading,
        save_path: path,
    }
}

/// The record with its progress counter flushed.
pub open spec fn with_progress(t: TaskView, bytes: u64) -> TaskView {
    TaskView {
        id: t.id,
        url: t.url,
        filename: t.filename,
        total_size: t.total_size,
        downloaded_bytes: bytes,
        status: t.status,
        save_path: t.save_path,
    }
}

/// The record as a successful run leaves it: complete, with every byte
/// accounted for.
pub open spec fn with_completion(t: TaskView, total: u64) -> TaskView {
    TaskView {
        id: t.id,
        url: t.url,
        filename: t.filename,
        total_size: Some(total),
        downloaded_bytes: total,
        status: StatusView::Completed,
        save_path: t.save_path,
    }
}

/// Status change of the first record with the id; no-op if absent.
pub open spec fn spec_set_status(s: Seq<TaskView>, id: Seq<char>, st: StatusView) -> Seq<TaskView> {
    let i = first_with_id(s, id);
    if i < 0 {
        s
    } else {
        s.update(i, with_status(s[i], st))
    }
}

/// Entry of a fresh engine run for the id; no-op if absent.
pub open spec fn spec_begin_run(s: Seq<TaskView>, id: Seq<char>, total: u64, path: Seq<char>) -> Seq<TaskView> {
    let i = first_with_id(s, id);
    if i < 0 {
        s
    } else {
        s.update(i, with_run_start(s[i], total, path))
    }
}

/// A reporter tick: the counter is flushed into the record only while the
/// record still says the task is downloading.
pub open spec fn spec_record_progress(s: Seq<TaskView>, id: Seq<char>, bytes: u64) -> Seq<TaskView> {
    let i = first_with_id(s, id);
    if i >= 0 && s[i].status is Downloading {
        s.update(i, with_progress(s[i], bytes))
    } else {
        s
    }
}

/// Whether a reporter observing the store would keep running: it stops only
/// on a record whose status is no longer downloading.
pub open spec fn spec_reporter_continues(s: Seq<TaskView>, id: Seq<char>) -> bool {
    first_with_id(s, id) < 0 || s[first_with_id(s, id)].status is Downloading
}

/// Successful finalization of a run; no-op if absent.
pub open spec fn spec_finish_run(s: Seq<TaskView>, id: Seq<char>, total: u64) -> Seq<TaskView> {
    let i = first_with_id(s, id);
    if i < 0 {
        s
    } else {
        s.update(i, with_completion(s[i], total))
    }
}

/// Failed finalization of a run; no-op if absent.
pub open spec fn spec_fail_run(s: Seq<TaskView>, id: Seq<char>, reason: Seq<char>) -> Seq<TaskView> {
    spec_set_status(s, id, StatusView::Error(reason))
}

/// The records that do not carry the given id, in order.
pub open spec fn keep_without_id(s: Seq<TaskView>, id: Seq<char>) -> Seq<TaskView>
    decreases s.len(),
{
    if s.len() == 0 {
        s
    } else {
        let p = keep_without_id(s.drop_last(), id);
        if s.last().id == id {
            p
        } else {
            p.push(s.last())
        }
    }
}

/// The records not yet completed, in order.
pub open spec fn keep_unfinished(s: Seq<TaskView>) -> Seq<TaskView>
    decreases s.len(),
{
    if s.len() == 0 {
        s
    } else {
        let p = keep_unfinished(s.drop_last());
        if s.last().status is Completed {
            p
        } else {
            p.push(s.last())
        }
    }
}

/// The store's invariant: a completed record's byte count equals its total.
pub open spec fn store_inv(s: Seq<TaskView>) -> bool {
    forall|i: int|
        0 <= i < s.len() ==> ((#[trigger] s[i]).status is Completed ==> s[i].total_size == Some(
            s[i].downloaded_bytes,
        ))
}

/// Removal keeps no record with the id, and cannot break the invariant.
pub proof fn lemma_keep_without_id(s: Seq<TaskView>, id: Seq<char>)
    ensures
        forall|j: int|
            0 <= j < keep_without_id(s, id).len() ==> (#[trigger] keep_without_id(s, id)[j]).id
                != id,
        store_inv(s) ==> store_inv(keep_without_id(s, id)),
    decreases s.len(),
{
    if s.len() == 0 {
    } else {
        lemma_keep_without_id(s.drop_last(), id);
        assert(forall|j: int|
            0 <= j < s.drop_last().len() ==> #[trigger] s.drop_last()[j] == s[j]);
        if store_inv(s) {
            assert(store_inv(s.drop_last()));
        }
    }
}

/// Filtering out completed records keeps none, and cannot break the
/// invariant.
pub proof fn lemma_keep_unfinished(s: Seq<TaskView>)
    ensures
        forall|j: int|
            0 <= j < keep_unfinished(s).len() ==> !((#[trigger] keep_unfinished(s)[j]).status
                is Completed),
        store_inv(s) ==> store_inv(keep_unfinished(s)),
    decreases s.len(),
{
    if s.len() == 0 {
    } else {
        lemma_keep_unfinished(s.drop_last());
        assert(forall|j: int|
            0 <= j < s.drop_last().len() ==> #[trigger] s.drop_last()[j] == s[j]);
        if store_inv(s) {
            assert(store_inv(s.drop_last()));
        }
    }
}

/// Once a task is paused, a reporter tick is a no-op: the forced status can
/// never be overwritten by a late flush of the counter.
pub proof fn lemma_no_progress_after_pause(s: Seq<TaskView>, id: Seq<char>, bytes: u64)
    ensures
        spec_record_progress(spec_set_status(s, id, StatusView::Paused), id, bytes)
            == spec_set_status(s, id, StatusView::Paused),
{
    let i = first_with_id(s, id);
    lemma_first_with_id(s, id);
    if i >= 0 {
        let s1 = spec_set_status(s, id, StatusView::Paused);
        assert(s1[i].id == id);
        assert(forall|j: int| 0 <= j < i ==> (#[trigger] s1[j]).id != id);
        lemma_first_with_id_is(s1, id, i);
        assert(!(s1[i].status is Downloading));
    }
}

/// Within one downloading period, successive reporter ticks with a counter
/// that has not decreased never decrease any record's byte count.
pub proof fn lemma_reporter_monotone(s: Seq<TaskView>, id: Seq<char>, c1: u64, c2: u64)
    requires
        c1 <= c2,
    ensures
        ({
            let s1 = spec_record_progress(s, id, c1);
            let s2 = spec_record_progress(s1, id, c2);
            forall|j: int|
                0 <= j < s1.len() ==> (#[trigger] s2[j]).downloaded_bytes
                    >= s1[j].downloaded_bytes
        }),
{
    let i = first_with_id(s, id);
    lemma_first_with_id(s, id);
    if i >= 0 && s[i].status is Downloading {
        let s1 = spec_record_progress(s, id, c1);
        assert(s1[i].id == id);
        assert(forall|j: int| 0 <= j < i ==> (#[trigger] s1[j]).id != id);
        lemma_first_with_id_is(s1, id, i);
        assert(s1[i].status is Downloading);
        assert(s1[i].downloaded_bytes == c1);
    }
}

/// A resumed task passes through pending, and the fresh engine run it gets
/// starts over: downloading, with the declared size and zero bytes so far.
pub proof fn lemma_fresh_run_resets(s: Seq<TaskView>, id: Seq<char>, total: u64, path: Seq<char>)
    requires
        first_with_id(s, id) >= 0,
    ensures
        ({
            let i = first_with_id(s, id);
            let s1 = spec_set_status(s, id, StatusView::Pending);
            let s2 = spec_begin_run(s1, id, total, path);
            &&& s1[i].status is Pending
            &&& s2[i].status is Downloading
            &&& s2[i].downloaded_bytes == 0
            &&& s2[i].total_size == Some(total)
        }),
{
    let i = first_with_id(s, id);
    lemma_first_with_id(s, id);
    let s1 = spec_set_status(s, id, StatusView::Pending);
    assert(s1[i].id == id);
    assert(forall|j: int| 0 <= j < i ==> (#[trigger] s1[j]).id != id);
    lemma_first_with_id_is(s1, id, i);
}

/// The store itself: a lock around it belongs to the caller; the operations
/// here are the only mutation paths.
pub struct TaskStore {
    tasks: Vec<DownloadTask>,
}

impl View for TaskStore {
    type V = Seq<TaskView>;

    closed spec fn view(&self) -> Seq<TaskView> {
        views_of(self.tasks@)
    }
}

impl TaskStore {
    /// An empty store.
    pub fn new() -> (r: Self)
        ensures
            r@ == Seq::<TaskView>::empty(),
    {
        let r = TaskStore { tasks: Vec::new() };
        proof {
            assert(r@ =~= Seq::<TaskView>::empty());
        }
        r
    }

    /// Every record, restored from elsewhere or newly created.
    pub fn insert(&mut self, t: DownloadTask)
        ensures
            final(self)@ == old(self)@.push(t@),
            store_inv(old(self)@) && (t@.status is Completed ==> t@.total_size == Some(
                t@.downloaded_bytes,
            )) ==> store_inv(final(self)@),
    {
        self.tasks.push(t);
        proof {
            assert(self@ =~= old(self)@.push(self.tasks@.last()@));
        }
    }

    /// A snapshot copy of every record, for display.
    pub fn list(&self) -> (r: Vec<DownloadTask>)
        ensures
            views_of(r@) == self@,
    {
        let mut r: Vec<DownloadTask> = Vec::new();
        let mut j: usize = 0;
        while j < self.tasks.len()
            invariant
                j <= self.tasks@.len(),
                r@.len() == j,
                forall|k: int| 0 <= k < j ==> (#[trigger] r@[k])@ == self.tasks@[k]@,
            decreases self.tasks@.len() - j,
        {
            r.push(self.tasks[j].duplicate());
            j = j + 1;
        }
        proof {
            assert(views_of(r@) =~= self@);
        }
        r
    }

    /// First index holding the id, if any.
    fn find_index(&self, id: &String) -> (r: Option<usize>)
        ensures
            match r {
                Some(i) => (i as int) < self@.len() && i as int == first_with_id(self@, id@),
                None => first_with_id(self@, id@) == -1,
            },
    {
        let mut j: usize = 0;
        while j < self.tasks.len()
            invariant
                j <= self.tasks@.len(),
                forall|k: int| 0 <= k < j ==> (#[trigger] self@[k]).id != id@,
            decreases self.tasks@.len() - j,
        {
            if self.tasks[j].id == *id {
                proof {
                    lemma_first_with_id_is(self@, id@, j as int);
                }
                return Some(j);
            }
            j = j + 1;
        }
        proof {
            lemma_first_with_id_none(self@, id@);
        }
        None
    }

    /// The record replaced wholesale at a known index.
    fn replace_at(&mut self, i: usize, t: DownloadTask)
        requires
            i < old(self)@.len(),
        ensures
            final(self)@ == old(self)@.update(i as int, t@),
    {
        self.tasks[i] = t;
        proof {
            assert(self@ =~= old(self)@.update(i as int, t@));
        }
    }

    /// Pause: the externally forced status, recorded after the engine run
    /// was cancelled.
    pub fn mark_paused(&mut self, id: &String)
        ensures
            final(self)@ == spec_set_status(old(self)@, id@, StatusView::Paused),
            store_inv(old(self)@) ==> store_inv(final(self)@),
    {
        match self.find_index(id) {
            None => {},
            Some(i) => {
                let t = &self.tasks[i];
                let updated = DownloadTask {
                    id: t.id.clone(),
                    url: t.url.clone(),
                    filename: t.filename.clone(),
                    total_size: t.total_size,
                    downloaded_bytes: t.downloaded_bytes,
                    status: DownloadStatus::Paused,
                    save_path: t.save_path.clone(),
                };
                self.replace_at(i, updated);
            },
        }
    }

    /// Resume, first half: the record goes back to pending and its url is
    /// handed out so a fresh engine run can be spawned for it.
    pub fn mark_pending(&mut self, id: &String) -> (r: Option<String>)
        ensures
            final(self)@ == spec_set_status(old(self)@, id@, StatusView::Pending),
            store_inv(old(self)@) ==> store_inv(final(self)@),
            match r {
                Some(url) => first_with_id(old(self)@, id@) >= 0 && url@ == old(self)@[
                    first_with_id(old(self)@, id@)
                ].url,
                None => first_with_id(old(self)@, id@) == -1,
            },
    {
        match self.find_index(id) {
            None => None,
            Some(i) => {
                let t = &self.tasks[i];
                let url = t.url.clone();
                let updated = DownloadTask {
                    id: t.id.clone(),
                    url: t.url.clone(),
                    filename: t.filename.clone(),
                    total_size: t.total_size,
                    downloaded_bytes: t.downloaded_bytes,
                    status: DownloadStatus::Pending,
                    save_path: t.save_path.clone(),
                };
                self.replace_at(i, updated);
                Some(url)
            },
        }
    }

    /// A fresh engine run enters streaming: the record is sized, placed,
    /// marked downloading, and its progress reset to zero.
    pub fn begin_run(&mut self, id: &String, total: u64, save_path: String)
        ensures
            final(self)@ == spec_begin_run(old(self)@, id@, total, save_path@),
            store_inv(old(self)@) ==> store_inv(final(self)@),
    {
        match self.find_index(id) {
            None => {},
            Some(i) => {
                let t = &self.tasks[i];
                let updated = DownloadTask {
                    id: t.id.clone(),
                    url: t.url.clone(),
                    filename: t.filename.clone(),
                    total_size: Some(total),
                    downloaded_bytes: 0,
                    status: DownloadStatus::Downloading,
                    save_path,
                };
                self.replace_at(i, updated);
            },
        }
    }

    /// A reporter tick: flushes the counter into the record only while its
    /// status is still downloading, and says whether the reporter should
    /// keep running.
    pub fn record_progress(&mut self, id: &String, bytes: u64) -> (r: bool)
        ensures
            final(self)@ == spec_record_progress(old(self)@, id@, bytes),
            r == spec_reporter_continues(old(self)@, id@),
            store_inv(old(self)@) ==> store_inv(final(self)@),
    {
        match self.find_index(id) {
            None => true,
            Some(i) => {
                let t = &self.tasks[i];
                if matches!(t.status, DownloadStatus::Downloading) {
                    let updated = DownloadTask {
                        id: t.id.clone(),
                        url: t.url.clone(),
                        filename: t.filename.clone(),
                        total_size: t.total_size,
                        downloaded_bytes: bytes,
                        status: DownloadStatus::Downloading,
                        save_path: t.save_path.clone(),
                    };
                    self.replace_at(i, updated);
                    true
                } else {
                    false
                }
            },
        }
    }

    /// Normal completion: every byte accounted for and the status final.
    pub fn finish_run(&mut self, id: &String, total: u64)
        ensures
            final(self)@ == spec_finish_run(old(self)@, id@, total),
            store_inv(old(self)@) ==> store_inv(final(self)@),
    {
        match self.find_index(id) {
            None => {},
            Some(i) => {
                let t = &self.tasks[i];
                let updated = DownloadTask {
                    id: t.id.clone(),
                    url: t.url.clone(),
                    filename: t.filename.clone(),
                    total_size: Some(total),
                    downloaded_bytes: total,
                    status: DownloadStatus::Completed,
                    save_path: t.save_path.clone(),
                };
                self.replace_at(i, updated);
            },
        }
    }

    /// A failed run: at least one worker failed, and the record says why.
    pub fn fail_run(&mut self, id: &String, reason: String)
        ensures
            final(self)@ == spec_fail_run(old(self)@, id@, reason@),
            store_inv(old(self)@) ==> store_inv(final(self)@),
    {
        match self.find_index(id) {
            None => {},
            Some(i) => {
                let t = &self.tasks[i];
                let updated = DownloadTask {
                    id: t.id.clone(),
                    url: t.url.clone(),
                    filename: t.filename.clone(),
                    total_size: t.total_size,
                    downloaded_bytes: t.downloaded_bytes,
                    status: DownloadStatus::Error(reason),
                    save_path: t.save_path.clone(),
                };
                self.replace_at(i, updated);
            },
        }
    }

    /// Deletion of one task's record.
    pub fn remove_id(&mut self, id: &String)
        ensures
            final(self)@ == keep_without_id(old(self)@, id@),
            forall|j: int| 0 <= j < final(self)@.len() ==> (#[trigger] final(self)@[j]).id != id@,
            store_inv(old(self)@) ==> store_inv(final(self)@),
    {
        let mut kept: Vec<DownloadTask> = Vec::new();
        let mut j: usize = 0;
        while j < self.tasks.len()
            invariant
                j <= self.tasks@.len(),
                self@ == old(self)@,
                views_of(kept@) =~= keep_without_id(self@.take(j as int), id@),
            decreases self.tasks@.len() - j,
        {
            let t = &self.tasks[j];
            proof {
                assert(self@.take(j as int + 1).drop_last() =~= self@.take(j as int));
                assert(self@.take(j as int + 1).last() == self@[j as int]);
            }
            if !(t.id == *id) {
                kept.push(t.duplicate());
            }
            proof {
                assert(views_of(kept@) =~= keep_without_id(self@.take(j as int + 1), id@));
            }
            j = j + 1;
        }
        proof {
            assert(self@.take(self.tasks@.len() as int) =~= self@);
            lemma_keep_without_id(old(self)@, id@);
        }
        self.tasks = kept;
    }

    /// Deletion of every completed task's record.
    pub fn remove_completed(&mut self)
        ensures
            final(self)@ == keep_unfinished(old(self)@),
            forall|j: int| 0 <= j < final(self)@.len() ==> !((#[trigger] final(self)@[j]).status is Completed),
            store_inv(old(self)@) ==> store_inv(final(self)@),
    {
        let mut kept: Vec<DownloadTask> = Vec::new();
        let mut j: usize = 0;
        while j < self.tasks.len()
            invariant
                j <= self.tasks@.len(),
                self@ == old(self)@,
                views_of(kept@) =~= keep_unfinished(self@.take(j as int)),
            decreases self.tasks@.len() - j,
        {
            let t = &self.tasks[j];
            proof {
                assert(self@.take(j as int + 1).drop_last() =~= self@.take(j as int));
                assert(self@.take(j as int + 1).last() == self@[j as int]);
            }
            if !matches!(t.status, DownloadStatus::Completed) {
                kept.push(t.duplicate());
            }
            proof {
                assert(views_of(kept@) =~= keep_unfinished(self@.take(j as int + 1)));
            }
            j = j + 1;
        }
        proof {
            assert(self@.take(self.tasks@.len() as int) =~= self@);
            lemma_keep_unfinished(old(self)@);
        }
        self.tasks = kept;
    }

    /// Deletion of every record.
    pub fn clear(&mut self)
        ensures
            final(self)@ == Seq::<TaskView>::empty(),
    {
        self.tasks.clear();
        proof {
            assert(self@ =~= Seq::<TaskView>::empty());
        }
    }
}

} // verus!
