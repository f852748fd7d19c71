//! The control plane around one store and one registry: submission, pause,
//! resume, deletion, and the cancel-before-mutate order each of them keeps.
use vstd::prelude::*;
use crate::registry::{first_key, registry_inv, ControlRegistry};
use crate::store::{
    first_with_id, keep_unfinished, keep_without_id, spec_set_status, store_inv, views_of,
    TaskStore,
};
use crate::task::{DownloadStatus, DownloadTask, StatusView, TaskView};
use crate::text::{derive_filename, spec_filename};

verus! {

/// The view of a freshly submitted record: pending, unsized, with its
/// filename already derived from the URL.
pub open spec fn pending_task_view(id: Seq<char>, url: Seq<char>) -> TaskView {
    TaskView {
        id: id,
        url: url,
        filename: spec_filename(url),
        total_size: None,
        downloaded_bytes: 0,
        status: StatusView::Pending,
        save_path: Seq::empty(),
    }
}

/// A fresh record for a submitted URL.
pub fn make_task(id: String, url: String) -> (t: DownloadTask)
    ensures
        t@ == pending_task_view(id@, url@),
{
    let filename = derive_filename(url.as_str());
    DownloadTask {
        id,
        url,
        filename,
        total_size: None,
        downloaded_bytes: 0,
        status: DownloadStatus::Pending,
        save_path: String::new(),
    }
}

/// One store and one registry, acting together. A lock around the whole
/// manager belongs to the caller.
pub struct Manager {
    pub store: TaskStore,
    pub registry: ControlRegistry,
}

impl Manager {
    /// An empty control plane.
    pub fn new() -> (r: Self)
        ensures
            r.store@ == Seq::<TaskView>::empty(),
            r.registry@ == Seq::<Seq<char>>::empty(),
            registry_inv(r.registry@),
            store_inv(r.store@),
    {
        Manager { store: TaskStore::new(), registry: ControlRegistry::new() }
    }

    /// Submission: a new pending record enters the store and a copy of it is
    /// handed back. The caller then launches an engine run for it and
    /// registers the run's handle.
    pub fn submit(&mut self, id: String, url: String) -> (t: DownloadTask)
        ensures
            final(self).store@ == old(self).store@.push(pending_task_view(id@, url@)),
            final(self).registry@ == old(self).registry@,
            t@ == pending_task_view(id@, url@),
            store_inv(old(self).store@) ==> store_inv(final(self).store@),
    {
        let t = make_task(id, url);
        let copy = t.duplicate();
        self.store.insert(t);
        copy
    }

    /// Holds the cancellation handle of the engine run now driving a task.
    pub fn attach_handle(&mut self, id: String, handle: tokio::task::AbortHandle)
        ensures
            final(self).store@ == old(self).store@,
            final(self).registry@ == if first_key(old(self).registry@, id@) >= 0 {
                old(self).registry@
            } else {
                old(self).registry@.push(id@)
            },
            final(self).registry@.contains(id@),
            registry_inv(old(self).registry@) ==> registry_inv(final(self).registry@),
    {
        self.registry.register(id, handle);
    }

    /// Pause: the run is cancelled through the registry first, and only then
    /// is the forced status recorded, so a late reporter tick cannot
    /// overwrite it.
    pub fn pause(&mut self, id: &String)
        ensures
            final(self).store@ == spec_set_status(old(self).store@, id@, StatusView::Paused),
            final(self).registry@ == if first_key(old(self).registry@, id@) < 0 {
                old(self).registry@
            } else {
                old(self).registry@.remove(first_key(old(self).registry@, id@))
            },
            registry_inv(old(self).registry@) ==> registry_inv(final(self).registry@)
                && !final(self).registry@.contains(id@),
            store_inv(old(self).store@) ==> store_inv(final(self).store@),
    {
        let _found = self.registry.cancel(id);
        self.store.mark_paused(id);
    }

    /// Resume: the record goes back to pending and its url is handed out; the
    /// caller spawns a fresh engine run, which restarts from byte zero, and
    /// registers its handle.
    pub fn resume(&mut self, id: &String) -> (r: Option<String>)
        ensures
            final(self).store@ == spec_set_status(old(self).store@, id@, StatusView::Pending),
            final(self).registry@ == old(self).registry@,
            store_inv(old(self).store@) ==> store_inv(final(self).store@),
            match r {
                Some(url) => first_with_id(old(self).store@, id@) >= 0 && url@ == old(self).store@[
                    first_with_id(old(self).store@, id@)
                ].url,
                None => first_with_id(old(self).store@, id@) == -1,
            },
    {
        self.store.mark_pending(id)
    }

    /// Deletion of one task: its run is cancelled through the registry
    /// first, then its record removed.
    pub fn delete(&mut self, id: &String)
        ensures
            final(self).store@ == keep_without_id(old(self).store@, id@),
            forall|j: int|
                0 <= j < final(self).store@.len() ==> (#[trigger] final(self).store@[j]).id != id@,
            final(self).registry@ == if first_key(old(self).registry@, id@) < 0 {
                old(self).registry@
            } else {
                old(self).registry@.remove(first_key(old(self).registry@, id@))
            },
            registry_inv(old(self).registry@) ==> registry_inv(final(self).registry@)
                && !final(self).registry@.contains(id@),
            store_inv(old(self).store@) ==> store_inv(final(self).store@),
    {
        let _found = self.registry.cancel(id);
        self.store.remove_id(id);
    }

    /// Deletion of completed tasks only: none of them has a live run, so the
    /// registry is untouched.
    pub fn delete_completed(&mut self)
        ensures
            final(self).store@ == keep_unfinished(old(self).store@),
            forall|j: int|
                0 <= j < final(self).store@.len() ==> !((#[trigger] final(self).store@[j]).status
                    is Completed),
            final(self).registry@ == old(self).registry@,
            store_inv(old(self).store@) ==> store_inv(final(self).store@),
    {
        self.store.remove_completed();
    }

    /// Deletion of everything: every live run is cancelled before the store
    /// is cleared, and both end empty.
    pub fn delete_all(&mut self)
        ensures
            final(self).store@ == Seq::<TaskView>::empty(),
            final(self).registry@ == Seq::<Seq<char>>::empty(),
            store_inv(final(self).store@),
            registry_inv(final(self).registry@),
    {
        self.registry.cancel_all();
        self.store.clear();
    }

    /// A snapshot of every record, for display.
    pub fn list(&self) -> (r: Vec<DownloadTask>)
        ensures
            views_of(r@) == self.store@,
    {
        self.store.list()
    }
}

} // verus!
