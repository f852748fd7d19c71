use fetchcore::manager::{make_task, Manager};
use fetchcore::store::TaskStore;
use fetchcore::task::DownloadStatus;

fn sample_manager() -> Manager {
    let mut mgr = Manager::new();
    let t = mgr.submit("id-1".to_string(), "http://host/files/a.bin".to_string());
    assert_eq!(t.filename, "a.bin");
    mgr.submit("id-2".to_string(), "http://host/files/b.bin".to_string());
    mgr
}

fn spawn_handle(rt: &tokio::runtime::Runtime) -> tokio::task::AbortHandle {
    rt.spawn(std::future::pending::<()>()).abort_handle()
}

#[test]
fn submitted_task_is_pending_and_empty() {
    let mut mgr = Manager::new();
    let t = mgr.submit("id-9".to_string(), "http://host/x/y.iso".to_string());
    assert_eq!(t.id, "id-9");
    assert_eq!(t.url, "http://host/x/y.iso");
    assert_eq!(t.filename, "y.iso");
    assert_eq!(t.total_size, None);
    assert_eq!(t.downloaded_bytes, 0);
    assert!(matches!(t.status, DownloadStatus::Pending));
    assert_eq!(t.save_path, "");
    assert_eq!(mgr.list().len(), 1);
}

#[test]
fn begin_run_resets_progress() {
    let mut store = TaskStore::new();
    let mut t = make_task("id-1".to_string(), "http://host/a.bin".to_string());
    t.downloaded_bytes = 777;
    store.insert(t);
    store.begin_run(&"id-1".to_string(), 5000, "/tmp/a.bin".to_string());
    let listed = store.list();
    assert_eq!(listed[0].downloaded_bytes, 0);
    assert_eq!(listed[0].total_size, Some(5000));
    assert_eq!(listed[0].save_path, "/tmp/a.bin");
    assert!(matches!(listed[0].status, DownloadStatus::Downloading));
}

#[test]
fn reporter_writes_only_while_downloading() {
    let mut store = TaskStore::new();
    store.insert(make_task("id-1".to_string(), "http://host/a.bin".to_string()));
    store.begin_run(&"id-1".to_string(), 5000, "/tmp/a.bin".to_string());
    assert!(store.record_progress(&"id-1".to_string(), 1200));
    assert_eq!(store.list()[0].downloaded_bytes, 1200);
    store.mark_paused(&"id-1".to_string());
    assert!(!store.record_progress(&"id-1".to_string(), 4000));
    let listed = store.list();
    assert_eq!(listed[0].downloaded_bytes, 1200);
    assert!(matches!(listed[0].status, DownloadStatus::Paused));
}

#[test]
fn reporter_ticks_never_go_backwards_while_downloading() {
    let mut store = TaskStore::new();
    store.insert(make_task("id-1".to_string(), "http://host/a.bin".to_string()));
    store.begin_run(&"id-1".to_string(), 5000, "/tmp/a.bin".to_string());
    let mut last: u64 = 0;
    for c in [100u64, 250, 250, 4999, 5000] {
        store.record_progress(&"id-1".to_string(), c);
        let seen = store.list()[0].downloaded_bytes;
        assert!(seen >= last);
        last = seen;
    }
}

#[test]
fn finished_run_accounts_every_byte() {
    let mut store = TaskStore::new();
    store.insert(make_task("id-1".to_string(), "http://host/a.bin".to_string()));
    store.begin_run(&"id-1".to_string(), 5000, "/tmp/a.bin".to_string());
    store.finish_run(&"id-1".to_string(), 5000);
    let listed = store.list();
    assert!(matches!(listed[0].status, DownloadStatus::Completed));
    assert_eq!(listed[0].downloaded_bytes, 5000);
    assert_eq!(listed[0].total_size, Some(5000));
}

#[test]
fn failed_run_keeps_reason() {
    let mut store = TaskStore::new();
    store.insert(make_task("id-1".to_string(), "http://host/a.bin".to_string()));
    store.begin_run(&"id-1".to_string(), 5000, "/tmp/a.bin".to_string());
    store.fail_run(&"id-1".to_string(), "connection reset".to_string());
    match &store.list()[0].status {
        DownloadStatus::Error(reason) => assert_eq!(reason, "connection reset"),
        _ => panic!("expected an error status"),
    }
}

#[test]
fn remove_completed_keeps_the_rest() {
    let mut store = TaskStore::new();
    store.insert(make_task("id-1".to_string(), "http://host/a.bin".to_string()));
    store.insert(make_task("id-2".to_string(), "http://host/b.bin".to_string()));
    store.begin_run(&"id-1".to_string(), 10, "/tmp/a.bin".to_string());
    store.finish_run(&"id-1".to_string(), 10);
    store.remove_completed();
    let listed = store.list();
    assert_eq!(listed.len(), 1);
    assert_eq!(listed[0].id, "id-2");
}

#[test]
fn pause_cancels_and_marks() {
    let rt = tokio::runtime::Runtime::new().unwrap();
    let mut mgr = sample_manager();
    mgr.attach_handle("id-1".to_string(), spawn_handle(&rt));
    mgr.pause(&"id-1".to_string());
    let listed = mgr.list();
    assert!(matches!(listed[0].status, DownloadStatus::Paused));
    assert!(matches!(listed[1].status, DownloadStatus::Pending));
}

#[test]
fn resume_goes_back_through_pending() {
    let rt = tokio::runtime::Runtime::new().unwrap();
    let mut mgr = sample_manager();
    mgr.attach_handle("id-1".to_string(), spawn_handle(&rt));
    mgr.pause(&"id-1".to_string());
    let url = mgr.resume(&"id-1".to_string());
    assert_eq!(url.as_deref(), Some("http://host/files/a.bin"));
    assert!(matches!(mgr.list()[0].status, DownloadStatus::Pending));
    mgr.store.begin_run(&"id-1".to_string(), 900, "/tmp/a.bin".to_string());
    let fresh = mgr.list();
    assert!(matches!(fresh[0].status, DownloadStatus::Downloading));
    assert_eq!(fresh[0].downloaded_bytes, 0);
}

#[test]
fn resume_of_unknown_id_is_a_no_op() {
    let mut mgr = sample_manager();
    assert!(mgr.resume(&"missing".to_string()).is_none());
    assert_eq!(mgr.list().len(), 2);
}

#[test]
fn delete_removes_record_and_handle() {
    let rt = tokio::runtime::Runtime::new().unwrap();
    let mut mgr = sample_manager();
    mgr.attach_handle("id-1".to_string(), spawn_handle(&rt));
    mgr.delete(&"id-1".to_string());
    let listed = mgr.list();
    assert_eq!(listed.len(), 1);
    assert_eq!(listed[0].id, "id-2");
}

#[test]
fn delete_all_leaves_nothing() {
    let rt = tokio::runtime::Runtime::new().unwrap();
    let mut mgr = sample_manager();
    mgr.attach_handle("id-1".to_string(), spawn_handle(&rt));
    mgr.attach_handle("id-2".to_string(), spawn_handle(&rt));
    mgr.delete_all();
    assert!(mgr.list().is_empty());
}

#[test]
fn registering_twice_keeps_one_handle() {
    let rt = tokio::runtime::Runtime::new().unwrap();
    let mut mgr = sample_manager();
    mgr.attach_handle("id-1".to_string(), spawn_handle(&rt));
    mgr.attach_handle("id-1".to_string(), spawn_handle(&rt));
    mgr.pause(&"id-1".to_string());
    mgr.delete_all();
    assert!(mgr.list().is_empty());
}

#[test]
fn duplicate_copies_every_field() {
    let mut t = make_task("id-7".to_string(), "http://host/d/e.bin".to_string());
    t.total_size = Some(42);
    t.downloaded_bytes = 17;
    t.status = DownloadStatus::Error("boom".to_string());
    t.save_path = "/tmp/e.bin".to_string();
    let c = t.duplicate();
    assert_eq!(c.id, t.id);
    assert_eq!(c.url, t.url);
    assert_eq!(c.filename, "e.bin");
    assert_eq!(c.total_size, Some(42));
    assert_eq!(c.downloaded_bytes, 17);
    assert!(matches!(c.status, DownloadStatus::Error(ref r) if r == "boom"));
    assert_eq!(c.save_path, "/tmp/e.bin");
}

#[test]
fn list_is_a_snapshot_copy() {
    let mut store = TaskStore::new();
    store.insert(make_task("id-1".to_string(), "http://host/a.bin".to_string()));
    let snapshot = store.list();
    store.begin_run(&"id-1".to_string(), 10, "/tmp/a.bin".to_string());
    assert!(matches!(snapshot[0].status, DownloadStatus::Pending));
    assert!(matches!(store.list()[0].status, DownloadStatus::Downloading));
}
