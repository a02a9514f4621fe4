use desktop_entry_daemon::errors::EntryManagerError;
use desktop_entry_daemon::manager::EntryManager;
use desktop_entry_daemon::store::FileData;
use desktop_entry_daemon::Lifetime;

const ENTRY: &str = "[Desktop Entry]\nType=Application\nName=Example\nExec=example";

fn fresh() -> EntryManager {
    EntryManager::new(String::from("base"))
}

fn text_at(mgr: &EntryManager, path: &str) -> Option<String> {
    match mgr.file_content(&String::from(path)) {
        Some(FileData::Text(t)) => Some(t.clone()),
        Some(FileData::Binary(_)) => None,
        None => None,
    }
}

#[test]
fn register_entry_writes_exact_bytes() {
    let mut mgr = fresh();
    let r = mgr.register_entry(ENTRY, "com.example.App", Lifetime::Process(1234));
    assert!(r.is_ok());
    let stored = text_at(&mgr, "base/applications/com.example.App.desktop");
    assert_eq!(stored.as_deref(), Some(ENTRY));
}

#[test]
fn repeated_registration_collides_and_keeps_first_file() {
    let mut mgr = fresh();
    assert!(mgr.register_entry(ENTRY, "com.example.App", Lifetime::Process(1234)).is_ok());
    let other = "[Desktop Entry]\nType=Application\nName=Other\nExec=other";
    let r = mgr.register_entry(other, "com.example.App", Lifetime::Session);
    match r {
        Err(EntryManagerError::PathCollision(p)) => {
            assert_eq!(p, "base/applications/com.example.App.desktop");
        },
        _ => panic!("expected a path collision"),
    }
    let stored = text_at(&mgr, "base/applications/com.example.App.desktop");
    assert_eq!(stored.as_deref(), Some(ENTRY));
}

#[test]
fn invalid_entry_is_rejected_without_write() {
    let mut mgr = fresh();
    let r = mgr.register_entry("Type=Application", "com.example.App", Lifetime::Session);
    assert!(matches!(r, Err(EntryManagerError::EntryValidation(_))));
    assert!(mgr.file_content(&String::from("base/applications/com.example.App.desktop")).is_none());
}

#[test]
fn remove_lifetime_deletes_files_and_handles() {
    let mut mgr = fresh();
    assert!(mgr.register_entry(ENTRY, "com.example.App", Lifetime::Process(1234)).is_ok());
    assert!(mgr.remove_lifetime(Lifetime::Process(1234)).is_ok());
    assert!(mgr.file_content(&String::from("base/applications/com.example.App.desktop")).is_none());
    assert!(mgr.cache.entries.is_empty());
    // the path is free again: a fresh registration succeeds
    assert!(mgr.register_entry(ENTRY, "com.example.App", Lifetime::Session).is_ok());
}

#[test]
fn remove_unknown_lifetime_is_noop_success() {
    let mut mgr = fresh();
    assert!(mgr.remove_lifetime(Lifetime::Session).is_ok());
    assert!(mgr.remove_lifetime(Lifetime::Process(7)).is_ok());
}

#[test]
fn remove_lifetime_spares_other_lifetimes() {
    let mut mgr = fresh();
    assert!(mgr.register_entry(ENTRY, "com.example.App", Lifetime::Process(1)).is_ok());
    let other = "[Desktop Entry]\nType=Application\nName=Keep\nExec=keep";
    assert!(mgr.register_entry(other, "org.example.Keep", Lifetime::Persistent).is_ok());
    assert!(mgr.remove_lifetime(Lifetime::Process(1)).is_ok());
    let stored = text_at(&mgr, "base/applications/org.example.Keep.desktop");
    assert_eq!(stored.as_deref(), Some(other));
}

#[test]
fn rollback_undoes_the_latest_registration() {
    let mut mgr = fresh();
    assert!(mgr.register_entry(ENTRY, "com.example.App", Lifetime::Session).is_ok());
    let undone = mgr.rollback_entry(Lifetime::Session);
    assert_eq!(undone.as_deref(), Some("base/applications/com.example.App.desktop"));
    assert!(mgr.file_content(&String::from("base/applications/com.example.App.desktop")).is_none());
    // the path is free again
    assert!(mgr.register_entry(ENTRY, "com.example.App", Lifetime::Session).is_ok());
    // nothing to undo under a lifetime with no handles
    assert!(mgr.rollback_entry(Lifetime::Persistent).is_none());
}

#[test]
fn from_pid_builds_process_lifetime() {
    assert_eq!(Lifetime::from_pid(1234), Ok(Lifetime::Process(1234)));
}

#[test]
fn reconciler_tick_removes_dead_process_artifacts() {
    let mut mgr = fresh();
    assert!(mgr.register_entry(ENTRY, "com.example.App", Lifetime::Process(1234)).is_ok());
    let watched = mgr.watched_pids();
    assert!(watched.contains(&1234));
    mgr.reconcile_dead(&vec![1234]);
    assert!(mgr.file_content(&String::from("base/applications/com.example.App.desktop")).is_none());
    assert!(!mgr.watched_pids().contains(&1234));
}

#[test]
fn reconciler_drops_dead_subscribers_without_touching_files() {
    let mut mgr = fresh();
    assert!(mgr.register_entry(ENTRY, "com.example.App", Lifetime::Persistent).is_ok());
    mgr.add_change_handler(42);
    mgr.add_change_handler(42);
    assert!(mgr.watched_pids().contains(&42));
    mgr.reconcile_dead(&vec![42]);
    assert!(!mgr.watched_pids().contains(&42));
    // the persistent artifact survives
    let stored = text_at(&mgr, "base/applications/com.example.App.desktop");
    assert_eq!(stored.as_deref(), Some(ENTRY));
}
