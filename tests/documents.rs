use lspmux_cc_mcp::documents::{fingerprint, DocumentTracker, SyncAction};

#[test]
fn open_change_then_nothing() {
    let mut t = DocumentTracker::new();
    assert_eq!(t.ensure_synced("/tmp/a.rs", "fn main() {}"), Ok(SyncAction::Open { version: 0 }));
    assert_eq!(
        t.ensure_synced("/tmp/a.rs", "fn main() { todo!() }"),
        Ok(SyncAction::Change { version: 1 })
    );
    assert_eq!(t.ensure_synced("/tmp/a.rs", "fn main() { todo!() }"), Ok(SyncAction::Unchanged));
}

#[test]
fn same_text_twice_sends_once() {
    let mut t = DocumentTracker::new();
    assert_eq!(t.ensure_synced("/x.py", "print(1)"), Ok(SyncAction::Open { version: 0 }));
    assert_eq!(t.ensure_synced("/x.py", "print(1)"), Ok(SyncAction::Unchanged));
    assert_eq!(t.ensure_synced("/x.py", "print(2)"), Ok(SyncAction::Change { version: 1 }));
    assert_eq!(t.ensure_synced("/x.py", "print(3)"), Ok(SyncAction::Change { version: 2 }));
    assert_eq!(t.get("/x.py").unwrap().version, 2);
}

#[test]
fn paths_are_tracked_separately() {
    let mut t = DocumentTracker::new();
    assert_eq!(t.sync("/a", 1), Ok(SyncAction::Open { version: 0 }));
    assert_eq!(t.sync("/b", 1), Ok(SyncAction::Open { version: 0 }));
    assert_eq!(t.sync("/a", 2), Ok(SyncAction::Change { version: 1 }));
    assert_eq!(t.get("/b").unwrap().version, 0);
    assert!(t.get("/c").is_none());
}

#[test]
fn fingerprint_depends_on_text_only() {
    assert_eq!(fingerprint("fn main() {}"), fingerprint("fn main() {}"));
    assert_ne!(fingerprint("fn main() {}"), fingerprint("fn main() { todo!() }"));
}
