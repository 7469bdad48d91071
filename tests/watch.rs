use bs_site_builder::watch::{batch_triggers, filter_paths, is_watched, ChangeEvent, ChangeKind};

fn event(kinds: &[ChangeKind], paths: &[&str]) -> ChangeEvent {
    ChangeEvent {
        kinds: kinds.to_vec(),
        paths: paths.iter().map(|s| s.to_string()).collect(),
    }
}

#[test]
fn content_changes_and_creations_qualify() {
    let events = vec![
        event(&[ChangeKind::ContentModified], &["/site/content/a.html"]),
        event(&[ChangeKind::Other], &["/site/content/b.html"]),
        event(&[ChangeKind::Other, ChangeKind::FileCreated], &["/site/content/c.txt"]),
    ];
    assert_eq!(
        filter_paths(&events),
        vec!["/site/content/a.html".to_string(), "/site/content/c.txt".to_string()]
    );
    assert!(batch_triggers(&events));
}

#[test]
fn hidden_and_backup_paths_are_ignored() {
    let events = vec![
        event(&[ChangeKind::ContentModified], &["/site/.git/index"]),
        event(&[ChangeKind::ContentModified], &["/site/content/a.html~"]),
        event(&[ChangeKind::ContentModified], &["/site/content/.a.swp", "/site/content/a.html"]),
    ];
    assert_eq!(filter_paths(&events), vec!["/site/content/a.html".to_string()]);
    assert!(!is_watched("content/.hidden/x.html"));
    assert!(!is_watched("notes.txt~"));
    assert!(is_watched("content/x~y.txt"));
}

#[test]
fn same_path_counts_once() {
    let events = vec![
        event(&[ChangeKind::ContentModified], &["/c/a.html"]),
        event(&[ChangeKind::FileCreated], &["/c/b.html"]),
        event(&[ChangeKind::ContentModified], &["/c/a.html"]),
    ];
    assert_eq!(filter_paths(&events), vec!["/c/a.html".to_string(), "/c/b.html".to_string()]);
}

#[test]
fn batch_without_qualifying_path_triggers_nothing() {
    let events = vec![
        event(&[ChangeKind::Other], &["/c/a.html"]),
        event(&[ChangeKind::ContentModified], &["/c/.hidden"]),
    ];
    assert!(filter_paths(&events).is_empty());
    assert!(!batch_triggers(&events));
    assert!(!batch_triggers(&vec![]));
}
