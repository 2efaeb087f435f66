use deploy_core::backup_store::{backup_segments, version_marker_name};
use deploy_core::orchestrate::{
    capture_snapshot, deploy, rollback, store_snapshot_plan, validate_source, OpError, PathFault,
};
use deploy_core::progress::progress_for;
use deploy_core::transfer::Step;
use deploy_core::tree::Node;

fn file(name: &str, data: &[u8]) -> Node {
    Node::File { name: name.to_string(), data: data.to_vec() }
}

fn dir(name: &str, children: Vec<Node>) -> Node {
    Node::Dir { name: name.to_string(), children }
}

fn sends_of(steps: &[Step]) -> Vec<(Vec<String>, Vec<u8>, u64)> {
    let mut out = Vec::new();
    for step in steps {
        if let Step::Send { path, data, seq } = step {
            out.push((path.clone(), data.clone(), *seq));
        }
    }
    out
}

fn flat(nodes: &[Node], base: &[String]) -> Vec<(Vec<String>, Vec<u8>)> {
    let mut out = Vec::new();
    for node in nodes {
        match node {
            Node::File { name, data } => {
                let mut path = base.to_vec();
                path.push(name.clone());
                out.push((path, data.clone()));
            }
            Node::Dir { name, children } => {
                let mut sub = base.to_vec();
                sub.push(name.clone());
                out.extend(flat(children, &sub));
            }
        }
    }
    out
}

#[test]
fn deploy_missing_source_fails_before_any_transfer() {
    let result = deploy(None, None, None);
    match result {
        Err(OpError::Path { fault }) => assert_eq!(fault, PathFault::MissingSource),
        _ => panic!("a missing source path must abort the deploy"),
    }
}

#[test]
fn deploy_empty_tree_fails_before_any_transfer() {
    let empty: Vec<Node> = Vec::new();
    let result = deploy(Some(&empty), None, None);
    match result {
        Err(OpError::Path { fault }) => assert_eq!(fault, PathFault::EmptySource),
        _ => panic!("an empty source tree must abort the deploy"),
    }
    let dirs_only = vec![dir("sub", Vec::new())];
    assert!(matches!(
        validate_source(Some(&dirs_only)),
        Err(OpError::Path { fault: PathFault::EmptySource })
    ));
}

#[test]
fn deploy_to_fresh_remote_skips_backup_and_reports_two_events() {
    // Local tree {a.txt, sub/b.txt}, no pre-existing remote tree: the backup
    // download is a no-op, the upload sends exactly 2 files, and the progress
    // events are 50% then 100%.
    let local = vec![file("a.txt", b"alpha"), dir("sub", vec![file("b.txt", b"beta")])];
    let outcome = deploy(Some(&local), None, None).expect("deploy must succeed");
    assert!(outcome.backup.is_none());
    assert_eq!(outcome.total, 2);
    let sends = sends_of(&outcome.steps);
    assert_eq!(sends.len(), 2);
    let events: Vec<(u64, u8)> = sends
        .iter()
        .map(|s| {
            let p = progress_for(s.2, outcome.total);
            (p.current, p.percent)
        })
        .collect();
    assert_eq!(events, vec![(1, 50), (2, 100)]);
}

#[test]
fn deploy_captures_the_remote_tree_as_the_snapshot() {
    let local = vec![file("new.txt", b"new")];
    let remote = vec![file("old.txt", b"old")];
    let prior = vec![file("stale.txt", b"stale")];
    let outcome = deploy(Some(&local), Some(remote), Some(prior)).expect("deploy must succeed");
    let snapshot = outcome.backup.expect("a present remote tree must be captured");
    assert_eq!(
        flat(&snapshot, &[]),
        vec![(vec!["old.txt".to_string()], b"old".to_vec())]
    );
}

#[test]
fn snapshot_keeps_exactly_one_generation() {
    let remote = vec![file("now.txt", b"now")];
    let replaced = capture_snapshot(Some(remote), Some(vec![file("before.txt", b"before")]));
    assert_eq!(
        flat(&replaced.unwrap(), &[]),
        vec![(vec!["now.txt".to_string()], b"now".to_vec())]
    );
    let kept = capture_snapshot(None, Some(vec![file("before.txt", b"before")]));
    assert_eq!(
        flat(&kept.unwrap(), &[]),
        vec![(vec!["before.txt".to_string()], b"before".to_vec())]
    );
}

#[test]
fn rollback_without_backup_fails_with_backup_missing() {
    let marker = Some(b"{\"version\":\"1\"}".to_vec());
    let result = rollback(marker, None);
    assert!(matches!(result, Err(OpError::BackupMissing)));
}

#[test]
fn rollback_without_marker_fails_with_path_error() {
    let backup = vec![file("a.txt", b"a")];
    let result = rollback(None, Some(backup));
    assert!(matches!(
        result,
        Err(OpError::Path { fault: PathFault::MissingMarker })
    ));
}

#[test]
fn rollback_with_empty_snapshot_fails_before_upload() {
    let marker = Some(b"{\"version\":\"2\"}".to_vec());
    let empty: Vec<Node> = Vec::new();
    assert!(matches!(
        rollback(marker, Some(empty)),
        Err(OpError::Path { fault: PathFault::EmptySource })
    ));
    let dirs_only = vec![dir("sub", Vec::new())];
    assert!(matches!(
        rollback(Some(b"m".to_vec()), Some(dirs_only)),
        Err(OpError::Path { fault: PathFault::EmptySource })
    ));
}

#[test]
fn snapshot_store_clears_the_location_first() {
    let snapshot = vec![file("a.txt", b"fresh")];
    let steps = store_snapshot_plan(&snapshot);
    assert!(matches!(&steps[0], Step::ClearDir { path } if path.is_empty()));
    assert!(matches!(&steps[1], Step::MkDir { path } if path.is_empty()));
    let sends = sends_of(&steps);
    assert_eq!(sends, vec![(vec!["a.txt".to_string()], b"fresh".to_vec(), 1)]);
}

#[test]
fn rollback_sends_marker_first_then_one_event_at_hundred() {
    // Backup snapshot {a.txt}, local version marker present: the marker bytes
    // go first and independently; the bulk upload emits exactly 1 progress
    // event, at 100%.
    let backup = vec![file("a.txt", b"restored")];
    let marker = b"{\"version\":\"7\"}".to_vec();
    let outcome = rollback(Some(marker.clone()), Some(backup)).expect("rollback must succeed");
    assert_eq!(outcome.marker, marker);
    assert_eq!(outcome.total, 1);
    let sends = sends_of(&outcome.steps);
    assert_eq!(sends.len(), 1);
    assert_eq!(sends[0].0, vec!["a.txt".to_string()]);
    assert_eq!(sends[0].1, b"restored".to_vec());
    let p = progress_for(sends[0].2, outcome.total);
    assert_eq!((p.current, p.total, p.percent), (1, 1, 100));
}

#[test]
fn backup_location_is_project_and_environment() {
    let segments = backup_segments("shop", "staging");
    assert_eq!(
        segments,
        vec!["backups".to_string(), "shop".to_string(), "staging".to_string()]
    );
}

#[test]
fn version_marker_has_the_conventional_name() {
    assert_eq!(version_marker_name(), "version.json");
}
