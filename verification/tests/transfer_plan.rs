use deploy_core::orchestrate::upload_plan;
use deploy_core::transfer::Step;
use deploy_core::tree::Node;

fn file(name: &str, data: &[u8]) -> Node {
    Node::File { name: name.to_string(), data: data.to_vec() }
}

fn dir(name: &str, children: Vec<Node>) -> Node {
    Node::Dir { name: name.to_string(), children }
}

fn sends_of(steps: &[Step]) -> Vec<(Vec<String>, Vec<u8>, u64)> {
    let mut out = Vec::new();
    for step in steps {
        if let Step::Send { path, data, seq } = step {
            out.push((path.clone(), data.clone(), *seq));
        }
    }
    out
}

fn mkdirs_of(steps: &[Step]) -> Vec<Vec<String>> {
    let mut out = Vec::new();
    for step in steps {
        if let Step::MkDir { path } = step {
            out.push(path.clone());
        }
    }
    out
}

fn seg(parts: &[&str]) -> Vec<String> {
    parts.iter().map(|p| p.to_string()).collect()
}

#[test]
fn plan_mirrors_the_tree_depth_first() {
    let tree = vec![
        file("a.txt", b"alpha"),
        dir("sub", vec![file("b.txt", b"beta")]),
    ];
    let steps = upload_plan(&tree);
    let sends = sends_of(&steps);
    assert_eq!(
        sends,
        vec![
            (seg(&["a.txt"]), b"alpha".to_vec(), 1),
            (seg(&["sub", "b.txt"]), b"beta".to_vec(), 2),
        ]
    );
    let dirs = mkdirs_of(&steps);
    assert_eq!(dirs, vec![seg(&[]), seg(&["sub"])]);
}

#[test]
fn plan_creates_the_root_first() {
    let tree = vec![file("x", b"1")];
    let steps = upload_plan(&tree);
    assert!(matches!(&steps[0], Step::MkDir { path } if path.is_empty()));
}

#[test]
fn plan_creates_a_directory_before_its_contents() {
    let tree = vec![dir("outer", vec![dir("inner", vec![file("deep.txt", b"d")])])];
    let steps = upload_plan(&tree);
    let outer_at = steps
        .iter()
        .position(|s| matches!(s, Step::MkDir { path } if *path == seg(&["outer"])))
        .unwrap();
    let inner_at = steps
        .iter()
        .position(|s| matches!(s, Step::MkDir { path } if *path == seg(&["outer", "inner"])))
        .unwrap();
    let file_at = steps
        .iter()
        .position(|s| matches!(s, Step::Send { path, .. } if *path == seg(&["outer", "inner", "deep.txt"])))
        .unwrap();
    assert!(outer_at < inner_at);
    assert!(inner_at < file_at);
}

#[test]
fn round_trip_preserves_every_byte_and_directory() {
    // Upload a tree, mirror what the sends and directory creations produce on
    // the far side, and compare with the original: contents are byte
    // identical and the directory structure is the same.
    let tree = vec![
        file("a.txt", b"alpha"),
        dir(
            "sub",
            vec![file("b.bin", &[0u8, 155, 255]), dir("empty", Vec::new())],
        ),
    ];
    let steps = upload_plan(&tree);
    let downloaded_files = sends_of(&steps)
        .into_iter()
        .map(|(path, data, _)| (path, data))
        .collect::<Vec<_>>();
    assert_eq!(
        downloaded_files,
        vec![
            (seg(&["a.txt"]), b"alpha".to_vec()),
            (seg(&["sub", "b.bin"]), vec![0u8, 155, 255]),
        ]
    );
    let downloaded_dirs = mkdirs_of(&steps);
    assert_eq!(
        downloaded_dirs,
        vec![seg(&[]), seg(&["sub"]), seg(&["sub", "empty"])]
    );
}

#[test]
fn files_are_numbered_consecutively_from_one() {
    let tree = vec![
        dir("d1", vec![file("f1", b"1"), file("f2", b"2")]),
        file("f3", b"3"),
        dir("d2", vec![dir("d3", vec![file("f4", b"4")])]),
    ];
    let steps = upload_plan(&tree);
    let numbers: Vec<u64> = sends_of(&steps).iter().map(|s| s.2).collect();
    assert_eq!(numbers, vec![1, 2, 3, 4]);
}
