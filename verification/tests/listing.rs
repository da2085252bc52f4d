// Scenario tests that drive the traversal state machine over an in-memory
// tree and check the rendered listing.

use list_dir::entry::DirEntry;
use list_dir::paginate::list_dir_slice;
use list_dir::paginate::ListDirError;
use list_dir::traverse::ChildInfo;
use list_dir::traverse::Traversal;

fn child(name: &str, path: &str, k: char) -> ChildInfo {
    ChildInfo {
        name: name.as_bytes().to_vec(),
        path: path.as_bytes().to_vec(),
        is_symlink: k == 'l',
        is_dir: k == 'd',
        is_file: k == 'f',
    }
}

fn run_traversal<F>(tree: F, root: &str, depth: usize) -> Vec<DirEntry>
where
    F: Fn(&str) -> Vec<ChildInfo>,
{
    let mut t = Traversal::new(root.as_bytes().to_vec(), depth);
    loop {
        let item = match t.next_item() {
            Some(item) => item,
            None => break,
        };
        let dir = String::from_utf8(item.dir.clone()).unwrap();
        let children = tree(&dir);
        t.expand(&item, &children);
    }
    t.into_entries()
}

fn lines_to_strings(lines: Vec<Vec<u8>>) -> Vec<String> {
    lines.into_iter().map(|l| String::from_utf8(l).unwrap()).collect()
}

// The tree of `lists_directory_entries`: a file, a symlink, and a nested
// directory chain under the root.
fn sample_tree(dir: &str) -> Vec<ChildInfo> {
    match dir {
        "/root" => vec![
            child("nested", "/root/nested", 'd'),
            child("entry.txt", "/root/entry.txt", 'f'),
            child("link", "/root/link", 'l'),
        ],
        "/root/nested" => vec![
            child("child.txt", "/root/nested/child.txt", 'f'),
            child("deeper", "/root/nested/deeper", 'd'),
        ],
        "/root/nested/deeper" => vec![child("grandchild.txt", "/root/nested/deeper/grandchild.txt", 'f')],
        other => panic!("unexpected directory read: {other}"),
    }
}

// The tree of `respects_depth_parameter`: no symlink, a file at each level.
fn depth_tree(dir: &str) -> Vec<ChildInfo> {
    match dir {
        "/root" => vec![
            child("nested", "/root/nested", 'd'),
            child("root.txt", "/root/root.txt", 'f'),
        ],
        "/root/nested" => vec![
            child("child.txt", "/root/nested/child.txt", 'f'),
            child("deeper", "/root/nested/deeper", 'd'),
        ],
        "/root/nested/deeper" => vec![child("grandchild.txt", "/root/nested/deeper/grandchild.txt", 'f')],
        other => panic!("unexpected directory read: {other}"),
    }
}

#[test]
fn lists_directory_entries() {
    let entries = run_traversal(sample_tree, "/root", 3);
    let lines = list_dir_slice(entries, 1, 20).expect("list directory");
    let expected = vec![
        "E1: [file] entry.txt".to_string(),
        "E2: [symlink] link".to_string(),
        "E3: [dir] nested".to_string(),
        "E4: [file] nested/child.txt".to_string(),
        "E5: [dir] nested/deeper".to_string(),
        "E6: [file] nested/deeper/grandchild.txt".to_string(),
    ];
    assert_eq!(lines_to_strings(lines), expected);
}

#[test]
fn errors_when_offset_exceeds_entries() {
    let entries = run_traversal(
        |dir: &str| match dir {
            "/root" => vec![child("nested", "/root/nested", 'd')],
            "/root/nested" => vec![],
            other => panic!("unexpected directory read: {other}"),
        },
        "/root",
        2,
    );
    let err = list_dir_slice(entries, 10, 1).expect_err("offset exceeds entries");
    assert_eq!(err, ListDirError::OffsetOutOfRange);
    assert_eq!(err.message(), "offset exceeds directory entry count");
}

#[test]
fn respects_depth_parameter() {
    let entries_depth_one = run_traversal(depth_tree, "/root", 1);
    let lines = list_dir_slice(entries_depth_one, 1, 10).expect("list depth 1");
    assert_eq!(
        lines_to_strings(lines),
        vec!["E1: [dir] nested".to_string(), "E2: [file] root.txt".to_string()]
    );

    let entries_depth_two = run_traversal(depth_tree, "/root", 2);
    let lines = list_dir_slice(entries_depth_two, 1, 20).expect("list depth 2");
    assert_eq!(
        lines_to_strings(lines),
        vec![
            "E1: [dir] nested".to_string(),
            "E2: [file] nested/child.txt".to_string(),
            "E3: [dir] nested/deeper".to_string(),
            "E4: [file] root.txt".to_string(),
        ]
    );

    let entries_depth_three = run_traversal(depth_tree, "/root", 3);
    let lines = list_dir_slice(entries_depth_three, 1, 30).expect("list depth 3");
    assert_eq!(
        lines_to_strings(lines),
        vec![
            "E1: [dir] nested".to_string(),
            "E2: [file] nested/child.txt".to_string(),
            "E3: [dir] nested/deeper".to_string(),
            "E4: [file] nested/deeper/grandchild.txt".to_string(),
            "E5: [file] root.txt".to_string(),
        ]
    );
}

#[test]
fn ordinals_form_a_contiguous_run_from_offset() {
    let entries = run_traversal(sample_tree, "/root", 3);
    let lines = list_dir_slice(entries, 3, 2).expect("page starting at 3");
    assert_eq!(
        lines_to_strings(lines),
        vec!["E3: [dir] nested".to_string(), "E4: [file] nested/child.txt".to_string()]
    );
}

#[test]
fn smaller_limit_gives_a_prefix_of_the_larger_page() {
    let entries_small = run_traversal(sample_tree, "/root", 3);
    let entries_large = run_traversal(sample_tree, "/root", 3);
    let small = lines_to_strings(list_dir_slice(entries_small, 2, 2).expect("limit 2"));
    let large = lines_to_strings(list_dir_slice(entries_large, 2, 20).expect("limit 20"));
    assert_eq!(small.len(), 2);
    assert_eq!(small[..], large[..2]);
}

#[test]
fn traversal_twice_gives_identical_output() {
    let first = run_traversal(sample_tree, "/root", 3);
    let second = run_traversal(sample_tree, "/root", 3);
    let a = lines_to_strings(list_dir_slice(first, 1, 20).expect("first run"));
    let b = lines_to_strings(list_dir_slice(second, 1, 20).expect("second run"));
    assert_eq!(a, b);
}

#[test]
fn discovery_order_does_not_change_the_listing() {
    // The same tree reported with each directory's children in another order.
    let reordered = |dir: &str| -> Vec<ChildInfo> {
        let mut children = sample_tree(dir);
        children.reverse();
        children
    };
    let a = run_traversal(sample_tree, "/root", 3);
    let b = run_traversal(reordered, "/root", 3);
    let la = lines_to_strings(list_dir_slice(a, 1, 20).expect("plain order"));
    let lb = lines_to_strings(list_dir_slice(b, 1, 20).expect("reversed order"));
    assert_eq!(la, lb);
}

#[test]
fn empty_directory_lists_as_nothing_whatever_the_window() {
    let entries = run_traversal(
        |dir: &str| match dir {
            "/root" => vec![],
            other => panic!("unexpected directory read: {other}"),
        },
        "/root",
        2,
    );
    let lines = list_dir_slice(entries, 5, 3).expect("empty directory");
    assert!(lines.is_empty());
}

#[test]
fn symlink_to_directory_is_not_expanded() {
    // A symlink whose target is a directory still lists as a symlink, and
    // its target is never read.
    let entries = run_traversal(
        |dir: &str| match dir {
            "/root" => vec![child("portal", "/root/portal", 'l')],
            other => panic!("unexpected directory read: {other}"),
        },
        "/root",
        5,
    );
    let lines = list_dir_slice(entries, 1, 10).expect("list symlink");
    assert_eq!(lines_to_strings(lines), vec!["E1: [symlink] portal".to_string()]);
}
