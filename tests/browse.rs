use std::io::Write;
use targ::app::{handle_key_events, App, Key};
use targ::archive::{
    contents_from_records, entries_from_records, is_gzip_name, read_tar_contents, ArchiveError,
    TarRecord,
};
use targ::entry::{Args, EntryKind, FileOrDir, RawEntry, Timestamp};
use targ::nav::list_children;
use targ::path::{is_indicator_path, join_path, parent_path, split_path, trim_trailing_slashes};
use targ::tree::build_tree;

fn rec(path: &str, is_dir: bool, size: u64, mtime: u64) -> TarRecord {
    TarRecord { path: path.to_string(), is_dir, size, mtime: Some(mtime) }
}

fn file(path: &str, size: u64, secs: u64) -> FileOrDir {
    FileOrDir::File { path: path.to_string(), size, modified: Timestamp { secs } }
}

fn dir(path: &str, children: Vec<FileOrDir>) -> FileOrDir {
    FileOrDir::Dir { path: path.to_string(), expanded: false, children }
}

fn args() -> Args {
    Args { tar_file: "x.tar".to_string(), show_indicator: false, debug: false }
}

fn segs(parts: &[&str]) -> Vec<String> {
    parts.iter().map(|s| s.to_string()).collect()
}

fn paths(items: &[&FileOrDir]) -> Vec<String> {
    items.iter().map(|e| e.path().to_string()).collect()
}

fn tar_bytes(entries: &[(&str, bool, &[u8])]) -> Vec<u8> {
    let mut builder = tar::Builder::new(Vec::new());
    for (path, is_dir, data) in entries {
        let mut header = tar::Header::new_gnu();
        header.set_path(path).unwrap();
        header.set_entry_type(if *is_dir { tar::EntryType::Directory } else { tar::EntryType::Regular });
        header.set_size(data.len() as u64);
        header.set_mtime(1_700_000_000);
        header.set_mode(0o644);
        header.set_cksum();
        builder.append(&header, *data).unwrap();
    }
    builder.into_inner().unwrap()
}

fn gzip(bytes: &[u8]) -> Vec<u8> {
    let mut enc = flate2::write::GzEncoder::new(Vec::new(), flate2::Compression::default());
    enc.write_all(bytes).unwrap();
    enc.finish().unwrap()
}

fn docs_records() -> Vec<TarRecord> {
    vec![rec("docs/", true, 0, 5), rec("docs/readme.txt", false, 12, 7), rec("bin/", true, 0, 9)]
}

#[test]
fn example_end_to_end() {
    let tree = contents_from_records(&docs_records(), false).unwrap();
    assert_eq!(
        tree,
        vec![
            FileOrDir::Dir {
                path: "docs".to_string(),
                expanded: false,
                children: vec![file("docs/readme.txt", 12, 7)],
            },
            FileOrDir::Dir { path: "bin".to_string(), expanded: false, children: vec![] },
        ]
    );
    let mut app = App::new(args(), tree);
    assert_eq!(paths(&app.display_contents()), vec!["docs", "bin"]);
    app.enter_directory();
    assert_eq!(app.current_path, segs(&["docs"]));
    assert_eq!(app.display_contents(), vec![&file("docs/readme.txt", 12, 7)]);
    app.go_back();
    assert!(app.current_path.is_empty());
    assert_eq!(app.selected, Some(0));
    assert_eq!(paths(&app.display_contents()), vec!["docs", "bin"]);
}

#[test]
fn example_end_to_end_from_tar_bytes() {
    let bytes = tar_bytes(&[("docs/", true, b""), ("docs/readme.txt", false, b"hello"), ("bin/", true, b"")]);
    let tree = read_tar_contents("a.tar", &bytes, false).unwrap();
    assert_eq!(tree.len(), 2);
    assert_eq!(tree[0].path(), "docs");
    assert_eq!(tree[1].path(), "bin");
    match &tree[0] {
        FileOrDir::Dir { children, .. } => {
            assert_eq!(children, &vec![file("docs/readme.txt", 5, 1_700_000_000)]);
        }
        FileOrDir::File { .. } => panic!("docs should be a directory"),
    }
}

#[test]
fn gzip_archive_is_decoded_by_name() {
    let bytes = tar_bytes(&[("docs/", true, b""), ("docs/readme.txt", false, b"hello"), ("bin/", true, b"")]);
    let plain = read_tar_contents("a.tar", &bytes, false).unwrap();
    let packed = gzip(&bytes);
    let decoded = read_tar_contents("dir/a.tar.gz", &packed, false).unwrap();
    assert_eq!(plain, decoded);
    assert!(matches!(read_tar_contents("a.tar", &packed, false), Err(ArchiveError::Io(_))));
}

#[test]
fn bad_gzip_is_an_io_error() {
    let r = read_tar_contents("a.tgz.gz", &vec![1, 2, 3, 4], false);
    assert!(matches!(r, Err(ArchiveError::Io(_))));
}

#[test]
fn empty_directory_path_is_malformed() {
    let records = vec![rec("/", true, 0, 0), rec("a", false, 1, 0)];
    assert!(matches!(contents_from_records(&records, false), Err(ArchiveError::Malformed)));
    let files_only = vec![rec("/", false, 0, 0)];
    assert_eq!(contents_from_records(&files_only, false).unwrap(), vec![file("", 0, 0)]);
}

#[test]
fn indicator_files_hidden() {
    let records = vec![rec("a/", true, 0, 0), rec("a/._b", false, 1, 0), rec("a/b", false, 2, 0)];
    let tree = contents_from_records(&records, false).unwrap();
    let listed = list_children(&tree, &segs(&["a"]));
    assert_eq!(paths(&listed), vec!["a/b"]);
}

#[test]
fn indicator_files_shown() {
    let records = vec![rec("a/", true, 0, 0), rec("a/._b", false, 1, 0), rec("a/b", false, 2, 0)];
    let tree = contents_from_records(&records, true).unwrap();
    let listed = list_children(&tree, &segs(&["a"]));
    assert_eq!(paths(&listed), vec!["a/._b", "a/b"]);
}

#[test]
fn hidden_indicator_directory_takes_its_children() {
    let records = vec![rec("._x/", true, 0, 0), rec("._x/y", false, 1, 0), rec("z", false, 1, 0)];
    let tree = contents_from_records(&records, false).unwrap();
    assert_eq!(tree, vec![file("z", 1, 0)]);
}

#[test]
fn missing_time_is_epoch() {
    let records = vec![TarRecord { path: "f".to_string(), is_dir: false, size: 3, mtime: None }];
    let raws = entries_from_records(&records, false);
    assert_eq!(
        raws,
        vec![RawEntry {
            kind: EntryKind::File,
            path: "f".to_string(),
            size: 3,
            modified: Timestamp { secs: 0 }
        }]
    );
}

#[test]
fn root_listing_is_slashless_entries_in_order() {
    let records = vec![
        rec("z", false, 1, 0),
        rec("d/", true, 0, 0),
        rec("d/inner", false, 2, 0),
        rec("a", false, 3, 0),
        rec("d/sub/", true, 0, 0),
    ];
    let tree = contents_from_records(&records, false).unwrap();
    assert_eq!(paths(&list_children(&tree, &vec![])), vec!["z", "d", "a"]);
    assert_eq!(paths(&list_children(&tree, &segs(&["d"]))), vec!["d/inner", "d/sub"]);
    assert!(list_children(&tree, &segs(&["d", "sub"])).is_empty());
    assert!(list_children(&tree, &segs(&["a"])).is_empty());
    assert!(list_children(&tree, &segs(&["nowhere"])).is_empty());
}

fn walk(forest: &[FileOrDir], parent: &str) {
    for e in forest {
        assert_eq!(parent_path(e.path()), parent);
        if let FileOrDir::Dir { path, children, .. } = e {
            walk(children, path);
        }
    }
}

#[test]
fn children_name_their_parent() {
    let records = vec![
        rec("d/", true, 0, 0),
        rec("d/e/", true, 0, 0),
        rec("d/e/f", false, 1, 0),
        rec("d/g", false, 1, 0),
    ];
    let tree = contents_from_records(&records, false).unwrap();
    walk(&tree, "");
    assert_eq!(
        tree,
        vec![dir("d", vec![dir("d/e", vec![file("d/e/f", 1, 0)]), file("d/g", 1, 0)])]
    );
}

#[test]
fn missing_parent_directory_drops_entry() {
    let records = vec![rec("x/y", false, 1, 0), rec("top", false, 1, 0)];
    let tree = contents_from_records(&records, false).unwrap();
    assert_eq!(tree, vec![file("top", 1, 0)]);
}

#[test]
fn nested_enter_and_back_round_trip() {
    let records = vec![rec("d/", true, 0, 0), rec("d/e/", true, 0, 0), rec("d/e/f", false, 1, 0)];
    let tree = build_tree(&entries_from_records(&records, false)).unwrap();
    let mut app = App::new(args(), tree);
    app.enter_directory();
    assert_eq!(app.current_path, segs(&["d"]));
    let before = app.current_path.clone();
    app.enter_directory();
    assert_eq!(app.current_path, segs(&["d", "e"]));
    assert_eq!(paths(&app.display_contents()), vec!["d/e/f"]);
    app.go_back();
    assert_eq!(app.current_path, before);
    assert_eq!(app.selected, Some(0));
}

#[test]
fn entering_a_file_or_going_back_at_root_changes_nothing() {
    let mut app = App::new(args(), vec![file("f", 1, 0)]);
    app.enter_directory();
    assert!(app.current_path.is_empty());
    app.go_back();
    assert!(app.current_path.is_empty());
    app.selected = Some(4);
    app.enter_directory();
    assert!(app.current_path.is_empty());
    assert_eq!(app.selected, Some(4));
}

#[test]
fn move_up_single_row_selects_it() {
    let mut app = App::new(args(), vec![file("f", 1, 0)]);
    app.move_up();
    assert_eq!(app.selected, Some(0));
    app.selected = None;
    app.move_up();
    assert_eq!(app.selected, Some(0));
}

#[test]
fn move_up_single_row_from_past_the_end() {
    let mut app = App::new(args(), vec![file("f", 1, 0)]);
    app.selected = Some(5);
    app.move_up();
    assert_eq!(app.selected, Some(0));
    app.move_up();
    assert_eq!(app.selected, Some(0));
}

#[test]
fn move_up_from_past_the_end_goes_to_last_row() {
    let mut app = App::new(args(), vec![file("a", 1, 0), file("b", 1, 0), file("c", 1, 0)]);
    app.selected = Some(7);
    app.move_up();
    assert_eq!(app.selected, Some(2));
}

#[test]
fn wrap_around_three_rows() {
    let tree = vec![file("a", 1, 0), file("b", 1, 0), file("c", 1, 0)];
    let mut app = App::new(args(), tree);
    app.selected = Some(0);
    app.move_up();
    assert_eq!(app.selected, Some(2));
    app.selected = Some(2);
    app.move_down();
    assert_eq!(app.selected, Some(0));
    app.move_down();
    assert_eq!(app.selected, Some(1));
    app.move_up();
    assert_eq!(app.selected, Some(0));
}

#[test]
fn moving_in_an_empty_listing_keeps_selection() {
    let mut app = App::new(args(), vec![]);
    app.move_up();
    assert_eq!(app.selected, Some(0));
    app.move_down();
    assert_eq!(app.selected, Some(0));
}

#[test]
fn keys_drive_navigation() {
    let tree = vec![dir("d", vec![file("d/x", 1, 0), file("d/y", 1, 0)]), file("f", 1, 0)];
    let mut app = App::new(args(), tree);
    handle_key_events(Key::Char('j'), &mut app);
    assert_eq!(app.selected, Some(1));
    handle_key_events(Key::Up, &mut app);
    assert_eq!(app.selected, Some(0));
    handle_key_events(Key::Right, &mut app);
    assert_eq!(app.current_path, segs(&["d"]));
    handle_key_events(Key::Char('k'), &mut app);
    assert_eq!(app.selected, Some(1));
    handle_key_events(Key::Char('x'), &mut app);
    assert_eq!(app.selected, Some(1));
    handle_key_events(Key::Left, &mut app);
    assert!(app.current_path.is_empty());
    assert!(app.running);
    handle_key_events(Key::Char('q'), &mut app);
    assert!(!app.running);
}

#[test]
fn path_helpers() {
    assert_eq!(trim_trailing_slashes("a/b//"), "a/b");
    assert_eq!(trim_trailing_slashes("a"), "a");
    assert_eq!(parent_path("a/b/c"), "a/b");
    assert_eq!(parent_path("c"), "");
    assert_eq!(split_path("a/b/c"), segs(&["a", "b", "c"]));
    assert_eq!(split_path("a"), segs(&["a"]));
    assert_eq!(join_path(&segs(&["a", "b"])), "a/b");
    assert_eq!(join_path(&vec![]), "");
    assert!(is_indicator_path("x/._y"));
    assert!(!is_indicator_path("._x/y"));
    assert!(is_gzip_name("dir/a.tar.gz"));
    assert!(!is_gzip_name(".gz"));
    assert!(!is_gzip_name("a.tar"));
    assert!(!is_gzip_name("a.gz/b"));
}
