// Unit tests for the pieces of the pipeline: defaults, kind labels, name
// truncation, validation, and line rendering.

use list_dir::default_depth;
use list_dir::default_limit;
use list_dir::default_offset;
use list_dir::entry::format_entry_name;
use list_dir::entry::DirEntry;
use list_dir::kind::DirEntryKind;
use list_dir::paginate::list_dir_slice;
use list_dir::paginate::ListDirError;
use list_dir::ListDirHandler;

#[test]
fn request_defaults() {
    assert_eq!(default_offset(), 1);
    assert_eq!(default_limit(), 2000);
    assert_eq!(default_depth(), 2);
}

#[test]
fn kind_labels() {
    assert_eq!(DirEntryKind::Directory.label(), "[dir]");
    assert_eq!(DirEntryKind::File.label(), "[file]");
    assert_eq!(DirEntryKind::Symlink.label(), "[symlink]");
    assert_eq!(DirEntryKind::Other.label(), "[other]");
}

#[test]
fn kind_from_flags_prefers_symlink() {
    assert_eq!(DirEntryKind::from_flags(true, true, false), DirEntryKind::Symlink);
    assert_eq!(DirEntryKind::from_flags(true, false, true), DirEntryKind::Symlink);
    assert_eq!(DirEntryKind::from_flags(false, true, false), DirEntryKind::Directory);
    assert_eq!(DirEntryKind::from_flags(false, false, true), DirEntryKind::File);
    assert_eq!(DirEntryKind::from_flags(false, false, false), DirEntryKind::Other);
}

#[test]
fn long_ascii_name_is_cut_to_the_bound() {
    let name = vec![b'a'; 600];
    let cut = format_entry_name(name);
    assert_eq!(cut, vec![b'a'; 500]);
}

#[test]
fn name_at_the_bound_is_kept_whole() {
    let name = vec![b'x'; 500];
    let cut = format_entry_name(name.clone());
    assert_eq!(cut, name);
}

#[test]
fn truncation_never_splits_a_character() {
    // 499 ASCII bytes followed by two-byte characters: byte 500 falls in
    // the middle of one, so the cut backs up to byte 499.
    let mut name = vec![b'a'; 499];
    for _ in 0..60 {
        name.extend_from_slice("\u{e9}".as_bytes());
    }
    assert_eq!(name[499], 0xc3);
    assert_eq!(name[500], 0xa9);
    let cut = format_entry_name(name);
    assert_eq!(cut.len(), 499);
    assert_eq!(cut, vec![b'a'; 499]);
    // When the character boundary lands exactly on the bound, all 500
    // bytes stay.
    let mut name = vec![b'b'; 498];
    for _ in 0..60 {
        name.extend_from_slice("\u{e9}".as_bytes());
    }
    let cut = format_entry_name(name);
    assert_eq!(cut.len(), 500);
    assert_eq!(&cut[498..], "\u{e9}".as_bytes());
}

#[test]
fn validate_args_checks_each_field_in_turn() {
    assert_eq!(
        ListDirHandler::validate_args(0, 5, 2, true),
        Err(ListDirError::InvalidOffset)
    );
    assert_eq!(
        ListDirHandler::validate_args(1, 0, 2, true),
        Err(ListDirError::InvalidLimit)
    );
    assert_eq!(
        ListDirHandler::validate_args(1, 5, 0, true),
        Err(ListDirError::InvalidDepth)
    );
    assert_eq!(
        ListDirHandler::validate_args(1, 5, 2, false),
        Err(ListDirError::PathNotAbsolute)
    );
    assert_eq!(ListDirHandler::validate_args(1, 5, 2, true), Ok(()));
}

#[test]
fn error_messages() {
    assert_eq!(
        ListDirError::InvalidOffset.message(),
        "offset must be a 1-indexed entry number"
    );
    assert_eq!(ListDirError::InvalidLimit.message(), "limit must be greater than zero");
    assert_eq!(ListDirError::InvalidDepth.message(), "depth must be greater than zero");
    assert_eq!(
        ListDirError::PathNotAbsolute.message(),
        "dir_path must be an absolute path"
    );
    assert_eq!(ListDirError::DirectoryRead.message(), "failed to read directory");
    assert_eq!(ListDirError::EntryInspect.message(), "failed to inspect entry");
    assert_eq!(
        ListDirError::OffsetOutOfRange.message(),
        "offset exceeds directory entry count"
    );
}

fn entry(name: &str, kind: DirEntryKind) -> DirEntry {
    DirEntry { name: name.as_bytes().to_vec(), kind }
}

#[test]
fn lines_carry_multi_digit_ordinals() {
    let mut entries = Vec::new();
    for i in 0..12 {
        entries.push(entry(&format!("f{i:02}"), DirEntryKind::File));
    }
    let lines = list_dir_slice(entries, 12, 5).expect("page at 12");
    assert_eq!(lines.len(), 1);
    assert_eq!(String::from_utf8(lines[0].clone()).unwrap(), "E12: [file] f11");
}

#[test]
fn sorting_is_lexicographic_on_bytes() {
    let entries = vec![
        entry("b", DirEntryKind::File),
        entry("a/c", DirEntryKind::File),
        entry("a", DirEntryKind::Directory),
        entry("B", DirEntryKind::File),
    ];
    let lines = list_dir_slice(entries, 1, 10).expect("sorted listing");
    let lines: Vec<String> = lines
        .into_iter()
        .map(|l| String::from_utf8(l).unwrap())
        .collect();
    assert_eq!(
        lines,
        vec![
            "E1: [file] B".to_string(),
            "E2: [dir] a".to_string(),
            "E3: [file] a/c".to_string(),
            "E4: [file] b".to_string(),
        ]
    );
}

#[test]
fn offset_at_entry_count_is_the_last_line() {
    let entries = vec![entry("one", DirEntryKind::File), entry("two", DirEntryKind::File)];
    let lines = list_dir_slice(entries, 2, 9).expect("last page");
    assert_eq!(lines.len(), 1);
    assert_eq!(String::from_utf8(lines[0].clone()).unwrap(), "E2: [file] two");
}

#[test]
fn offset_just_past_entry_count_fails() {
    let entries = vec![entry("one", DirEntryKind::File), entry("two", DirEntryKind::File)];
    let err = list_dir_slice(entries, 3, 9).expect_err("past the end");
    assert_eq!(err, ListDirError::OffsetOutOfRange);
}
