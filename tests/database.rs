use source_db::{Database, FileCache, FileId, ParseDatabase, SourceDatabase};

fn db_with(text: &str) -> Database {
    let mut db = Database::new();
    db.set_file_name(FileId(0), "sample.rs".to_string());
    db.set_source_text(FileId(0), text.to_string());
    db
}

#[test]
fn end_to_end_scenario() {
    let mut db = db_with("line0\nline1\nline2\n");
    let f = FileId(0);
    assert_eq!(db.source_length(f), Some(18));
    assert_eq!(db.line_starts(f), Some(vec![0, 6, 12, 18]));
    assert_eq!(db.line_index(f, 7), Some(1));
    assert_eq!(db.line_range(f, 1), Some(6..12));
}

#[test]
fn database_line_starts_examples() {
    let f = FileId(0);
    assert_eq!(db_with("ab\ncd\n").line_starts(f), Some(vec![0, 3, 6]));
    assert_eq!(db_with("").line_starts(f), Some(vec![0]));
    assert_eq!(db_with("ab\ncd").line_starts(f), Some(vec![0, 3]));
}

#[test]
fn unset_inputs_are_absent() {
    let mut db = Database::default();
    let f = FileId(7);
    assert_eq!(db.file_name(f), None);
    assert_eq!(db.source_text(f), None);
    assert_eq!(db.source_length(f), None);
    assert_eq!(db.line_starts(f), None);
    assert_eq!(db.line_start(f, 0), None);
    assert_eq!(db.line_index(f, 0), None);
    assert_eq!(db.line_range(f, 0), None);
    db.set_file_name(f, "only_name.rs".to_string());
    assert_eq!(db.file_name(f), Some("only_name.rs".to_string()));
    assert_eq!(db.source_length(f), None);
    assert_eq!(db.computations(), 0);
}

#[test]
fn second_read_is_memoized() {
    let mut db = db_with("a\nb\nc");
    let f = FileId(0);
    let first = db.line_starts(f);
    assert_eq!(db.computations(), 1);
    let second = db.line_starts(f);
    assert_eq!(first, second);
    assert_eq!(db.computations(), 1);
    assert_eq!(db.line_index(f, 3), Some(1));
    assert_eq!(db.computations(), 2);
    assert_eq!(db.line_index(f, 3), Some(1));
    assert_eq!(db.computations(), 2);
    assert_eq!(db.line_range(f, 2), Some(4..5));
    assert_eq!(db.computations(), 4);
    assert_eq!(db.line_range(f, 2), Some(4..5));
    assert_eq!(db.computations(), 4);
    assert_eq!(db.line_start(f, 1), Some(2));
    assert_eq!(db.line_start(f, 1), Some(2));
    assert_eq!(db.computations(), 5);
    assert_eq!(db.source_length(f), Some(5));
    assert_eq!(db.computations(), 5);
    assert_eq!(db.line_range(f, 9), None);
    assert_eq!(db.line_range(f, 9), None);
    assert_eq!(db.computations(), 6);
}

#[test]
fn new_text_invalidates_derived_values() {
    let mut db = db_with("ab\ncd\n");
    let f = FileId(0);
    assert_eq!(db.line_starts(f), Some(vec![0, 3, 6]));
    assert_eq!(db.line_range(f, 1), Some(3..6));
    let before = db.computations();
    db.set_source_text(f, "x\ny\nzz".to_string());
    assert_eq!(db.line_starts(f), Some(vec![0, 2, 4]));
    assert_eq!(db.computations(), before + 1);
    assert_eq!(db.source_length(f), Some(6));
    assert_eq!(db.line_range(f, 1), Some(2..4));
    assert_eq!(db.line_range(f, 2), Some(4..6));
    assert_eq!(db.line_index(f, 5), Some(2));
}

#[test]
fn new_name_keeps_derived_values() {
    let mut db = db_with("ab\ncd\n");
    let f = FileId(0);
    assert_eq!(db.line_starts(f), Some(vec![0, 3, 6]));
    let before = db.computations();
    db.set_file_name(f, "renamed.rs".to_string());
    assert_eq!(db.file_name(f), Some("renamed.rs".to_string()));
    assert_eq!(db.line_starts(f), Some(vec![0, 3, 6]));
    assert_eq!(db.computations(), before);
}

#[test]
fn writes_bump_the_revision() {
    let mut db = Database::new();
    assert_eq!(db.revision(), 0);
    db.set_file_name(FileId(1), "a.rs".to_string());
    db.set_source_text(FileId(1), "x".to_string());
    db.set_source_text(FileId(1), "y".to_string());
    assert_eq!(db.revision(), 3);
}

#[test]
fn files_are_kept_apart() {
    let mut db = Database::new();
    db.set_source_text(FileId(1), "a\nb\n".to_string());
    db.set_source_text(FileId(2), "abc".to_string());
    assert_eq!(db.line_starts(FileId(1)), Some(vec![0, 2, 4]));
    assert_eq!(db.line_starts(FileId(2)), Some(vec![0]));
    db.set_source_text(FileId(2), "\n".to_string());
    assert_eq!(db.line_starts(FileId(1)), Some(vec![0, 2, 4]));
    assert_eq!(db.line_starts(FileId(2)), Some(vec![0, 1]));
    assert_eq!(db.source_text(FileId(1)), Some("a\nb\n".to_string()));
}

#[test]
fn line_start_sentinel_and_out_of_range() {
    let mut db = db_with("ab\ncd");
    let f = FileId(0);
    assert_eq!(db.line_start(f, 0), Some(0));
    assert_eq!(db.line_start(f, 1), Some(3));
    assert_eq!(db.line_start(f, 2), Some(5));
    assert_eq!(db.line_start(f, 3), None);
}

#[test]
fn last_range_ends_at_source_length() {
    let mut db = db_with("first\nsecond line");
    let f = FileId(0);
    let last = db.line_starts(f).unwrap().len() - 1;
    let length = db.source_length(f).unwrap();
    assert_eq!(db.line_range(f, last).unwrap().end, length);
    assert_eq!(db.line_range(f, last + 1), None);
}

#[test]
fn round_trip_through_database() {
    let mut db = db_with("line0\nline1\nline2\n");
    let f = FileId(0);
    let n = db.line_starts(f).unwrap().len();
    for i in 0..n {
        let b = db.line_start(f, i).unwrap();
        assert_eq!(db.line_index(f, b), Some(i));
    }
}

#[test]
fn line_index_past_end_of_file() {
    let mut db = db_with("ab\ncd");
    assert_eq!(db.line_index(FileId(0), 1000), Some(1));
}

#[test]
fn file_cache_delegates_to_database() {
    let mut db = db_with("line0\nline1\nline2\n");
    let f = FileId(0);
    let mut cache = FileCache::new(&mut db);
    assert_eq!(cache.name(f), Some("sample.rs".to_string()));
    assert_eq!(cache.source(f), Some("line0\nline1\nline2\n".to_string()));
    assert_eq!(cache.line_index(f, 13), Some(2));
    assert_eq!(cache.line_range(f, 0), Some(0..6));
    assert_eq!(cache.name(FileId(3)), None);
    assert_eq!(cache.line_range(f, 0), Some(0..6));
    assert_eq!(db.computations(), 4);
}

#[test]
fn file_cache_from_upcast() {
    let mut db = db_with("a\nb");
    let mut cache: FileCache<Database> = FileCache::upcast(&mut db);
    assert_eq!(cache.line_range(FileId(0), 1), Some(2..3));
}

#[test]
fn parse_flags_lines_fourteen_to_twenty() {
    let mut text = String::new();
    for i in 0..25 {
        text.push_str(&format!("line {:02}\n", i));
    }
    let mut db = db_with(&text);
    assert_eq!(db.parse(FileId(0)), Some(14 * 8..21 * 8 - 1));
}

#[test]
fn parse_of_short_file_flags_nothing() {
    let mut db = db_with("a\nb\nc\n");
    assert_eq!(db.parse(FileId(0)), None);
    assert_eq!(Database::new().parse(FileId(0)), None);
}

#[test]
fn file_ids_compare_by_value() {
    assert_eq!(FileId(3), FileId(3));
    assert!(FileId(2) < FileId(3));
}
