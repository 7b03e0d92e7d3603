use source_db::line_index::{compute_line_starts, line_index_in, line_range_in, line_start_in};

#[test]
fn line_starts_with_trailing_newline() {
    assert_eq!(compute_line_starts("ab\ncd\n"), vec![0, 3, 6]);
}

#[test]
fn line_starts_of_empty_text() {
    assert_eq!(compute_line_starts(""), vec![0]);
}

#[test]
fn line_starts_without_trailing_newline() {
    assert_eq!(compute_line_starts("ab\ncd"), vec![0, 3]);
}

#[test]
fn line_starts_count_bytes_not_chars() {
    assert_eq!(compute_line_starts("\u{e9}\nx\n"), vec![0, 3, 5]);
}

#[test]
fn line_start_in_range_and_sentinel() {
    let starts = vec![0, 3, 6];
    assert_eq!(line_start_in(&starts, 6, 0), Some(0));
    assert_eq!(line_start_in(&starts, 6, 2), Some(6));
    assert_eq!(line_start_in(&starts, 6, 3), Some(6));
    assert_eq!(line_start_in(&starts, 6, 4), None);
}

#[test]
fn line_index_by_binary_search() {
    let starts = vec![0, 6, 12, 18];
    assert_eq!(line_index_in(&starts, 0), Some(0));
    assert_eq!(line_index_in(&starts, 5), Some(0));
    assert_eq!(line_index_in(&starts, 6), Some(1));
    assert_eq!(line_index_in(&starts, 7), Some(1));
    assert_eq!(line_index_in(&starts, 17), Some(2));
    assert_eq!(line_index_in(&starts, 18), Some(3));
}

#[test]
fn line_index_past_end_is_last_line() {
    let starts = vec![0, 3];
    assert_eq!(line_index_in(&starts, 100), Some(1));
    assert_eq!(line_index_in(&vec![0], usize::MAX), Some(0));
}

#[test]
fn line_range_of_lines() {
    let starts = vec![0, 6, 12, 18];
    assert_eq!(line_range_in(&starts, 18, 1), Some(6..12));
    assert_eq!(line_range_in(&starts, 18, 3), Some(18..18));
    assert_eq!(line_range_in(&starts, 18, 4), None);
    assert_eq!(line_range_in(&starts, 18, usize::MAX), None);
}

#[test]
fn round_trip_of_line_starts() {
    let starts = compute_line_starts("one\n\ntwo\nthree");
    for i in 0..starts.len() {
        let b = line_start_in(&starts, 14, i).unwrap();
        assert_eq!(line_index_in(&starts, b), Some(i));
    }
}
