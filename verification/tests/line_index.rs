//! Tests of the line/column index.

use lib::{LineIndex, Terminator};

#[test]
fn empty_source_has_one_line() {
    let idx = LineIndex::new("");
    assert_eq!(idx.line_count(), 1);
    assert_eq!(idx.offset_to_line_col(0), (1, 1));
    assert_eq!(idx.line_range(1), Some(0..0));
}

#[test]
fn lf_breaks() {
    let idx = LineIndex::new("ab\ncd");
    assert_eq!(idx.line_count(), 2);
    assert_eq!(idx.offset_to_line_col(0), (1, 1)); // 'a'
    assert_eq!(idx.offset_to_line_col(1), (1, 2)); // 'b'
    assert_eq!(idx.offset_to_line_col(2), (1, 3)); // '\n' -> just past 'b'
    assert_eq!(idx.offset_to_line_col(3), (2, 1)); // 'c'
    assert_eq!(idx.offset_to_line_col(4), (2, 2)); // 'd'
    assert_eq!(idx.line_range(1), Some(0..2)); // "ab"
    assert_eq!(idx.line_range(2), Some(3..5)); // "cd"
    assert_eq!(idx.line_range(3), None);
}

#[test]
fn crlf_terminator_excluded() {
    let idx = LineIndex::new("ab\r\ncd");
    assert_eq!(idx.line_count(), 2);
    assert_eq!(idx.line_range(1), Some(0..2)); // "ab", not "ab\r"
    assert_eq!(idx.line_range(2), Some(4..6)); // "cd"
    assert_eq!(idx.offset_to_line_col(2), (1, 3)); // '\r' -> just past 'b'
    assert_eq!(idx.offset_to_line_col(4), (2, 1)); // 'c'
}

#[test]
fn lone_cr_is_not_a_break() {
    let idx = LineIndex::new("a\rb");
    assert_eq!(idx.line_count(), 1);
    assert_eq!(idx.line_range(1), Some(0..3)); // "a\rb"
}

#[test]
fn trailing_newline_yields_final_line() {
    let idx = LineIndex::new("ab\n");
    assert_eq!(idx.line_count(), 2);
    assert_eq!(idx.offset_to_line_col(3), (2, 1)); // EOF after '\n'
    assert_eq!(idx.line_range(2), Some(3..3)); // empty final line
}

#[test]
fn offset_past_end_clamps() {
    let idx = LineIndex::new("ab");
    assert_eq!(idx.offset_to_line_col(99), (1, 3));
}

#[test]
fn line_col_round_trips() {
    let src = "one\ntwo\r\nthree";
    let idx = LineIndex::new(src);
    for off in 0..=src.len() as u32 {
        let (l, c) = idx.offset_to_line_col(off);
        // Within a line's content the inverse is exact.
        if let Some(range) = idx.line_range(l) {
            if (off as usize) <= range.end {
                assert_eq!(idx.line_col_to_offset(l, c), off, "offset {off}");
            }
        }
    }
}

#[test]
fn line_col_to_offset_clamps() {
    let idx = LineIndex::new("ab\ncd");
    assert_eq!(idx.line_col_to_offset(1, 1), 0);
    assert_eq!(idx.line_col_to_offset(2, 1), 3);
    assert_eq!(idx.line_col_to_offset(99, 99), 5); // clamped to last line end
    assert_eq!(idx.line_col_to_offset(0, 0), 0); // clamped up to line 1 col 1
}

#[test]
fn col_overflow_stays_on_its_line() {
    // A column past the line's content clamps within that line — it must
    // never resolve to a byte on a following line.
    let idx = LineIndex::new("ab\ncd");
    let off = idx.line_col_to_offset(1, 10);
    assert_eq!(off, 2); // just past "ab", before the '\n'
    assert_eq!(idx.offset_to_line_col(off).0, 1);

    // Same for a CRLF line: never lands between '\r' and '\n' or beyond.
    let idx = LineIndex::new("ab\r\ncd");
    let off = idx.line_col_to_offset(1, 10);
    assert_eq!(off, 2); // just past "ab", before the "\r\n"
}

#[test]
fn full_ranges_tile_the_source() {
    // Concatenating full ranges over every line reconstructs the input
    // exactly — content ranges do not (they drop terminators).
    for src in [
        "ab\r\ncd",
        "one\ntwo\r\nthree",
        "x\n",
        "",
        "no newline",
        "\n\n",
    ] {
        let idx = LineIndex::new(src);
        let mut rebuilt = String::new();
        let mut prev_end = 0;
        for n in 1..=idx.line_count() as u32 {
            let r = idx.line_full_range(n).unwrap();
            assert_eq!(
                r.start, prev_end,
                "full ranges must be contiguous in {src:?}"
            );
            rebuilt.push_str(&src[r.clone()]);
            prev_end = r.end;
        }
        assert_eq!(
            prev_end,
            src.len(),
            "full ranges must cover to EOF in {src:?}"
        );
        assert_eq!(rebuilt, src, "full ranges must reconstruct {src:?}");
    }
}

#[test]
fn line_terminator_kinds() {
    let idx = LineIndex::new("ab\r\ncd\ne");
    assert_eq!(idx.line_terminator(1), Some(Terminator::CrLf)); // "ab\r\n"
    assert_eq!(idx.line_terminator(2), Some(Terminator::Lf)); // "cd\n"
    assert_eq!(idx.line_terminator(3), Some(Terminator::Absent)); // "e", no break
    assert_eq!(idx.line_terminator(4), None); // out of range

    // A trailing newline gives the final content line a real terminator.
    let idx = LineIndex::new("x\n");
    assert_eq!(idx.line_terminator(1), Some(Terminator::Lf));
}

#[test]
fn full_range_includes_terminator_content_excludes_it() {
    let idx = LineIndex::new("ab\r\ncd");
    assert_eq!(idx.line_range(1), Some(0..2)); // "ab"
    assert_eq!(idx.line_full_range(1), Some(0..4)); // "ab\r\n"
    assert_eq!(idx.line_full_range(3), None); // out of range
}
