use diffitrust::diff::{
    append_span, char_diff_lines, compute_diff, CellKind, DiffData, DiffSpan,
};

fn texts(spans: &[DiffSpan]) -> Vec<(String, bool)> {
    spans.iter().map(|s| (s.text.clone(), s.emphasized)).collect()
}

#[test]
fn test_char_diff_lines() {
    let (old_spans, new_spans) = char_diff_lines("version = \"0.1.0\"", "version = \"0.2.0\"");
    assert_eq!(old_spans.len(), 3);
    assert_eq!(old_spans[0].text, "version = \"0.");
    assert!(!old_spans[0].emphasized);
    assert_eq!(old_spans[1].text, "1");
    assert!(old_spans[1].emphasized);
    assert_eq!(old_spans[2].text, ".0\"");
    assert!(!old_spans[2].emphasized);

    assert_eq!(new_spans.len(), 3);
    assert_eq!(new_spans[0].text, "version = \"0.");
    assert!(!new_spans[0].emphasized);
    assert_eq!(new_spans[1].text, "2");
    assert!(new_spans[1].emphasized);
    assert_eq!(new_spans[2].text, ".0\"");
    assert!(!new_spans[2].emphasized);
}

#[test]
fn test_compute_diff_screenshot_case() {
    let old = "[package]\nname = \"diffitrust\"\nversion = \"0.1.0\"\nedition = \"2021\"\n\n[dependencies]\niced = \"0.13\"\n\n";
    let new = "[package]\nname = \"diffitrust\"\nname = \"diffitrust\"\nname = \"diffitrust\"\nname = \"diffitrust\"\nname = \"diffitrust\"\nname = \"diffitrust\"\nversion = \"0.1.0\"\nedition = \"2021\"\n\n[dependencies]\niced = \"0.13\"\niced = \"0.13\"\niced = \"0.13\"\niced = \"0.13\"\niced = \"0.13\"\niced = \"0.13\"\n\n";
    let res = compute_diff(old, new);
    assert_eq!(res.differ_count, 10);
}

#[test]
fn append_span_merges_same_emphasis() {
    let mut spans = Vec::new();
    append_span(&mut spans, "ab", false);
    append_span(&mut spans, "cd", false);
    append_span(&mut spans, "x", true);
    append_span(&mut spans, "y", true);
    append_span(&mut spans, "", false);
    assert_eq!(
        texts(&spans),
        vec![("abcd".to_string(), false), ("xy".to_string(), true), ("".to_string(), false)]
    );
}

#[test]
fn char_diff_keeps_both_lines_text() {
    let (old_spans, new_spans) = char_diff_lines("hello world", "help world!");
    let old_text: String = old_spans.iter().map(|s| s.text.as_str()).collect();
    let new_text: String = new_spans.iter().map(|s| s.text.as_str()).collect();
    assert_eq!(old_text, "hello world");
    assert_eq!(new_text, "help world!");
    for w in old_spans.windows(2).chain(new_spans.windows(2)) {
        assert_ne!(w[0].emphasized, w[1].emphasized);
    }
    assert!(old_spans.iter().any(|s| s.emphasized));
    assert!(new_spans.iter().any(|s| s.emphasized));
}

#[test]
fn identical_lines_have_no_emphasis() {
    let (old_spans, new_spans) = char_diff_lines("same", "same");
    assert_eq!(texts(&old_spans), vec![("same".to_string(), false)]);
    assert_eq!(texts(&new_spans), vec![("same".to_string(), false)]);
}

#[test]
fn identical_texts_have_only_equal_rows() {
    let text = "a\nb\nc\n";
    let res = compute_diff(text, text);
    assert_eq!(res.differ_count, 0);
    assert_eq!(res.rows.len(), 3);
    for (i, row) in res.rows.iter().enumerate() {
        assert_eq!(row.left.kind, CellKind::Equal);
        assert_eq!(row.right.kind, CellKind::Equal);
        assert_eq!(row.left.line_number, Some(i + 1));
        assert_eq!(row.right.line_number, Some(i + 1));
    }
}

#[test]
fn deletion_and_insertion_rows() {
    let res = compute_diff("a\nb\nc\n", "a\nc\nd\n");
    let kinds: Vec<(CellKind, CellKind)> =
        res.rows.iter().map(|r| (r.left.kind.clone(), r.right.kind.clone())).collect();
    assert_eq!(
        kinds,
        vec![
            (CellKind::Equal, CellKind::Equal),
            (CellKind::Delete, CellKind::Empty),
            (CellKind::Equal, CellKind::Equal),
            (CellKind::Empty, CellKind::Insert),
        ]
    );
    assert_eq!(res.differ_count, 2);
    assert_eq!(res.rows[1].left.line_number, Some(2));
    assert_eq!(res.rows[1].right.line_number, None);
    assert!(res.rows[1].right.spans.is_empty());
    assert_eq!(res.rows[3].right.line_number, Some(3));
    assert_eq!(res.rows[3].right.spans[0].text, "d");
}

#[test]
fn replaced_line_pair_is_diffed_by_character() {
    let res = compute_diff("x = 1\n", "x = 2\n");
    assert_eq!(res.rows.len(), 1);
    assert_eq!(res.differ_count, 1);
    let row = &res.rows[0];
    assert_eq!(row.left.kind, CellKind::Delete);
    assert_eq!(row.right.kind, CellKind::Insert);
    assert_eq!(
        texts(&row.left.spans),
        vec![("x = ".to_string(), false), ("1".to_string(), true)]
    );
    assert_eq!(
        texts(&row.right.spans),
        vec![("x = ".to_string(), false), ("2".to_string(), true)]
    );
}

#[test]
fn uneven_replacement_pads_with_empty_cells() {
    let res = compute_diff("a\nb\nc\n", "a\nX\nY\nZ\nc\n");
    assert_eq!(res.differ_count, 3);
    let changed = res.rows.iter().filter(|r| r.left.kind != CellKind::Equal).count();
    assert_eq!(changed, res.differ_count);
    assert!(res
        .rows
        .iter()
        .any(|r| r.left.kind == CellKind::Empty && r.right.kind == CellKind::Insert));
}

#[test]
fn crlf_line_endings_are_dropped() {
    let res = compute_diff("a\r\nb\r\n", "a\r\nb\r\n");
    assert_eq!(res.rows.len(), 2);
    assert_eq!(res.rows[0].left.spans[0].text, "a");
    assert_eq!(res.rows[1].right.spans[0].text, "b");
}

#[test]
fn unchanged_rows_show_the_same_text_and_no_line_feeds() {
    let old = "one\ntwo\nthree\n\nfive\n";
    let new = "zero\none\n2\nthree\n\nfive\n";
    let res = compute_diff(old, new);
    let text = |spans: &Vec<DiffSpan>| spans.iter().map(|s| s.text.as_str()).collect::<String>();
    let mut equal_rows = 0;
    for r in &res.rows {
        if r.left.kind == CellKind::Equal {
            equal_rows += 1;
            assert_eq!(r.right.kind, CellKind::Equal);
            assert_eq!(text(&r.left.spans), text(&r.right.spans));
        }
        for s in r.left.spans.iter().chain(r.right.spans.iter()) {
            assert!(!s.text.contains('\n'));
        }
    }
    assert_eq!(equal_rows, 4);
}

#[test]
fn char_diff_spans_are_never_empty() {
    let (o, n) = char_diff_lines("", "");
    assert!(o.is_empty());
    assert!(n.is_empty());
    let (o, n) = char_diff_lines("", "added");
    assert!(o.is_empty());
    assert_eq!(texts(&n), vec![("added".to_string(), true)]);
    let (o, n) = char_diff_lines("kitten", "sitting");
    assert!(o.iter().chain(n.iter()).all(|s| !s.text.is_empty()));
}

#[test]
fn empty_texts_give_no_rows() {
    let res = compute_diff("", "");
    assert!(res.rows.is_empty());
    assert_eq!(res.differ_count, 0);
    let d = DiffData::default();
    assert!(d.rows.is_empty());
    assert_eq!(d.differ_count, 0);
}

#[test]
fn each_side_is_numbered_one_to_n_and_shows_its_lines() {
    let old = "alpha\nbeta\ngamma\ndelta";
    let new = "alpha\nBETA\ngamma\nepsilon\nzeta\n";
    let res = compute_diff(old, new);
    let left: Vec<usize> = res.rows.iter().filter_map(|r| r.left.line_number).collect();
    let right: Vec<usize> = res.rows.iter().filter_map(|r| r.right.line_number).collect();
    assert_eq!(left, vec![1, 2, 3, 4]);
    assert_eq!(right, vec![1, 2, 3, 4, 5]);
    let old_lines: Vec<&str> = old.lines().collect();
    let new_lines: Vec<&str> = new.lines().collect();
    for r in &res.rows {
        if let Some(n) = r.left.line_number {
            let text: String = r.left.spans.iter().map(|s| s.text.as_str()).collect();
            assert_eq!(text, old_lines[n - 1]);
        }
        if let Some(n) = r.right.line_number {
            let text: String = r.right.spans.iter().map(|s| s.text.as_str()).collect();
            assert_eq!(text, new_lines[n - 1]);
        }
    }
}

#[test]
fn identical_texts_row_i_shows_line_i_plain() {
    let s = "fn main() {\n    println!(\"hi\");\n}\n";
    let res = compute_diff(s, s);
    assert_eq!(res.differ_count, 0);
    assert_eq!(res.rows.len(), s.lines().count());
    for (i, line) in s.lines().enumerate() {
        for cell in [&res.rows[i].left, &res.rows[i].right] {
            assert_eq!(cell.line_number, Some(i + 1));
            assert_eq!(cell.kind, CellKind::Equal);
            assert_eq!(cell.spans.len(), 1);
            assert_eq!(cell.spans[0].text, line);
            assert!(!cell.spans[0].emphasized);
        }
    }
}
