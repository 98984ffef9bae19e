//! Side-by-side diff of two texts: a line diff from `similar`, paired into
//! rows, with a character diff inside each pair of replaced lines.

use vstd::prelude::*;

use crate::text::{lines_spec, lines_state, split_lines, strings_view, strip_cr};
use vstd::string::StringSliceAdditionalSpecFns;
use vstd::utf8::encode_utf8;
use similar::DiffOp as D;

verus! {

/// What one side of a row shows.
#[derive(Debug, Clone, Copy, PartialEq, Eq, Structural)]
pub enum CellKind {
    Equal,
    Delete,
    Insert,
    Empty,
}

/// A run of text in a cell, highlighted or not.
#[derive(Debug, Clone)]
pub struct DiffSpan {
    pub text: String,
    pub emphasized: bool,
}

/// One side of a row: its line number (from 1), kind and text.
#[derive(Debug, Clone)]
pub struct DiffCell {
    pub line_number: Option<usize>,
    pub kind: CellKind,
    pub spans: Vec<DiffSpan>,
}

/// A row of the side-by-side view.
#[derive(Debug, Clone)]
pub struct DiffRow {
    pub left: DiffCell,
    pub right: DiffCell,
}

/// The rows of a comparison and the number of differing lines.
#[derive(Debug, Clone)]
pub struct DiffData {
    pub rows: Vec<DiffRow>,
    pub differ_count: usize,
}

/// Mathematical model of a span.
pub struct SpanView {
    pub text: Seq<char>,
    pub emphasized: bool,
}

/// Mathematical model of a cell.
pub struct CellView {
    pub line_number: Option<int>,
    pub kind: CellKind,
    pub spans: Seq<SpanView>,
}

/// Mathematical model of a row.
pub struct RowView {
    pub left: CellView,
    pub right: CellView,
}

/// Mathematical model of a comparison.
pub struct DataView {
    pub rows: Seq<RowView>,
    pub differ_count: int,
}

impl View for DiffSpan {
    type V = SpanView;

    open spec fn view(&self) -> SpanView {
        SpanView { text: self.text@, emphasized: self.emphasized }
    }
}

/// The models of a sequence of spans.
pub open spec fn spans_view(spans: Seq<DiffSpan>) -> Seq<SpanView> {
    spans.map_values(|s: DiffSpan| s@)
}

impl View for DiffCell {
    type V = CellView;

    open spec fn view(&self) -> CellView {
        CellView {
            line_number: match self.line_number {
                Some(n) => Some(n as int),
                None => None,
            },
            kind: self.kind,
            spans: spans_view(self.spans@),
        }
    }
}

impl View for DiffRow {
    type V = RowView;

    open spec fn view(&self) -> RowView {
        RowView { left: self.left@, right: self.right@ }
    }
}

/// The models of a sequence of rows.
pub open spec fn rows_view(rows: Seq<DiffRow>) -> Seq<RowView> {
    rows.map_values(|r: DiffRow| r@)
}

impl View for DiffData {
    type V = DataView;

    open spec fn view(&self) -> DataView {
        DataView { rows: rows_view(self.rows@), differ_count: self.differ_count as int }
    }
}

impl Default for DiffData {
    fn default() -> (d: DiffData)
        ensures
            d@.rows.len() == 0,
            d@.differ_count == 0,
    {
        DiffData { rows: Vec::new(), differ_count: 0 }
    }
}

/// `spans` after appending `text` with the given emphasis: merged into the
/// last span when that one has the same emphasis, else a new span.
pub open spec fn append_span_spec(spans: Seq<SpanView>, text: Seq<char>, emphasized: bool) -> Seq<
    SpanView,
> {
    if spans.len() > 0 && spans.last().emphasized == emphasized {
        spans.drop_last().push(SpanView { text: spans.last().text + text, emphasized })
    } else {
        spans.push(SpanView { text, emphasized })
    }
}

/// Appends `text` to `spans`, merging it into the last span when that one has
/// the same emphasis.
pub fn append_span(spans: &mut Vec<DiffSpan>, text: &str, emphasized: bool)
    ensures
        spans_view(final(spans)@) == append_span_spec(spans_view(old(spans)@), text@, emphasized),
{
    let n = spans.len();
    if n > 0 && spans[n - 1].emphasized == emphasized {
        let mut last = spans.pop().unwrap();
        last.text.append(text);
        spans.push(last);
        assert(spans_view(spans@) =~= append_span_spec(spans_view(old(spans)@), text@, emphasized));
    } else {
        spans.push(DiffSpan { text: String::from_str(text), emphasized });
        assert(spans_view(spans@) =~= append_span_spec(spans_view(old(spans)@), text@, emphasized));
    }
}

/// How a character of a line pair changed, as `similar` reports it.
#[derive(Debug, Clone, Copy, PartialEq, Eq, Structural)]
pub enum ChangeKind {
    Equal,
    Delete,
    Insert,
}

/// One change of a character diff: its kind and the text it covers.
#[derive(Debug, Clone)]
pub struct CharChange {
    pub kind: ChangeKind,
    pub value: String,
}

impl View for CharChange {
    type V = (ChangeKind, Seq<char>);

    open spec fn view(&self) -> (ChangeKind, Seq<char>) {
        (self.kind, self.value@)
    }
}

/// The models of a sequence of character changes.
pub open spec fn changes_view(changes: Seq<CharChange>) -> Seq<(ChangeKind, Seq<char>)> {
    changes.map_values(|c: CharChange| c@)
}

/// The changes, in order, that `similar::TextDiff::from_chars(old, new)`
/// yields from `iter_all_changes`.
pub uninterp spec fn similar_char_changes(old: Seq<char>, new: Seq<char>) -> Seq<
    (ChangeKind, Seq<char>),
>;

/// Calls `similar::TextDiff::from_chars(old, new).iter_all_changes()` and
/// copies out each change's tag and value. The changes are named: which
/// characters `similar` pairs up is not described. Stated of them is what its
/// source shows of any char diff: each change holds one character, and the
/// operations cover both strings in order, so the equal and deleted changes
/// spell `old`, the equal and inserted ones `new`.
#[verifier::external_body]
fn char_changes(old: &str, new: &str) -> (changes: Vec<CharChange>)
    ensures
        changes_view(changes@) == similar_char_changes(old@, new@),
        old_side_text(changes_view(changes@)) == old@,
        new_side_text(changes_view(changes@)) == new@,
        forall|i: int| 0 <= i < changes@.len() ==> (#[trigger] changes@[i]).value@.len() == 1,
{
    similar::TextDiff::from_chars(old, new).iter_all_changes().map(
        |c| CharChange {
            kind: match c.tag() {
                similar::ChangeTag::Equal => ChangeKind::Equal,
                similar::ChangeTag::Delete => ChangeKind::Delete,
                similar::ChangeTag::Insert => ChangeKind::Insert,
            },
            value: c.value().to_string(),
        },
    ).collect()
}

/// The old-side and new-side spans built from `changes`: equal text goes to
/// both sides plain, deleted text to the old side highlighted, inserted text
/// to the new side highlighted.
pub open spec fn char_spans_spec(changes: Seq<(ChangeKind, Seq<char>)>) -> (
    Seq<SpanView>,
    Seq<SpanView>,
)
    decreases changes.len(),
{
    if changes.len() == 0 {
        (seq![], seq![])
    } else {
        let prev = char_spans_spec(changes.drop_last());
        let ch = changes.last();
        match ch.0 {
            ChangeKind::Equal => (
                append_span_spec(prev.0, ch.1, false),
                append_span_spec(prev.1, ch.1, false),
            ),
            ChangeKind::Delete => (append_span_spec(prev.0, ch.1, true), prev.1),
            ChangeKind::Insert => (prev.0, append_span_spec(prev.1, ch.1, true)),
        }
    }
}

/// The spans of a character diff of `old_line` against `new_line`.
pub open spec fn char_diff_spec(old_line: Seq<char>, new_line: Seq<char>) -> (
    Seq<SpanView>,
    Seq<SpanView>,
) {
    char_spans_spec(similar_char_changes(old_line, new_line))
}

/// Builds the old-side and new-side spans from a character diff's changes.
pub fn spans_from_changes(changes: &Vec<CharChange>) -> (r: (Vec<DiffSpan>, Vec<DiffSpan>))
    ensures
        (spans_view(r.0@), spans_view(r.1@)) == char_spans_spec(changes_view(changes@)),
{
    let mut old_spans: Vec<DiffSpan> = Vec::new();
    let mut new_spans: Vec<DiffSpan> = Vec::new();
    let n = changes.len();
    let mut i: usize = 0;
    while i < n
        invariant
            n == changes@.len(),
            i <= n,
            (spans_view(old_spans@), spans_view(new_spans@)) == char_spans_spec(
                changes_view(changes@).take(i as int),
            ),
        decreases n - i,
    {
        let ghost pre = changes_view(changes@).take(i as int);
        assert(changes_view(changes@).take(i + 1).drop_last() =~= pre);
        let change = &changes[i];
        match change.kind {
            ChangeKind::Equal => {
                append_span(&mut old_spans, change.value.as_str(), false);
                append_span(&mut new_spans, change.value.as_str(), false);
            },
            ChangeKind::Delete => {
                append_span(&mut old_spans, change.value.as_str(), true);
            },
            ChangeKind::Insert => {
                append_span(&mut new_spans, change.value.as_str(), true);
            },
        }
        i = i + 1;
    }
    assert(changes_view(changes@).take(n as int) =~= changes_view(changes@));
    (old_spans, new_spans)
}

/// Character-level diff of two lines: the spans of each side, the changed
/// characters highlighted.
pub fn char_diff_lines(old_line: &str, new_line: &str) -> (r: (Vec<DiffSpan>, Vec<DiffSpan>))
    ensures
        (spans_view(r.0@), spans_view(r.1@)) == char_diff_spec(old_line@, new_line@),
        spans_text(spans_view(r.0@)) == old_line@,
        spans_text(spans_view(r.1@)) == new_line@,
        alternating(spans_view(r.0@)),
        alternating(spans_view(r.1@)),
        spans_nonempty(spans_view(r.0@)),
        spans_nonempty(spans_view(r.1@)),
        old_line@.len() == 0 ==> r.0@.len() == 0,
        new_line@.len() == 0 ==> r.1@.len() == 0,
{
    let changes = char_changes(old_line, new_line);
    let ghost cv = changes_view(changes@);
    proof {
        assert forall|i: int| 0 <= i < cv.len() implies (#[trigger] cv[i]).1.len() > 0 by {
            assert(cv[i].1 == changes@[i].value@);
        }
        lemma_char_spans(cv);
    }
    let r = spans_from_changes(&changes);
    proof {
        if r.0@.len() > 0 {
            lemma_nonempty_spans_text(spans_view(r.0@));
        }
        if r.1@.len() > 0 {
            lemma_nonempty_spans_text(spans_view(r.1@));
        }
    }
    r
}

/// One operation of a line diff, with the field names of `similar::DiffOp`:
/// indices are 0-based positions among the lines of each text.
#[derive(Debug, Clone, Copy, PartialEq, Eq, Structural)]
pub enum LineOp {
    Equal { old_index: usize, new_index: usize, len: usize },
    Delete { old_index: usize, old_len: usize, new_index: usize },
    Insert { old_index: usize, new_index: usize, new_len: usize },
    Replace { old_index: usize, old_len: usize, new_index: usize, new_len: usize },
}

/// The operations, in order, of `similar::TextDiff::from_lines(old, new).ops()`.
pub uninterp spec fn similar_line_ops(old: Seq<char>, new: Seq<char>) -> Seq<LineOp>;

/// Calls `similar::TextDiff::from_lines(old, new).ops()` and copies each
/// `DiffOp` into a `LineOp` field by field. The operations are named: which
/// lines `similar` pairs up is not described. Stated of them is what its
/// source shows of any line diff: they follow one another and cover the
/// lines of both texts (as `similar` splits them) in order, an equal
/// operation pairs lines that compare equal (line endings included), and
/// two equal texts give only equal operations (the common prefix is the
/// whole text).
#[verifier::external_body]
fn line_ops(old: &str, new: &str) -> (ops: Vec<LineOp>)
    ensures
        ops@ == similar_line_ops(old@, new@),
        ops_tile(ops@, similar_line_count(old@), similar_line_count(new@)),
        ops_pair_equal(ops@, similar_lines(old@), similar_lines(new@)),
        old@ == new@ ==> forall|k: int| 0 <= k < ops@.len() ==> #[trigger] ops@[k] is Equal,
{
    similar::TextDiff::from_lines(old, new).ops().iter().map(
        |op| match *op {
            D::Equal { old_index, new_index, len } => LineOp::Equal { old_index, new_index, len },
            D::Delete { old_index, old_len, new_index } => LineOp::Delete { old_index, old_len, new_index },
            D::Insert { old_index, new_index, new_len } => LineOp::Insert { old_index, new_index, new_len },
            D::Replace { old_index, old_len, new_index, new_len } => LineOp::Replace { old_index, old_len, new_index, new_len },
        },
    ).collect()
}

/// The line at `i`, or the empty line when there is none.
pub open spec fn line_at_spec(lines: Seq<Seq<char>>, i: int) -> Seq<char> {
    if 0 <= i < lines.len() {
        lines[i]
    } else {
        seq![]
    }
}

/// A cell that shows line `index` (0-based) unhighlighted.
pub open spec fn plain_cell_spec(index: int, kind: CellKind, text: Seq<char>) -> CellView {
    CellView {
        line_number: Some(index + 1),
        kind,
        spans: seq![SpanView { text, emphasized: false }],
    }
}

/// The placeholder cell opposite a deleted or inserted line.
pub open spec fn empty_cell_spec() -> CellView {
    CellView { line_number: None, kind: CellKind::Empty, spans: seq![] }
}

/// Number of rows an operation expands to.
pub open spec fn op_len(op: LineOp) -> nat {
    match op {
        LineOp::Equal { len, .. } => len as nat,
        LineOp::Delete { old_len, .. } => old_len as nat,
        LineOp::Insert { new_len, .. } => new_len as nat,
        LineOp::Replace { old_len, new_len, .. } => if old_len >= new_len {
            old_len as nat
        } else {
            new_len as nat
        },
    }
}

/// Number of differing lines an operation contributes.
pub open spec fn op_differ(op: LineOp) -> nat {
    match op {
        LineOp::Equal { .. } => 0,
        _ => op_len(op),
    }
}

/// Row `i` of the rows an operation expands to.
pub open spec fn op_row(op: LineOp, old_lines: Seq<Seq<char>>, new_lines: Seq<Seq<char>>, i: int) -> RowView {
    match op {
        LineOp::Equal { old_index, new_index, .. } => RowView {
            left: plain_cell_spec(old_index + i, CellKind::Equal, line_at_spec(old_lines, old_index + i)),
            right: plain_cell_spec(new_index + i, CellKind::Equal, line_at_spec(new_lines, new_index + i)),
        },
        LineOp::Delete { old_index, .. } => RowView {
            left: plain_cell_spec(old_index + i, CellKind::Delete, line_at_spec(old_lines, old_index + i)),
            right: empty_cell_spec(),
        },
        LineOp::Insert { new_index, .. } => RowView {
            left: empty_cell_spec(),
            right: plain_cell_spec(new_index + i, CellKind::Insert, line_at_spec(new_lines, new_index + i)),
        },
        LineOp::Replace { old_index, old_len, new_index, new_len } => if i < old_len && i < new_len {
            let spans = char_diff_spec(
                line_at_spec(old_lines, old_index + i),
                line_at_spec(new_lines, new_index + i),
            );
            RowView {
                left: CellView { line_number: Some(old_index + i + 1), kind: CellKind::Delete, spans: spans.0 },
                right: CellView { line_number: Some(new_index + i + 1), kind: CellKind::Insert, spans: spans.1 },
            }
        } else if i < old_len {
            RowView {
                left: plain_cell_spec(old_index + i, CellKind::Delete, line_at_spec(old_lines, old_index + i)),
                right: empty_cell_spec(),
            }
        } else {
            RowView {
                left: empty_cell_spec(),
                right: plain_cell_spec(new_index + i, CellKind::Insert, line_at_spec(new_lines, new_index + i)),
            }
        },
    }
}

/// The rows an operation expands to.
pub open spec fn op_rows(op: LineOp, old_lines: Seq<Seq<char>>, new_lines: Seq<Seq<char>>) -> Seq<RowView> {
    Seq::new(op_len(op), |i: int| op_row(op, old_lines, new_lines, i))
}

/// The rows of a sequence of operations, one operation after the other.
pub open spec fn rows_spec(ops: Seq<LineOp>, old_lines: Seq<Seq<char>>, new_lines: Seq<Seq<char>>) -> Seq<RowView>
    decreases ops.len(),
{
    if ops.len() == 0 {
        seq![]
    } else {
        rows_spec(ops.drop_last(), old_lines, new_lines) + op_rows(ops.last(), old_lines, new_lines)
    }
}

/// The number of differing lines over a sequence of operations.
pub open spec fn differ_spec(ops: Seq<LineOp>) -> nat
    decreases ops.len(),
{
    if ops.len() == 0 {
        0
    } else {
        differ_spec(ops.drop_last()) + op_differ(ops.last())
    }
}

/// The line numbers of an operation's rows fit in a `usize`.
pub open spec fn op_fits(op: LineOp) -> bool {
    match op {
        LineOp::Equal { old_index, new_index, len } => old_index + len <= usize::MAX && new_index + len
            <= usize::MAX,
        LineOp::Delete { old_index, old_len, .. } => old_index + old_len <= usize::MAX,
        LineOp::Insert { new_index, new_len, .. } => new_index + new_len <= usize::MAX,
        LineOp::Replace { old_index, old_len, new_index, new_len } => old_index + old_len <= usize::MAX
            && new_index + new_len <= usize::MAX,
    }
}

/// Every line number fits in a `usize`.
pub open spec fn ops_fit(ops: Seq<LineOp>) -> bool {
    forall|k: int| 0 <= k < ops.len() ==> op_fits(#[trigger] ops[k])
}

/// The comparison of `ops` over the given lines.
pub open spec fn diff_of_ops(ops: Seq<LineOp>, old_lines: Seq<Seq<char>>, new_lines: Seq<Seq<char>>) -> DataView {
    DataView { rows: rows_spec(ops, old_lines, new_lines), differ_count: differ_spec(ops) as int }
}

/// The comparison of `left` against `right`.
pub open spec fn diff_spec(left: Seq<char>, right: Seq<char>) -> DataView {
    diff_of_ops(similar_line_ops(left, right), lines_spec(left), lines_spec(right))
}

fn op_len_exec(op: LineOp) -> (n: usize)
    ensures
        n == op_len(op),
{
    match op {
        LineOp::Equal { len, .. } => len,
        LineOp::Delete { old_len, .. } => old_len,
        LineOp::Insert { new_len, .. } => new_len,
        LineOp::Replace { old_len, new_len, .. } => if old_len >= new_len {
            old_len
        } else {
            new_len
        },
    }
}

fn op_differ_exec(op: LineOp) -> (n: usize)
    ensures
        n == op_differ(op),
{
    match op {
        LineOp::Equal { .. } => 0,
        _ => op_len_exec(op),
    }
}

/// The line at `i`, or the empty line when there is none.
fn line_at(lines: &Vec<String>, i: usize) -> (s: String)
    ensures
        s@ == line_at_spec(strings_view(lines@), i as int),
{
    if i < lines.len() {
        lines[i].clone()
    } else {
        String::new()
    }
}

fn plain_cell(index: usize, kind: CellKind, text: String) -> (c: DiffCell)
    requires
        index < usize::MAX,
    ensures
        c@ == plain_cell_spec(index as int, kind, text@),
        spans_text(c@.spans) == text@,
{
    let c = DiffCell {
        line_number: Some(index + 1),
        kind,
        spans: vec![DiffSpan { text, emphasized: false }],
    };
    assert(c@.spans =~= plain_cell_spec(index as int, kind, text@).spans);
    assert(c@.spans.drop_last() =~= Seq::<SpanView>::empty());
    assert(spans_text(Seq::<SpanView>::empty()) == Seq::<char>::empty());
    assert(c@.spans.last().text == text@);
    assert(Seq::<char>::empty() + text@ =~= text@);
    assert(spans_text(c@.spans) =~= text@);
    c
}

fn empty_cell() -> (c: DiffCell)
    ensures
        c@ == empty_cell_spec(),
{
    let c = DiffCell { line_number: None, kind: CellKind::Empty, spans: Vec::new() };
    assert(c@.spans =~= empty_cell_spec().spans);
    c
}

/// Row `i` of the rows `op` expands to.
fn op_row_exec(op: LineOp, old_lines: &Vec<String>, new_lines: &Vec<String>, i: usize) -> (r: DiffRow)
    requires
        op_fits(op),
        i < op_len(op),
    ensures
        r@ == op_row(op, strings_view(old_lines@), strings_view(new_lines@), i as int),
        row_shows_lines(r@, strings_view(old_lines@), strings_view(new_lines@)),
{
    match op {
        LineOp::Equal { old_index, new_index, .. } => DiffRow {
            left: plain_cell(old_index + i, CellKind::Equal, line_at(old_lines, old_index + i)),
            right: plain_cell(new_index + i, CellKind::Equal, line_at(new_lines, new_index + i)),
        },
        LineOp::Delete { old_index, .. } => DiffRow {
            left: plain_cell(old_index + i, CellKind::Delete, line_at(old_lines, old_index + i)),
            right: empty_cell(),
        },
        LineOp::Insert { new_index, .. } => DiffRow {
            left: empty_cell(),
            right: plain_cell(new_index + i, CellKind::Insert, line_at(new_lines, new_index + i)),
        },
        LineOp::Replace { old_index, old_len, new_index, new_len } => {
            if i < old_len && i < new_len {
                let old_l = line_at(old_lines, old_index + i);
                let new_l = line_at(new_lines, new_index + i);
                let (old_spans, new_spans) = char_diff_lines(old_l.as_str(), new_l.as_str());
                DiffRow {
                    left: DiffCell {
                        line_number: Some(old_index + i + 1),
                        kind: CellKind::Delete,
                        spans: old_spans,
                    },
                    right: DiffCell {
                        line_number: Some(new_index + i + 1),
                        kind: CellKind::Insert,
                        spans: new_spans,
                    },
                }
            } else if i < old_len {
                DiffRow {
                    left: plain_cell(old_index + i, CellKind::Delete, line_at(old_lines, old_index + i)),
                    right: empty_cell(),
                }
            } else {
                DiffRow {
                    left: empty_cell(),
                    right: plain_cell(new_index + i, CellKind::Insert, line_at(new_lines, new_index + i)),
                }
            }
        },
    }
}

/// The comparison that the line diff `ops` describes over the given lines.
pub fn diff_from_ops(ops: &Vec<LineOp>, old_lines: &Vec<String>, new_lines: &Vec<String>) -> (d: DiffData)
    requires
        ops_fit(ops@),
    ensures
        d@ == diff_of_ops(ops@, strings_view(old_lines@), strings_view(new_lines@)),
        forall|i: int|
            0 <= i < d@.rows.len() ==> row_shows_lines(
                #[trigger] d@.rows[i],
                strings_view(old_lines@),
                strings_view(new_lines@),
            ),
{
    let ghost ol = strings_view(old_lines@);
    let ghost nl = strings_view(new_lines@);
    let n = ops.len();
    let mut rows: Vec<DiffRow> = Vec::new();
    let mut differ_count: usize = 0;
    let mut k: usize = 0;
    while k < n
        invariant
            n == ops@.len(),
            k <= n,
            ops_fit(ops@),
            ol == strings_view(old_lines@),
            nl == strings_view(new_lines@),
            rows_view(rows@) == rows_spec(ops@.take(k as int), ol, nl),
            differ_count == differ_spec(ops@.take(k as int)),
            differ_count <= rows@.len(),
            forall|j: int| 0 <= j < rows@.len() ==> row_shows_lines(#[trigger] rows_view(rows@)[j], ol, nl),
        decreases n - k,
    {
        let op = ops[k];
        assert(op_fits(ops@[k as int]));
        assert(ops@.take(k + 1).drop_last() =~= ops@.take(k as int));
        let len = op_len_exec(op);
        let ghost before = rows_view(rows@);
        let mut i: usize = 0;
        while i < len
            invariant
                len == op_len(op),
                i <= len,
                op_fits(op),
                ol == strings_view(old_lines@),
                nl == strings_view(new_lines@),
                rows_view(rows@) == before + op_rows(op, ol, nl).take(i as int),
                before.len() + i == rows@.len(),
                forall|j: int| 0 <= j < rows@.len() ==> row_shows_lines(#[trigger] rows_view(rows@)[j], ol, nl),
            decreases len - i,
        {
            let row = op_row_exec(op, old_lines, new_lines, i);
            assert(op_rows(op, ol, nl)[i as int] == row@);
            let ghost prev_rows = rows@;
            rows.push(row);
            assert(rows_view(rows@) =~= rows_view(prev_rows).push(row@));
            assert(rows_view(rows@) =~= before + op_rows(op, ol, nl).take(i + 1));
            i = i + 1;
        }
        assert(op_rows(op, ol, nl).take(len as int) =~= op_rows(op, ol, nl));
        let m = rows.len();
        assert(differ_count + op_differ(op) <= m);
        differ_count = differ_count + op_differ_exec(op);
        k = k + 1;
    }
    assert(ops@.take(n as int) =~= ops@);
    DiffData { rows, differ_count }
}

/// Side-by-side comparison of `left_content` against `right_content`.
///
/// Besides the rows themselves: each side shows its text's lines in order,
/// numbered from 1 to the number of lines; every cell shows the text of the
/// line it is numbered with; and two equal texts give only unchanged rows,
/// row `i` showing line `i` on both sides, one row per line where the text
/// holds no `\r`.
pub fn compute_diff(left_content: &str, right_content: &str) -> (d: DiffData)
    ensures
        d@ == diff_spec(left_content@, right_content@),
        left_numbers(d@.rows) == Seq::new(similar_line_count(left_content@), |i: int| i + 1),
        right_numbers(d@.rows) == Seq::new(similar_line_count(right_content@), |i: int| i + 1),
        forall|i: int|
            0 <= i < d@.rows.len() ==> row_shows_lines(
                #[trigger] d@.rows[i],
                lines_spec(left_content@),
                lines_spec(right_content@),
            ),
        left_content@ == right_content@ ==> {
            &&& d@.differ_count == 0
            &&& d@.rows == Seq::new(
                similar_line_count(left_content@),
                |i: int| equal_row(lines_spec(left_content@), i),
            )
        },
        left_content@ == right_content@ && has_no_cr(left_content@) ==> d@.rows.len() == lines_spec(
            left_content@,
        ).len(),
        forall|i: int| 0 <= i < d@.rows.len() ==> row_no_newline(#[trigger] d@.rows[i]),
        has_no_cr(left_content@) && has_no_cr(right_content@) ==> forall|i: int|
            0 <= i < d@.rows.len() ==> equal_row_texts(#[trigger] d@.rows[i]),
{
    let ops = line_ops(left_content, right_content);
    let old_lines = split_lines(left_content);
    let new_lines = split_lines(right_content);
    // Each text's byte length is a `usize`, which bounds its line count.
    let left_bytes = left_content.as_bytes().len();
    let right_bytes = right_content.as_bytes().len();
    proof {
        assert(left_bytes == encode_utf8(left_content@).len());
        assert(right_bytes == encode_utf8(right_content@).len());
        lemma_chars_le_bytes(left_content@);
        lemma_chars_le_bytes(right_content@);
        lemma_line_count_le(left_content@);
        lemma_line_count_le(right_content@);
        lemma_tile_fit(ops@, similar_line_count(left_content@), similar_line_count(right_content@));
        lemma_numbering(ops@, lines_spec(left_content@), lines_spec(right_content@));
        if left_content@ == right_content@ {
            lemma_equal_ops(ops@, lines_spec(left_content@));
            if has_no_cr(left_content@) {
                lemma_line_count_without_cr(left_content@);
            }
        }
    }
    let d = diff_from_ops(&ops, &old_lines, &new_lines);
    proof {
        let ol = lines_spec(left_content@);
        let nl = lines_spec(right_content@);
        lemma_diff_rows(ops@, ol, nl);
        lemma_lines_no_newline(left_content@);
        lemma_lines_no_newline(right_content@);
        assert forall|i: int| 0 <= i < d@.rows.len() implies row_no_newline(#[trigger] d@.rows[i]) by {
            lemma_row_no_newline(d@.rows[i], ol, nl);
        }
        if has_no_cr(left_content@) && has_no_cr(right_content@) {
            lemma_pairs_without_cr(ops@, left_content@, right_content@);
            lemma_equal_rows(ops@, ol, nl);
        }
    }
    d
}

/// The text of a cell: its spans' texts one after the other.
pub open spec fn spans_text(spans: Seq<SpanView>) -> Seq<char>
    decreases spans.len(),
{
    if spans.len() == 0 {
        seq![]
    } else {
        spans_text(spans.drop_last()) + spans.last().text
    }
}

/// Every span has some text.
pub open spec fn spans_nonempty(spans: Seq<SpanView>) -> bool {
    forall|i: int| 0 <= i < spans.len() ==> (#[trigger] spans[i]).text.len() > 0
}

/// Spans that each have some text show some text, if there are any.
proof fn lemma_nonempty_spans_text(spans: Seq<SpanView>)
    requires
        spans_nonempty(spans),
        spans.len() > 0,
    ensures
        spans_text(spans).len() > 0,
{
    assert(spans.last() == spans[spans.len() - 1]);
}

/// Neighbouring spans differ in emphasis.
pub open spec fn alternating(spans: Seq<SpanView>) -> bool {
    forall|i: int| 0 < i < spans.len() ==> #[trigger] spans[i].emphasized != spans[i - 1].emphasized
}

/// Appending a span adds its text at the end of the cell's text, and keeps
/// neighbouring spans differing in emphasis.
pub proof fn lemma_append_span(spans: Seq<SpanView>, text: Seq<char>, emphasized: bool)
    ensures
        spans_text(append_span_spec(spans, text, emphasized)) == spans_text(spans) + text,
        alternating(spans) ==> alternating(append_span_spec(spans, text, emphasized)),
        spans_nonempty(spans) && text.len() > 0 ==> spans_nonempty(append_span_spec(spans, text, emphasized)),
{
    let r = append_span_spec(spans, text, emphasized);
    if spans_nonempty(spans) && text.len() > 0 {
        assert forall|i: int| 0 <= i < r.len() implies (#[trigger] r[i]).text.len() > 0 by {
            if i < spans.len() - 1 {
                assert(r[i] == spans[i]);
            } else if i < spans.len() {
                assert(spans[i].text.len() > 0);
            }
        }
    }
    if spans.len() > 0 && spans.last().emphasized == emphasized {
        assert(r.drop_last() =~= spans.drop_last());
        assert(spans_text(spans) == spans_text(spans.drop_last()) + spans.last().text);
        assert(spans_text(r) =~= spans_text(spans) + text);
    } else {
        assert(r.drop_last() =~= spans);
        assert(spans_text(r) =~= spans_text(spans) + text);
    }
}

/// The text of the changes that belong to the old line (equal or deleted).
pub open spec fn old_side_text(changes: Seq<(ChangeKind, Seq<char>)>) -> Seq<char>
    decreases changes.len(),
{
    if changes.len() == 0 {
        seq![]
    } else if changes.last().0 == ChangeKind::Insert {
        old_side_text(changes.drop_last())
    } else {
        old_side_text(changes.drop_last()) + changes.last().1
    }
}

/// The text of the changes that belong to the new line (equal or inserted).
pub open spec fn new_side_text(changes: Seq<(ChangeKind, Seq<char>)>) -> Seq<char>
    decreases changes.len(),
{
    if changes.len() == 0 {
        seq![]
    } else if changes.last().0 == ChangeKind::Delete {
        new_side_text(changes.drop_last())
    } else {
        new_side_text(changes.drop_last()) + changes.last().1
    }
}

/// A character diff loses no text: the old side's spans spell out the equal
/// and deleted changes in order, the new side's the equal and inserted ones;
/// and on each side neighbouring spans differ in emphasis.
pub proof fn lemma_char_spans(changes: Seq<(ChangeKind, Seq<char>)>)
    ensures
        spans_text(char_spans_spec(changes).0) == old_side_text(changes),
        spans_text(char_spans_spec(changes).1) == new_side_text(changes),
        alternating(char_spans_spec(changes).0),
        alternating(char_spans_spec(changes).1),
        (forall|i: int| 0 <= i < changes.len() ==> (#[trigger] changes[i]).1.len() > 0) ==> {
            &&& spans_nonempty(char_spans_spec(changes).0)
            &&& spans_nonempty(char_spans_spec(changes).1)
        },
    decreases changes.len(),
{
    if changes.len() > 0 {
        let prev = char_spans_spec(changes.drop_last());
        if forall|i: int| 0 <= i < changes.len() ==> (#[trigger] changes[i]).1.len() > 0 {
            assert forall|i: int| 0 <= i < changes.drop_last().len() implies (
            #[trigger] changes.drop_last()[i]).1.len() > 0 by {
                assert(changes.drop_last()[i] == changes[i]);
            }
            assert(changes.last() == changes[changes.len() - 1]);
        }
        lemma_char_spans(changes.drop_last());
        let ch = changes.last();
        lemma_append_span(prev.0, ch.1, false);
        lemma_append_span(prev.0, ch.1, true);
        lemma_append_span(prev.1, ch.1, false);
        lemma_append_span(prev.1, ch.1, true);
    }
}

/// The shape every row has: a line number exactly on non-empty cells, no
/// text in empty cells, equal lines facing equal lines, deletions on the
/// left and insertions on the right, and never two empty cells.
pub open spec fn row_shape(r: RowView) -> bool {
    &&& (r.left.kind == CellKind::Equal <==> r.right.kind == CellKind::Equal)
    &&& r.left.kind != CellKind::Insert
    &&& r.right.kind != CellKind::Delete
    &&& !(r.left.kind == CellKind::Empty && r.right.kind == CellKind::Empty)
    &&& (r.left.kind == CellKind::Empty <==> r.left.line_number is None)
    &&& (r.right.kind == CellKind::Empty <==> r.right.line_number is None)
    &&& (r.left.kind == CellKind::Empty ==> r.left.spans.len() == 0)
    &&& (r.right.kind == CellKind::Empty ==> r.right.spans.len() == 0)
}

/// The number of rows whose left side is not an unchanged line.
pub open spec fn changed_rows(rows: Seq<RowView>) -> nat
    decreases rows.len(),
{
    if rows.len() == 0 {
        0
    } else {
        changed_rows(rows.drop_last()) + if rows.last().left.kind != CellKind::Equal {
            1nat
        } else {
            0nat
        }
    }
}

proof fn lemma_changed_rows_concat(a: Seq<RowView>, b: Seq<RowView>)
    ensures
        changed_rows(a + b) == changed_rows(a) + changed_rows(b),
    decreases b.len(),
{
    if b.len() == 0 {
        assert(a + b =~= a);
    } else {
        lemma_changed_rows_concat(a, b.drop_last());
        assert((a + b).drop_last() =~= a + b.drop_last());
    }
}

proof fn lemma_changed_op_rows(op: LineOp, ol: Seq<Seq<char>>, nl: Seq<Seq<char>>, n: nat)
    requires
        n <= op_len(op),
    ensures
        changed_rows(op_rows(op, ol, nl).take(n as int)) == if op is Equal {
            0
        } else {
            n
        },
    decreases n,
{
    if n > 0 {
        lemma_changed_op_rows(op, ol, nl, (n - 1) as nat);
        assert(op_rows(op, ol, nl).take(n as int).drop_last() =~= op_rows(op, ol, nl).take(n - 1));
    }
}

/// Every row of a comparison has the shape `row_shape` describes, and the
/// count of differing lines is the number of rows whose left side is not an
/// unchanged line.
pub proof fn lemma_diff_rows(ops: Seq<LineOp>, old_lines: Seq<Seq<char>>, new_lines: Seq<Seq<char>>)
    ensures
        forall|i: int|
            0 <= i < rows_spec(ops, old_lines, new_lines).len() ==> row_shape(
                #[trigger] rows_spec(ops, old_lines, new_lines)[i],
            ),
        diff_of_ops(ops, old_lines, new_lines).differ_count == changed_rows(
            diff_of_ops(ops, old_lines, new_lines).rows,
        ),
    decreases ops.len(),
{
    if ops.len() > 0 {
        let prev = rows_spec(ops.drop_last(), old_lines, new_lines);
        let last = op_rows(ops.last(), old_lines, new_lines);
        lemma_diff_rows(ops.drop_last(), old_lines, new_lines);
        lemma_changed_rows_concat(prev, last);
        lemma_changed_op_rows(ops.last(), old_lines, new_lines, op_len(ops.last()));
        assert(last.take(op_len(ops.last()) as int) =~= last);
        assert forall|i: int| 0 <= i < (prev + last).len() implies row_shape(#[trigger] (prev + last)[i]) by {
            if i >= prev.len() {
                assert((prev + last)[i] == last[i - prev.len()]);
            } else {
                assert((prev + last)[i] == prev[i]);
            }
        }
    }
}

/// The rows of two equal texts: line `i` unchanged on both sides.
pub open spec fn equal_row(lines: Seq<Seq<char>>, i: int) -> RowView {
    RowView {
        left: plain_cell_spec(i, CellKind::Equal, line_at_spec(lines, i)),
        right: plain_cell_spec(i, CellKind::Equal, line_at_spec(lines, i)),
    }
}

/// Each numbered cell shows the text of the line of its number.
pub open spec fn row_shows_lines(r: RowView, old_lines: Seq<Seq<char>>, new_lines: Seq<Seq<char>>) -> bool {
    &&& (r.left.line_number matches Some(k) ==> spans_text(r.left.spans) == line_at_spec(old_lines, k - 1))
    &&& (r.right.line_number matches Some(k) ==> spans_text(r.right.spans) == line_at_spec(new_lines, k - 1))
}

/// The number of lines `similar` splits `s` into that end with a line
/// ending: a line ends at `\n`, at `\r\n`, or at a `\r` not followed by `\n`.
pub open spec fn ended_lines(s: Seq<char>) -> nat
    decreases s.len(),
{
    if s.len() == 0 {
        0
    } else {
        let p = s.drop_last();
        if s.last() == '\r' {
            ended_lines(p) + 1
        } else if s.last() == '\n' {
            if p.len() > 0 && p.last() == '\r' {
                ended_lines(p)
            } else {
                ended_lines(p) + 1
            }
        } else {
            ended_lines(p)
        }
    }
}

/// The number of lines `similar` splits `s` into: the ended lines, and the
/// text after the last line ending if there is any.
pub open spec fn similar_line_count(s: Seq<char>) -> nat {
    ended_lines(s) + if s.len() > 0 && s.last() != '\n' && s.last() != '\r' {
        1nat
    } else {
        0nat
    }
}

/// Scanning `s` from the left as `similar` splits it into lines: the lines
/// ended so far, each with its line ending (`\n`, `\r\n` or a lone `\r`),
/// and the characters of the line still open.
pub open spec fn similar_state(s: Seq<char>) -> (Seq<Seq<char>>, Seq<char>)
    decreases s.len(),
{
    if s.len() == 0 {
        (seq![], seq![])
    } else {
        let p = s.drop_last();
        let prev = similar_state(p);
        let c = s.last();
        if c == '\r' {
            (prev.0.push(prev.1.push('\r')), seq![])
        } else if c == '\n' && p.len() > 0 && p.last() == '\r' {
            (prev.0.drop_last().push(prev.0.last().push('\n')), prev.1)
        } else if c == '\n' {
            (prev.0.push(prev.1.push('\n')), seq![])
        } else {
            (prev.0, prev.1.push(c))
        }
    }
}

/// The lines `similar` splits `s` into and compares, each with its line
/// ending.
pub open spec fn similar_lines(s: Seq<char>) -> Seq<Seq<char>> {
    let st = similar_state(s);
    if st.1.len() > 0 {
        st.0.push(st.1)
    } else {
        st.0
    }
}

/// Line `start + j` of `lines`.
pub open spec fn line_from(lines: Seq<Seq<char>>, start: int, j: int) -> Seq<char> {
    line_at_spec(lines, start + j)
}

/// An equal operation pairs equal lines.
pub open spec fn op_pairs_equal(op: LineOp, old_lines: Seq<Seq<char>>, new_lines: Seq<Seq<char>>) -> bool {
    match op {
        LineOp::Equal { old_index, new_index, len } => forall|j: int|
            0 <= j < len ==> #[trigger] line_from(old_lines, old_index as int, j) == line_from(
                new_lines,
                new_index as int,
                j,
            ),
        _ => true,
    }
}

/// Every equal operation pairs equal lines.
pub open spec fn ops_pair_equal(ops: Seq<LineOp>, old_lines: Seq<Seq<char>>, new_lines: Seq<Seq<char>>) -> bool {
    forall|k: int| 0 <= k < ops.len() ==> op_pairs_equal(#[trigger] ops[k], old_lines, new_lines)
}

/// A text without carriage returns.
pub open spec fn has_no_cr(s: Seq<char>) -> bool {
    forall|i: int| 0 <= i < s.len() ==> s[i] != '\r'
}

/// A line without its final line feed.
pub open spec fn strip_lf(line: Seq<char>) -> Seq<char> {
    if line.len() > 0 && line.last() == '\n' {
        line.drop_last()
    } else {
        line
    }
}

/// Where an operation starts among the old lines.
pub open spec fn op_old_start(op: LineOp) -> int {
    match op {
        LineOp::Equal { old_index, .. } => old_index as int,
        LineOp::Delete { old_index, .. } => old_index as int,
        LineOp::Insert { old_index, .. } => old_index as int,
        LineOp::Replace { old_index, .. } => old_index as int,
    }
}

/// Where an operation starts among the new lines.
pub open spec fn op_new_start(op: LineOp) -> int {
    match op {
        LineOp::Equal { new_index, .. } => new_index as int,
        LineOp::Delete { new_index, .. } => new_index as int,
        LineOp::Insert { new_index, .. } => new_index as int,
        LineOp::Replace { new_index, .. } => new_index as int,
    }
}

/// How many old lines an operation covers.
pub open spec fn op_old_len(op: LineOp) -> nat {
    match op {
        LineOp::Equal { len, .. } => len as nat,
        LineOp::Delete { old_len, .. } => old_len as nat,
        LineOp::Insert { .. } => 0,
        LineOp::Replace { old_len, .. } => old_len as nat,
    }
}

/// How many new lines an operation covers.
pub open spec fn op_new_len(op: LineOp) -> nat {
    match op {
        LineOp::Equal { len, .. } => len as nat,
        LineOp::Delete { .. } => 0,
        LineOp::Insert { new_len, .. } => new_len as nat,
        LineOp::Replace { new_len, .. } => new_len as nat,
    }
}

/// The old lines the operations cover together.
pub open spec fn old_end(ops: Seq<LineOp>) -> nat
    decreases ops.len(),
{
    if ops.len() == 0 {
        0
    } else {
        old_end(ops.drop_last()) + op_old_len(ops.last())
    }
}

/// The new lines the operations cover together.
pub open spec fn new_end(ops: Seq<LineOp>) -> nat
    decreases ops.len(),
{
    if ops.len() == 0 {
        0
    } else {
        new_end(ops.drop_last()) + op_new_len(ops.last())
    }
}

/// Each operation starts where the ones before it end, on both sides.
pub open spec fn ops_consecutive(ops: Seq<LineOp>) -> bool {
    forall|k: int|
        0 <= k < ops.len() ==> op_old_start(#[trigger] ops[k]) == old_end(ops.take(k)) && op_new_start(
            ops[k],
        ) == new_end(ops.take(k))
}

/// The operations follow one another and cover `n_old` old lines and `n_new`
/// new lines.
pub open spec fn ops_tile(ops: Seq<LineOp>, n_old: nat, n_new: nat) -> bool {
    &&& ops_consecutive(ops)
    &&& old_end(ops) == n_old
    &&& new_end(ops) == n_new
}

/// The line numbers of the left cells that show a line, in order.
pub open spec fn left_numbers(rows: Seq<RowView>) -> Seq<int>
    decreases rows.len(),
{
    if rows.len() == 0 {
        seq![]
    } else {
        left_numbers(rows.drop_last()) + match rows.last().left.line_number {
            Some(n) => seq![n],
            None => seq![],
        }
    }
}

/// The line numbers of the right cells that show a line, in order.
pub open spec fn right_numbers(rows: Seq<RowView>) -> Seq<int>
    decreases rows.len(),
{
    if rows.len() == 0 {
        seq![]
    } else {
        right_numbers(rows.drop_last()) + match rows.last().right.line_number {
            Some(n) => seq![n],
            None => seq![],
        }
    }
}

proof fn lemma_numbers_concat(a: Seq<RowView>, b: Seq<RowView>)
    ensures
        left_numbers(a + b) == left_numbers(a) + left_numbers(b),
        right_numbers(a + b) == right_numbers(a) + right_numbers(b),
    decreases b.len(),
{
    if b.len() == 0 {
        assert(a + b =~= a);
        assert(left_numbers(a) + left_numbers(b) =~= left_numbers(a));
        assert(right_numbers(a) + right_numbers(b) =~= right_numbers(a));
    } else {
        lemma_numbers_concat(a, b.drop_last());
        assert((a + b).drop_last() =~= a + b.drop_last());
        assert(left_numbers(a + b) =~= left_numbers(a) + left_numbers(b));
        assert(right_numbers(a + b) =~= right_numbers(a) + right_numbers(b));
    }
}

proof fn lemma_op_numbers(op: LineOp, ol: Seq<Seq<char>>, nl: Seq<Seq<char>>, m: nat)
    requires
        m <= op_len(op),
    ensures
        left_numbers(op_rows(op, ol, nl).take(m as int)) == Seq::new(
            if m <= op_old_len(op) {
                m
            } else {
                op_old_len(op)
            },
            |i: int| op_old_start(op) + i + 1,
        ),
        right_numbers(op_rows(op, ol, nl).take(m as int)) == Seq::new(
            if m <= op_new_len(op) {
                m
            } else {
                op_new_len(op)
            },
            |i: int| op_new_start(op) + i + 1,
        ),
    decreases m,
{
    if m > 0 {
        lemma_op_numbers(op, ol, nl, (m - 1) as nat);
        let rows = op_rows(op, ol, nl).take(m as int);
        assert(rows.drop_last() =~= op_rows(op, ol, nl).take(m - 1));
        assert(left_numbers(rows) =~= Seq::new(
            if m <= op_old_len(op) {
                m
            } else {
                op_old_len(op)
            },
            |i: int| op_old_start(op) + i + 1,
        ));
        assert(right_numbers(rows) =~= Seq::new(
            if m <= op_new_len(op) {
                m
            } else {
                op_new_len(op)
            },
            |i: int| op_new_start(op) + i + 1,
        ));
    } else {
        assert(op_rows(op, ol, nl).take(0) =~= Seq::<RowView>::empty());
        assert(left_numbers(Seq::<RowView>::empty()) =~= Seq::new(0, |i: int| op_old_start(op) + i + 1));
        assert(right_numbers(Seq::<RowView>::empty()) =~= Seq::new(0, |i: int| op_new_start(op) + i + 1));
    }
}

/// Operations that follow one another number each side's lines 1, 2, ...
/// in order, as far as they cover.
pub proof fn lemma_numbering(ops: Seq<LineOp>, old_lines: Seq<Seq<char>>, new_lines: Seq<Seq<char>>)
    requires
        ops_consecutive(ops),
    ensures
        left_numbers(rows_spec(ops, old_lines, new_lines)) == Seq::new(old_end(ops), |i: int| i + 1),
        right_numbers(rows_spec(ops, old_lines, new_lines)) == Seq::new(new_end(ops), |i: int| i + 1),
    decreases ops.len(),
{
    if ops.len() == 0 {
        assert(left_numbers(Seq::<RowView>::empty()) =~= Seq::new(0, |i: int| i + 1));
        assert(right_numbers(Seq::<RowView>::empty()) =~= Seq::new(0, |i: int| i + 1));
    } else {
        let d = ops.drop_last();
        let last = ops.last();
        assert forall|k: int| 0 <= k < d.len() implies op_old_start(#[trigger] d[k]) == old_end(d.take(k))
            && op_new_start(d[k]) == new_end(d.take(k)) by {
            assert(d.take(k) =~= ops.take(k));
            assert(d[k] == ops[k]);
        }
        lemma_numbering(d, old_lines, new_lines);
        assert(ops.take(ops.len() - 1) =~= d);
        assert(op_old_start(ops[ops.len() - 1]) == old_end(d));
        lemma_numbers_concat(rows_spec(d, old_lines, new_lines), op_rows(last, old_lines, new_lines));
        lemma_op_numbers(last, old_lines, new_lines, op_len(last));
        assert(op_rows(last, old_lines, new_lines).take(op_len(last) as int) =~= op_rows(
            last,
            old_lines,
            new_lines,
        ));
        assert(op_old_len(last) <= op_len(last));
        assert(op_new_len(last) <= op_len(last));
        assert(left_numbers(rows_spec(ops, old_lines, new_lines)) =~= Seq::new(old_end(ops), |i: int| i + 1));
        assert(right_numbers(rows_spec(ops, old_lines, new_lines)) =~= Seq::new(new_end(ops), |i: int| i + 1));
    }
}

/// Only equal operations, following one another: every row is an
/// unchanged line, row `i` showing line `i`, and no line differs.
pub proof fn lemma_equal_ops(ops: Seq<LineOp>, lines: Seq<Seq<char>>)
    requires
        ops_consecutive(ops),
        forall|k: int| 0 <= k < ops.len() ==> #[trigger] ops[k] is Equal,
    ensures
        old_end(ops) == new_end(ops),
        rows_spec(ops, lines, lines) == Seq::new(old_end(ops), |i: int| equal_row(lines, i)),
        differ_spec(ops) == 0,
    decreases ops.len(),
{
    if ops.len() == 0 {
        assert(rows_spec(ops, lines, lines) =~= Seq::new(0, |i: int| equal_row(lines, i)));
    } else {
        let d = ops.drop_last();
        let last = ops.last();
        assert forall|k: int| 0 <= k < d.len() implies op_old_start(#[trigger] d[k]) == old_end(d.take(k))
            && op_new_start(d[k]) == new_end(d.take(k)) by {
            assert(d.take(k) =~= ops.take(k));
            assert(d[k] == ops[k]);
        }
        assert forall|k: int| 0 <= k < d.len() implies #[trigger] d[k] is Equal by {
            assert(d[k] == ops[k]);
        }
        lemma_equal_ops(d, lines);
        assert(ops.take(ops.len() - 1) =~= d);
        assert(ops[ops.len() - 1] is Equal);
        assert(rows_spec(ops, lines, lines) =~= Seq::new(old_end(ops), |i: int| equal_row(lines, i)));
    }
}

proof fn lemma_end_prefix(ops: Seq<LineOp>, k: int)
    requires
        0 <= k <= ops.len(),
    ensures
        old_end(ops.take(k)) <= old_end(ops),
        new_end(ops.take(k)) <= new_end(ops),
    decreases ops.len(),
{
    if k < ops.len() {
        lemma_end_prefix(ops.drop_last(), k);
        assert(ops.drop_last().take(k) =~= ops.take(k));
    } else {
        assert(ops.take(k) =~= ops);
    }
}

/// Operations that follow one another over texts whose line counts each fit
/// in a `usize` have line numbers that fit.
pub proof fn lemma_tile_fit(ops: Seq<LineOp>, n_old: nat, n_new: nat)
    requires
        ops_tile(ops, n_old, n_new),
        n_old <= usize::MAX,
        n_new <= usize::MAX,
    ensures
        ops_fit(ops),
{
    assert forall|k: int| 0 <= k < ops.len() implies op_fits(#[trigger] ops[k]) by {
        lemma_end_prefix(ops, k + 1);
        assert(ops.take(k + 1).drop_last() =~= ops.take(k));
    }
}

/// `similar` splits a text into at most as many lines as it has characters.
pub proof fn lemma_line_count_le(s: Seq<char>)
    ensures
        similar_line_count(s) <= s.len(),
{
    lemma_ended_lines_le(s);
    if s.len() > 0 && s.last() != '\n' && s.last() != '\r' {
        lemma_ended_lines_le(s.drop_last());
    }
}

proof fn lemma_ended_lines_le(s: Seq<char>)
    ensures
        ended_lines(s) <= s.len(),
    decreases s.len(),
{
    if s.len() > 0 {
        lemma_ended_lines_le(s.drop_last());
    }
}

/// A text has at least as many bytes in UTF-8 as characters.
pub proof fn lemma_chars_le_bytes(s: Seq<char>)
    ensures
        s.len() <= encode_utf8(s).len(),
    decreases s.len(),
{
    if s.len() > 0 {
        lemma_chars_le_bytes(s.drop_first());
    }
}

proof fn lemma_lines_no_cr(s: Seq<char>)
    requires
        forall|i: int| 0 <= i < s.len() ==> s[i] != '\r',
    ensures
        lines_state(s).0.len() == ended_lines(s),
        lines_state(s).1.len() > 0 <==> (s.len() > 0 && s.last() != '\n'),
    decreases s.len(),
{
    if s.len() > 0 {
        let p = s.drop_last();
        assert forall|i: int| 0 <= i < p.len() implies p[i] != '\r' by {
            assert(p[i] == s[i]);
        }
        lemma_lines_no_cr(p);
        assert(s.last() == s[s.len() - 1]);
        if p.len() > 0 {
            assert(p.last() == s[s.len() - 2]);
        }
    }
}

/// Without carriage returns, `similar` splits a text into the same lines as
/// `str::lines` does.
pub proof fn lemma_line_count_without_cr(s: Seq<char>)
    requires
        forall|i: int| 0 <= i < s.len() ==> s[i] != '\r',
    ensures
        similar_line_count(s) == lines_spec(s).len(),
{
    lemma_lines_no_cr(s);
    if s.len() > 0 {
        assert(s.last() == s[s.len() - 1]);
    }
}

proof fn lemma_similar_state_no_cr(s: Seq<char>)
    requires
        has_no_cr(s),
    ensures
        similar_state(s).1 == lines_state(s).1,
        similar_state(s).0.len() == lines_state(s).0.len(),
        forall|i: int|
            0 <= i < lines_state(s).0.len() ==> #[trigger] similar_state(s).0[i] == lines_state(s).0[i].push(
                '\n',
            ),
        forall|j: int|
            0 <= j < lines_state(s).1.len() ==> #[trigger] lines_state(s).1[j] != '\n' && lines_state(s).1[j]
                != '\r',
    decreases s.len(),
{
    if s.len() > 0 {
        let p = s.drop_last();
        assert forall|i: int| 0 <= i < p.len() implies p[i] != '\r' by {
            assert(p[i] == s[i]);
        }
        lemma_similar_state_no_cr(p);
        assert(s.last() == s[s.len() - 1]);
        if p.len() > 0 {
            assert(p.last() == p[p.len() - 1]);
        }
        let lp = lines_state(p);
        if lp.1.len() > 0 {
            assert(lp.1.last() == lp.1[lp.1.len() - 1]);
        }
    }
}

/// Without carriage returns, each line of `str::lines` is the line
/// `similar` compares, without its line feed.
pub proof fn lemma_similar_lines_no_cr(s: Seq<char>)
    requires
        has_no_cr(s),
    ensures
        forall|x: int| #[trigger] line_at_spec(lines_spec(s), x) == strip_lf(line_at_spec(similar_lines(s), x)),
{
    lemma_similar_state_no_cr(s);
    let st = lines_state(s);
    assert forall|x: int| #[trigger] line_at_spec(lines_spec(s), x) == strip_lf(line_at_spec(similar_lines(s), x)) by {
        if 0 <= x < st.0.len() {
            assert(similar_lines(s)[x] == st.0[x].push('\n'));
            assert(st.0[x].push('\n').drop_last() =~= st.0[x]);
        } else if x == st.0.len() && st.1.len() > 0 {
            assert(st.1.last() == st.1[st.1.len() - 1]);
        }
    }
}

proof fn lemma_pairs_without_cr(ops: Seq<LineOp>, left: Seq<char>, right: Seq<char>)
    requires
        ops_pair_equal(ops, similar_lines(left), similar_lines(right)),
        has_no_cr(left),
        has_no_cr(right),
    ensures
        ops_pair_equal(ops, lines_spec(left), lines_spec(right)),
{
    lemma_similar_lines_no_cr(left);
    lemma_similar_lines_no_cr(right);
    assert forall|k: int| 0 <= k < ops.len() implies op_pairs_equal(#[trigger] ops[k], lines_spec(left), lines_spec(right)) by {
        assert(op_pairs_equal(ops[k], similar_lines(left), similar_lines(right)));
        match ops[k] {
            LineOp::Equal { old_index, new_index, len } => {
                assert forall|j: int| 0 <= j < len implies #[trigger] line_from(lines_spec(left), old_index as int, j)
                    == line_from(lines_spec(right), new_index as int, j) by {
                    assert(line_from(similar_lines(left), old_index as int, j) == line_from(
                        similar_lines(right),
                        new_index as int,
                        j,
                    ));
                    assert(line_at_spec(lines_spec(left), old_index + j) == strip_lf(
                        line_at_spec(similar_lines(left), old_index + j),
                    ));
                    assert(line_at_spec(lines_spec(right), new_index + j) == strip_lf(
                        line_at_spec(similar_lines(right), new_index + j),
                    ));
                }
            },
            _ => {},
        }
    }
}

/// A row whose left side is an unchanged line has an unchanged line on the
/// right too, showing the same text.
pub open spec fn equal_row_texts(r: RowView) -> bool {
    r.left.kind == CellKind::Equal ==> (r.right.kind == CellKind::Equal && spans_text(r.left.spans)
        == spans_text(r.right.spans))
}

proof fn lemma_single_span(t: Seq<char>, e: bool)
    ensures
        spans_text(seq![SpanView { text: t, emphasized: e }]) == t,
{
    let sp = seq![SpanView { text: t, emphasized: e }];
    assert(sp.drop_last() =~= Seq::<SpanView>::empty());
    assert(spans_text(Seq::<SpanView>::empty()) == Seq::<char>::empty());
    assert(sp.last().text == t);
    assert(Seq::<char>::empty() + t =~= t);
    assert(spans_text(sp) =~= t);
}

/// Where equal operations pair equal lines, every unchanged row shows the
/// same text on both sides.
pub proof fn lemma_equal_rows(ops: Seq<LineOp>, old_lines: Seq<Seq<char>>, new_lines: Seq<Seq<char>>)
    requires
        ops_pair_equal(ops, old_lines, new_lines),
    ensures
        forall|i: int|
            0 <= i < rows_spec(ops, old_lines, new_lines).len() ==> equal_row_texts(
                #[trigger] rows_spec(ops, old_lines, new_lines)[i],
            ),
    decreases ops.len(),
{
    if ops.len() > 0 {
        let prev_ops = ops.drop_last();
        assert forall|k: int| 0 <= k < prev_ops.len() implies op_pairs_equal(#[trigger] prev_ops[k], old_lines, new_lines) by {
            assert(prev_ops[k] == ops[k]);
        }
        lemma_equal_rows(prev_ops, old_lines, new_lines);
        let op = ops.last();
        assert(op == ops[ops.len() - 1]);
        assert(op_pairs_equal(op, old_lines, new_lines));
        let prev = rows_spec(prev_ops, old_lines, new_lines);
        let last = op_rows(op, old_lines, new_lines);
        assert forall|i: int| 0 <= i < (prev + last).len() implies equal_row_texts(#[trigger] (prev + last)[i]) by {
            if i < prev.len() {
                assert((prev + last)[i] == prev[i]);
            } else {
                let j = i - prev.len();
                assert((prev + last)[i] == op_row(op, old_lines, new_lines, j));
                match op {
                    LineOp::Equal { old_index, new_index, len } => {
                        assert(line_from(old_lines, old_index as int, j) == line_from(new_lines, new_index as int, j));
                        lemma_single_span(line_at_spec(old_lines, old_index + j), false);
                        lemma_single_span(line_at_spec(new_lines, new_index + j), false);
                    },
                    _ => {},
                }
            }
        }
    }
}

/// No span of the cell holds a line feed.
pub open spec fn cell_no_newline(c: CellView) -> bool {
    forall|i: int, j: int|
        0 <= i < c.spans.len() && 0 <= j < c.spans[i].text.len() ==> #[trigger] c.spans[i].text[j] != '\n'
}

/// No span of the row holds a line feed.
pub open spec fn row_no_newline(r: RowView) -> bool {
    cell_no_newline(r.left) && cell_no_newline(r.right)
}

/// A text without line feeds.
pub open spec fn text_no_newline(t: Seq<char>) -> bool {
    forall|j: int| 0 <= j < t.len() ==> t[j] != '\n'
}

/// Lines without line feeds.
pub open spec fn lines_no_newline(ls: Seq<Seq<char>>) -> bool {
    forall|i: int| 0 <= i < ls.len() ==> text_no_newline(#[trigger] ls[i])
}

proof fn lemma_lines_state_no_newline(s: Seq<char>)
    ensures
        lines_no_newline(lines_state(s).0),
        text_no_newline(lines_state(s).1),
    decreases s.len(),
{
    if s.len() > 0 {
        lemma_lines_state_no_newline(s.drop_last());
        let prev = lines_state(s.drop_last());
        let l = strip_cr(prev.1);
        assert forall|j: int| 0 <= j < l.len() implies l[j] != '\n' by {
            assert(l[j] == prev.1[j]);
        }
        let st = lines_state(s);
        assert forall|i: int| 0 <= i < st.0.len() implies text_no_newline(#[trigger] st.0[i]) by {
            if i < prev.0.len() {
                assert(st.0[i] == prev.0[i]);
            }
        }
    }
}

/// The lines of `str::lines` hold no line feed.
pub proof fn lemma_lines_no_newline(s: Seq<char>)
    ensures
        lines_no_newline(lines_spec(s)),
{
    lemma_lines_state_no_newline(s);
    let st = lines_state(s);
    let ls = lines_spec(s);
    assert forall|i: int| 0 <= i < ls.len() implies text_no_newline(#[trigger] ls[i]) by {
        if i < st.0.len() {
            assert(ls[i] == st.0[i]);
        }
    }
}

proof fn lemma_spans_no_newline(spans: Seq<SpanView>)
    requires
        text_no_newline(spans_text(spans)),
    ensures
        forall|i: int, j: int|
            0 <= i < spans.len() && 0 <= j < spans[i].text.len() ==> #[trigger] spans[i].text[j] != '\n',
    decreases spans.len(),
{
    if spans.len() > 0 {
        let dl = spans.drop_last();
        let t = spans_text(spans);
        let td = spans_text(dl);
        assert(t == td + spans.last().text);
        assert forall|j: int| 0 <= j < td.len() implies td[j] != '\n' by {
            assert(t[j] == td[j]);
        }
        lemma_spans_no_newline(dl);
        assert forall|i: int, j: int| 0 <= i < spans.len() && 0 <= j < spans[i].text.len() implies #[trigger] spans[i].text[j]
            != '\n' by {
            if i < dl.len() {
                assert(spans[i] == dl[i]);
                assert(dl[i].text[j] != '\n');
            } else {
                assert(spans[i] == spans.last());
                assert(t[td.len() + j] == spans.last().text[j]);
            }
        }
    }
}

proof fn lemma_row_no_newline(r: RowView, old_lines: Seq<Seq<char>>, new_lines: Seq<Seq<char>>)
    requires
        row_shape(r),
        row_shows_lines(r, old_lines, new_lines),
        lines_no_newline(old_lines),
        lines_no_newline(new_lines),
    ensures
        row_no_newline(r),
{
    match r.left.line_number {
        Some(k) => {
            let l = line_at_spec(old_lines, k - 1);
            if 0 <= k - 1 < old_lines.len() {
                assert(text_no_newline(old_lines[k - 1]));
            }
            assert(text_no_newline(l));
            lemma_spans_no_newline(r.left.spans);
        },
        None => {},
    }
    match r.right.line_number {
        Some(k) => {
            let l = line_at_spec(new_lines, k - 1);
            if 0 <= k - 1 < new_lines.len() {
                assert(text_no_newline(new_lines[k - 1]));
            }
            assert(text_no_newline(l));
            lemma_spans_no_newline(r.right.spans);
        },
        None => {},
    }
}

/// The cell shows its numbered line whole, in one unemphasized span.
pub open spec fn shows_plain_line(c: CellView, lines: Seq<Seq<char>>) -> bool {
    &&& c.line_number is Some
    &&& c.spans == seq![SpanView { text: line_at_spec(lines, c.line_number->0 - 1), emphasized: false }]
}

/// Emphasis marks only the characters of a replaced line shown beside its
/// replacement: a line facing an empty cell, and an unchanged line, are
/// shown whole and plain.
pub open spec fn emphasis_only_when_paired(r: RowView, old_lines: Seq<Seq<char>>, new_lines: Seq<Seq<char>>) -> bool {
    &&& r.right.kind == CellKind::Empty ==> shows_plain_line(r.left, old_lines)
    &&& r.left.kind == CellKind::Empty ==> shows_plain_line(r.right, new_lines)
    &&& r.left.kind == CellKind::Equal ==> shows_plain_line(r.left, old_lines) && shows_plain_line(
        r.right,
        new_lines,
    )
    &&& forall|j: int|
        0 <= j < r.left.spans.len() && (#[trigger] r.left.spans[j]).emphasized ==> r.left.kind
            == CellKind::Delete && r.right.kind == CellKind::Insert
    &&& forall|j: int|
        0 <= j < r.right.spans.len() && (#[trigger] r.right.spans[j]).emphasized ==> r.left.kind
            == CellKind::Delete && r.right.kind == CellKind::Insert
}

proof fn lemma_op_rows_plain(op: LineOp, old_lines: Seq<Seq<char>>, new_lines: Seq<Seq<char>>, i: int)
    requires
        0 <= i < op_len(op),
    ensures
        emphasis_only_when_paired(op_row(op, old_lines, new_lines, i), old_lines, new_lines),
{
    let r = op_row(op, old_lines, new_lines, i);
    assert(r.left.spans.len() <= 1 || (r.left.kind == CellKind::Delete && r.right.kind == CellKind::Insert));
}

/// In every comparison, a deleted or inserted line facing an empty cell,
/// and an unchanged line, is shown whole in one unemphasized span; emphasis
/// appears only in the cells of a replaced line paired with its replacement.
pub proof fn lemma_unpaired_lines_plain(left: Seq<char>, right: Seq<char>)
    ensures
        forall|i: int|
            0 <= i < diff_spec(left, right).rows.len() ==> emphasis_only_when_paired(
                #[trigger] diff_spec(left, right).rows[i],
                lines_spec(left),
                lines_spec(right),
            ),
{
    lemma_rows_plain(similar_line_ops(left, right), lines_spec(left), lines_spec(right));
}

proof fn lemma_rows_plain(ops: Seq<LineOp>, old_lines: Seq<Seq<char>>, new_lines: Seq<Seq<char>>)
    ensures
        forall|i: int|
            0 <= i < rows_spec(ops, old_lines, new_lines).len() ==> emphasis_only_when_paired(
                #[trigger] rows_spec(ops, old_lines, new_lines)[i],
                old_lines,
                new_lines,
            ),
    decreases ops.len(),
{
    if ops.len() > 0 {
        lemma_rows_plain(ops.drop_last(), old_lines, new_lines);
        let prev = rows_spec(ops.drop_last(), old_lines, new_lines);
        let last = op_rows(ops.last(), old_lines, new_lines);
        assert forall|i: int| 0 <= i < (prev + last).len() implies emphasis_only_when_paired(
            #[trigger] (prev + last)[i],
            old_lines,
            new_lines,
        ) by {
            if i < prev.len() {
                assert((prev + last)[i] == prev[i]);
            } else {
                assert((prev + last)[i] == op_row(ops.last(), old_lines, new_lines, i - prev.len()));
                lemma_op_rows_plain(ops.last(), old_lines, new_lines, i - prev.len());
            }
        }
    }
}

/// The emphasis of each character `spans` show, in order.
pub open spec fn span_marks(spans: Seq<SpanView>) -> Seq<bool>
    decreases spans.len(),
{
    if spans.len() == 0 {
        seq![]
    } else {
        span_marks(spans.drop_last()) + Seq::new(spans.last().text.len(), |_j: int| spans.last().emphasized)
    }
}

/// For each character of the old line, in order, whether the character diff
/// deleted it (else it is equal on both sides).
pub open spec fn old_side_marks(changes: Seq<(ChangeKind, Seq<char>)>) -> Seq<bool>
    decreases changes.len(),
{
    if changes.len() == 0 {
        seq![]
    } else {
        let ch = changes.last();
        old_side_marks(changes.drop_last()) + match ch.0 {
            ChangeKind::Insert => Seq::<bool>::empty(),
            ChangeKind::Equal => Seq::new(ch.1.len(), |_j: int| false),
            ChangeKind::Delete => Seq::new(ch.1.len(), |_j: int| true),
        }
    }
}

/// For each character of the new line, in order, whether the character diff
/// inserted it (else it is equal on both sides).
pub open spec fn new_side_marks(changes: Seq<(ChangeKind, Seq<char>)>) -> Seq<bool>
    decreases changes.len(),
{
    if changes.len() == 0 {
        seq![]
    } else {
        let ch = changes.last();
        new_side_marks(changes.drop_last()) + match ch.0 {
            ChangeKind::Delete => Seq::<bool>::empty(),
            ChangeKind::Equal => Seq::new(ch.1.len(), |_j: int| false),
            ChangeKind::Insert => Seq::new(ch.1.len(), |_j: int| true),
        }
    }
}

proof fn lemma_append_marks(spans: Seq<SpanView>, text: Seq<char>, e: bool)
    ensures
        span_marks(append_span_spec(spans, text, e)) == span_marks(spans) + Seq::new(text.len(), |_j: int| e),
{
    let r = append_span_spec(spans, text, e);
    if spans.len() > 0 && spans.last().emphasized == e {
        assert(r.drop_last() =~= spans.drop_last());
        assert(Seq::new((spans.last().text + text).len(), |_j: int| e) =~= Seq::new(
            spans.last().text.len(),
            |_j: int| e,
        ) + Seq::new(text.len(), |_j: int| e));
        assert(span_marks(r) =~= span_marks(spans) + Seq::new(text.len(), |_j: int| e));
    } else {
        assert(r.drop_last() =~= spans);
    }
}

proof fn lemma_char_marks(changes: Seq<(ChangeKind, Seq<char>)>)
    ensures
        span_marks(char_spans_spec(changes).0) == old_side_marks(changes),
        span_marks(char_spans_spec(changes).1) == new_side_marks(changes),
    decreases changes.len(),
{
    if changes.len() > 0 {
        lemma_char_marks(changes.drop_last());
        let prev = char_spans_spec(changes.drop_last());
        let ch = changes.last();
        lemma_append_marks(prev.0, ch.1, false);
        lemma_append_marks(prev.0, ch.1, true);
        lemma_append_marks(prev.1, ch.1, false);
        lemma_append_marks(prev.1, ch.1, true);
        assert(span_marks(prev.0) + Seq::<bool>::empty() =~= span_marks(prev.0));
        assert(span_marks(prev.1) + Seq::<bool>::empty() =~= span_marks(prev.1));
    }
}

/// Character by character, the old side of a character diff emphasizes
/// exactly the characters `similar` reports deleted, and the new side
/// exactly those it reports inserted; equal characters are plain.
pub proof fn lemma_char_diff_marks(old_line: Seq<char>, new_line: Seq<char>)
    ensures
        span_marks(char_diff_spec(old_line, new_line).0) == old_side_marks(similar_char_changes(old_line, new_line)),
        span_marks(char_diff_spec(old_line, new_line).1) == new_side_marks(similar_char_changes(old_line, new_line)),
{
    lemma_char_marks(similar_char_changes(old_line, new_line));
}

} // verus!
