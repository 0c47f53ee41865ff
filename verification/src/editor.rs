//! Word-wrap and scroll engine: adapts a text buffer to a fixed-size
//! character grid, wrapping lines by display width and keeping the viewport
//! anchored to the cursor.
use vstd::prelude::*;

use unicode_width::UnicodeWidthChar;

use crate::buffer::{Command, Cursor, ViewBufferInfo};
use crate::text::{copy_line, PosView, TextBuffer, TextView};

verus! {

broadcast use {
    crate::views::lemma_line_deep_view,
    crate::views::lemma_lines_view_len,
    crate::views::lemma_lines_view_index,
};

/// What `unicode_width` reports for `c`: its displayed width in columns,
/// or nothing for a control character.
pub uninterp spec fn display_width_of(c: char) -> Option<usize>;

/// Relies on unicode_width's `UnicodeWidthChar::width`: the displayed width
/// of the scalar in columns, `None` for a control character.
#[verifier::external_body]
fn measure_width(c: char) -> (w: Option<usize>)
    ensures
        w == display_width_of(c),
{
    c.width()
}

/// Cells `c` takes in the wrap model: the reported width, two for a scalar
/// without one, and never more than the two cells a wide glyph occupies.
pub open spec fn cell_width(c: char) -> int {
    match display_width_of(c) {
        Option::None => 2,
        Option::Some(w) => if w <= 2 {
            w as int
        } else {
            2
        },
    }
}

/// The display width of `c`, with the unclassifiable counted as two cells
/// and everything capped at two.
fn glyph_cells(c: char) -> (w: usize)
    ensures
        w == cell_width(c),
        w <= 2,
{
    let w = match measure_width(c) {
        Option::Some(x) => x,
        Option::None => 2,
    };
    if w > 2 {
        2
    } else {
        w
    }
}

/// Accumulation state of the wrap scan: the closed sub-lines, the open
/// sub-line, and the open sub-line's display width.
pub struct WrapState {
    pub parts: Seq<Seq<char>>,
    pub part: Seq<char>,
    pub count: int,
}

/// One scalar handed to the wrap scan: when it would push the open
/// sub-line's width past `width`, that sub-line is closed (without the
/// scalar) and a new one starts with it.
pub open spec fn wrap_step(st: WrapState, width: int, c: char) -> WrapState {
    let w = cell_width(c);
    if st.count + w > width {
        WrapState { parts: st.parts.push(st.part), part: seq![c], count: w }
    } else {
        WrapState { parts: st.parts, part: st.part.push(c), count: st.count + w }
    }
}

/// The wrap scan over a whole line.
pub open spec fn wrap_scan(line: Seq<char>, width: int) -> WrapState
    decreases line.len(),
{
    if line.len() == 0 {
        WrapState { parts: Seq::empty(), part: Seq::empty(), count: 0 }
    } else {
        wrap_step(wrap_scan(line.drop_last(), width), width, line.last())
    }
}

/// The wrapped sub-lines of `line` at `width`: the scan's sub-lines, with
/// one trailing empty sub-line when the accumulated width lands exactly on
/// the boundary.
pub open spec fn wrap_lines(line: Seq<char>, width: int) -> Seq<Seq<char>> {
    let st = wrap_scan(line, width);
    if st.count == width {
        st.parts.push(st.part).push(Seq::empty())
    } else {
        st.parts.push(st.part)
    }
}

/// Wrap-breaks strictly before column `x` of `line`, counting one more when
/// the accumulated width lands exactly on the boundary: the index of the
/// sub-line that column `x` falls on.
pub open spec fn wrap_count_at(line: Seq<char>, x: int, width: int) -> int {
    let st = wrap_scan(line.take(x), width);
    st.parts.len() + if st.count == width {
        1int
    } else {
        0int
    }
}

/// The scan closes at most one sub-line per scalar and keeps the open
/// sub-line's width at most the larger of `width` and two.
pub proof fn lemma_wrap_scan_bounds(line: Seq<char>, width: int)
    ensures
        wrap_scan(line, width).parts.len() <= line.len(),
        0 <= wrap_scan(line, width).count,
        wrap_scan(line, width).count <= (if width >= 2 {
            width
        } else {
            2
        }),
    decreases line.len(),
{
    if line.len() > 0 {
        lemma_wrap_scan_bounds(line.drop_last(), width);
    }
}

/// Wrap coverage: the wrapped sub-lines of a line concatenate back to the
/// line itself, whatever the width.
pub proof fn lemma_wrap_concat(line: Seq<char>, width: int)
    ensures
        wrap_lines(line, width).flatten() == line,
{
    lemma_wrap_scan_flatten(line, width);
    let st = wrap_scan(line, width);
    st.parts.lemma_flatten_push(st.part);
    if st.count == width {
        st.parts.push(st.part).lemma_flatten_push(Seq::empty());
    }
    assert(wrap_lines(line, width).flatten() =~= line);
}

/// The scan's closed sub-lines plus the open one concatenate to the line.
proof fn lemma_wrap_scan_flatten(line: Seq<char>, width: int)
    ensures
        wrap_scan(line, width).parts.flatten() + wrap_scan(line, width).part == line,
    decreases line.len(),
{
    if line.len() == 0 {
        assert(wrap_scan(line, width).parts.flatten() + wrap_scan(line, width).part =~= line);
    } else {
        lemma_wrap_scan_flatten(line.drop_last(), width);
        let prev = wrap_scan(line.drop_last(), width);
        let st = wrap_scan(line, width);
        if prev.count + cell_width(line.last()) > width {
            prev.parts.lemma_flatten_push(prev.part);
            assert(st.parts.flatten() == line.drop_last());
            assert(st.part =~= seq![line.last()]);
            assert((line.drop_last() + seq![line.last()]) =~= line);
            assert(st.parts.flatten() + st.part == line.drop_last() + seq![line.last()]);
        } else {
            assert((prev.parts.flatten() + prev.part.push(line.last())) =~= (prev.parts.flatten()
                + prev.part).push(line.last()));
            assert(line.drop_last().push(line.last()) =~= line);
        }
    }
}

/// Wrap threshold consistency: a line shorter than half the width is one
/// single sub-line, so the short-circuit in `split_line_by_width` agrees
/// with the general scan.
pub proof fn lemma_wrap_short(line: Seq<char>, width: int)
    requires
        2 * line.len() < width,
    ensures
        wrap_lines(line, width) == seq![line],
    decreases line.len(),
{
    lemma_wrap_scan_prefix_short(line, width);
    let st = wrap_scan(line, width);
    assert(st.count <= 2 * line.len() < width);
    assert(wrap_lines(line, width) =~= seq![line]);
}

/// On a line shorter than half the width the scan never closes a sub-line.
proof fn lemma_wrap_scan_prefix_short(line: Seq<char>, width: int)
    requires
        2 * line.len() < width,
    ensures
        wrap_scan(line, width).parts == Seq::<Seq<char>>::empty(),
        wrap_scan(line, width).part == line,
        wrap_scan(line, width).count <= 2 * line.len(),
    decreases line.len(),
{
    if line.len() > 0 {
        lemma_wrap_scan_prefix_short(line.drop_last(), width);
        assert(wrap_scan(line, width).part =~= line);
    }
}

/// The sub-line index of any column is a valid index into the wrapped line:
/// moving the column right never skips past the last sub-line.
pub proof fn lemma_wrap_count_in_range(line: Seq<char>, x: int, width: int)
    requires
        0 <= x <= line.len(),
    ensures
        0 <= wrap_count_at(line, x, width) < wrap_lines(line, width).len(),
    decreases line.len() - x,
{
    if x == line.len() {
        assert(line.take(x) =~= line);
    } else {
        lemma_wrap_count_in_range(line, x + 1, width);
        lemma_wrap_count_monotone(line, x, width);
    }
}

/// Weight of a document for arithmetic bounds: every scalar counts one,
/// every line two more. Any line's wrapped sub-line count, and any column,
/// stays below the document's weight.
pub open spec fn doc_weight(lines: Seq<Seq<char>>) -> int
    decreases lines.len(),
{
    if lines.len() == 0 {
        0
    } else {
        doc_weight(lines.drop_last()) + lines.last().len() + 2
    }
}

pub proof fn lemma_doc_weight_nonneg(lines: Seq<Seq<char>>)
    ensures
        doc_weight(lines) >= 2 * lines.len() >= 0,
    decreases lines.len(),
{
    if lines.len() > 0 {
        lemma_doc_weight_nonneg(lines.drop_last());
    }
}

/// Each line's length is covered by the document weight.
pub proof fn lemma_doc_weight_line(lines: Seq<Seq<char>>, i: int)
    requires
        0 <= i < lines.len(),
    ensures
        lines[i].len() + 2 <= doc_weight(lines),
    decreases lines.len(),
{
    lemma_doc_weight_nonneg(lines.drop_last());
    if i < lines.len() - 1 {
        lemma_doc_weight_line(lines.drop_last(), i);
    }
}

/// A line wraps into at most its length plus two sub-lines.
pub proof fn lemma_wrap_lines_len_bound(line: Seq<char>, width: int)
    ensures
        1 <= wrap_lines(line, width).len() <= line.len() + 2,
{
    lemma_wrap_scan_bounds(line, width);
}

/// One column to the right never lands on an earlier sub-line.
proof fn lemma_wrap_count_monotone(line: Seq<char>, x: int, width: int)
    requires
        0 <= x < line.len(),
    ensures
        wrap_count_at(line, x, width) <= wrap_count_at(line, x + 1, width),
{
    assert(line.take(x + 1).drop_last() =~= line.take(x));
    lemma_wrap_scan_bounds(line.take(x), width);
}

/// Relies on std's `String::push`: appends one character to the string.
pub assume_specification[ String::push ](s: &mut String, c: char)
    ensures
        final(s)@ == old(s)@.push(c),
;

/// The string holding exactly the given scalars.
fn chars_to_string(v: &Vec<char>) -> (s: String)
    ensures
        s@ == v@,
{
    let mut s = String::new();
    let mut i: usize = 0;
    while i < v.len()
        invariant
            i <= v@.len(),
            s@ == v@.take(i as int),
        decreases v@.len() - i,
    {
        s.push(v[i]);
        proof {
            assert(v@.take(i + 1) =~= v@.take(i as int).push(v@[i as int]));
        }
        i += 1;
    }
    proof {
        assert(v@.take(v@.len() as int) =~= v@);
    }
    s
}

/// Concatenation of appended sequences distributes over the document.
pub proof fn lemma_weight_append(a: Seq<Seq<char>>, b: Seq<Seq<char>>)
    ensures
        doc_weight(a + b) == doc_weight(a) + doc_weight(b),
    decreases b.len(),
{
    if b.len() == 0 {
        assert(a + b =~= a);
    } else {
        lemma_weight_append(a, b.drop_last());
        assert((a + b).drop_last() =~= a + b.drop_last());
        assert((a + b).last() == b.last());
    }
}

/// Weight of a single-line document.
proof fn lemma_weight_singleton(l: Seq<char>)
    ensures
        doc_weight(seq![l]) == l.len() + 2,
{
    assert(seq![l].drop_last() =~= Seq::<Seq<char>>::empty());
    assert(seq![l].last() == l);
    assert(doc_weight(Seq::<Seq<char>>::empty()) == 0);
}

/// A document splits at any index into two parts whose weights add up.
pub proof fn lemma_weight_split(s: Seq<Seq<char>>, i: int)
    requires
        0 <= i <= s.len(),
    ensures
        doc_weight(s) == doc_weight(s.take(i)) + doc_weight(s.skip(i)),
{
    lemma_weight_append(s.take(i), s.skip(i));
    assert(s.take(i) + s.skip(i) =~= s);
}

/// Replacing one line changes the weight by the length difference.
pub proof fn lemma_weight_update(s: Seq<Seq<char>>, i: int, l: Seq<char>)
    requires
        0 <= i < s.len(),
    ensures
        doc_weight(s.update(i, l)) == doc_weight(s) - s[i].len() + l.len(),
{
    lemma_weight_split(s, i);
    lemma_weight_split(s.skip(i), 1);
    lemma_weight_singleton(s[i]);
    assert(s.skip(i).take(1) =~= seq![s[i]]);
    assert(s.skip(i).skip(1) =~= s.skip(i + 1));
    let u = s.update(i, l);
    lemma_weight_split(u, i);
    lemma_weight_split(u.skip(i), 1);
    lemma_weight_singleton(l);
    assert(u.take(i) =~= s.take(i));
    assert(u.skip(i).take(1) =~= seq![l]);
    assert(u.skip(i).skip(1) =~= s.skip(i + 1));
}

/// Inserting a line adds its length plus two to the weight.
pub proof fn lemma_weight_insert(s: Seq<Seq<char>>, i: int, l: Seq<char>)
    requires
        0 <= i <= s.len(),
    ensures
        doc_weight(s.insert(i, l)) == doc_weight(s) + l.len() + 2,
{
    lemma_weight_split(s, i);
    let u = s.insert(i, l);
    lemma_weight_split(u, i);
    lemma_weight_split(u.skip(i), 1);
    lemma_weight_singleton(l);
    assert(u.take(i) =~= s.take(i));
    assert(u.skip(i).take(1) =~= seq![l]);
    assert(u.skip(i).skip(1) =~= s.skip(i));
}

/// Removing a line subtracts its length plus two from the weight.
pub proof fn lemma_weight_remove(s: Seq<Seq<char>>, i: int)
    requires
        0 <= i < s.len(),
    ensures
        doc_weight(s.remove(i)) == doc_weight(s) - s[i].len() - 2,
{
    lemma_weight_split(s, i);
    lemma_weight_split(s.skip(i), 1);
    lemma_weight_singleton(s[i]);
    assert(s.skip(i).take(1) =~= seq![s[i]]);
    assert(s.skip(i).skip(1) =~= s.skip(i + 1));
    let u = s.remove(i);
    lemma_weight_split(u, i);
    assert(u.take(i) =~= s.take(i));
    assert(u.skip(i) =~= s.skip(i + 1));
}

/// Deleting the selection never increases the document weight.
pub proof fn lemma_weight_delete_sel(v: TextView)
    requires
        v.wf(),
    ensures
        doc_weight(v.after_delete_sel().lines) <= doc_weight(v.lines),
{
    if v.selecting() {
        let y1 = v.sel_y1();
        let y2 = v.sel_y2();
        if y1 == y2 {
            lemma_weight_update(
                v.lines,
                y1,
                v.lines[y1].take(v.sel_x1()) + v.lines[y1].skip(v.sel_x2()),
            );
        } else {
            let merged = v.lines[y1].take(v.sel_x1()) + v.lines[y2].skip(v.sel_x2());
            let nl = v.lines.take(y1) + seq![merged] + v.lines.skip(y2 + 1);
            lemma_weight_append(v.lines.take(y1) + seq![merged], v.lines.skip(y2 + 1));
            lemma_weight_append(v.lines.take(y1), seq![merged]);
            lemma_weight_singleton(merged);
            lemma_weight_split(v.lines, y1);
            lemma_weight_split(v.lines.skip(y1), y2 + 1 - y1);
            assert(v.lines.skip(y1).skip(y2 + 1 - y1) =~= v.lines.skip(y2 + 1));
            let mid = v.lines.skip(y1).take(y2 + 1 - y1);
            lemma_weight_split(mid, 1);
            assert(mid.take(1) =~= seq![v.lines[y1]]);
            lemma_weight_singleton(v.lines[y1]);
            lemma_doc_weight_line(mid.skip(1), y2 - y1 - 1);
            assert(mid.skip(1)[y2 - y1 - 1] == v.lines[y2]);
            lemma_doc_weight_nonneg(mid.skip(1));
        }
    }
}

/// The text state a command leaves behind: `Tab` inserts four spaces, the
/// rest map one to one onto the buffer's operations; `Refresh` edits
/// nothing.
pub open spec fn apply_cmd(v: TextView, cmd: Command) -> TextView {
    match cmd {
        Command::Insert(c) => v.after_insert(c),
        Command::Newline => v.after_newline(),
        Command::Tab => v.after_insert(' ').after_insert(' ').after_insert(' ').after_insert(' '),
        Command::Backspace => v.after_backspace(),
        Command::ForwardDelete => v.after_forward_delete(),
        Command::Left(keep) => v.after_left(keep),
        Command::Right(keep) => v.after_right(keep),
        Command::Up(keep) => v.after_up(keep),
        Command::Down(keep) => v.after_down(keep),
        Command::SelectAll => v.after_select_all(),
        Command::Refresh => v,
    }
}

/// One insertion grows the weight by at most one and keeps well-formedness.
proof fn lemma_weight_insert_char(v: TextView, c: char)
    requires
        v.wf(),
    ensures
        doc_weight(v.after_insert(c).lines) <= doc_weight(v.lines) + 1,
        v.after_insert(c).wf(),
{
    lemma_weight_delete_sel(v);
    let v1 = v.after_delete_sel();
    let y = v1.cur.y;
    let xf = v1.clamp_x(v1.cur);
    lemma_weight_update(v1.lines, y, v1.lines[y].take(xf).push(c) + v1.lines[y].skip(xf));
}

/// One command grows the document weight by at most eight.
pub proof fn lemma_apply_cmd_weight(v: TextView, cmd: Command)
    requires
        v.wf(),
    ensures
        doc_weight(apply_cmd(v, cmd).lines) <= doc_weight(v.lines) + 8,
{
    match cmd {
        Command::Insert(c) => {
            lemma_weight_insert_char(v, c);
        },
        Command::Newline => {
            lemma_weight_delete_sel(v);
            let v1 = v.after_delete_sel();
            let y = v1.cur.y;
            let xf = v1.clamp_x(v1.cur);
            lemma_weight_update(v1.lines, y, v1.lines[y].take(xf));
            lemma_weight_insert(v1.lines.update(y, v1.lines[y].take(xf)), y + 1, v1.lines[y].skip(xf));
        },
        Command::Tab => {
            lemma_weight_insert_char(v, ' ');
            lemma_weight_insert_char(v.after_insert(' '), ' ');
            lemma_weight_insert_char(v.after_insert(' ').after_insert(' '), ' ');
            lemma_weight_insert_char(v.after_insert(' ').after_insert(' ').after_insert(' '), ' ');
        },
        Command::Backspace => {
            let f = v.with_cursor_fixed();
            if f.selecting() {
                lemma_weight_delete_sel(f);
            } else {
                let y = v.cur.y;
                let xf = v.clamp_x(v.cur);
                if xf > 0 {
                    lemma_weight_update(v.lines, y, v.lines[y].remove(xf - 1));
                } else if y > 0 {
                    lemma_weight_update(v.lines, y - 1, v.lines[y - 1] + v.lines[y]);
                    lemma_weight_remove(v.lines.update(y - 1, v.lines[y - 1] + v.lines[y]), y);
                }
            }
        },
        Command::ForwardDelete => {
            let f = v.with_cursor_fixed();
            if f.selecting() {
                lemma_weight_delete_sel(f);
            } else {
                let y = v.cur.y;
                let xf = v.clamp_x(v.cur);
                if xf < v.lines[y].len() {
                    lemma_weight_update(v.lines, y, v.lines[y].remove(xf));
                } else if y < v.lines.len() - 1 {
                    lemma_weight_update(v.lines, y, v.lines[y] + v.lines[y + 1]);
                    lemma_weight_remove(v.lines.update(y, v.lines[y] + v.lines[y + 1]), y + 1);
                }
            }
        },
        _ => {},
    }
}

/// Scanning upward from line `i` with `acc` display rows already needed:
/// the first line from which `acc` plus its predecessors' sub-lines reach
/// `height`, with the overflow as the sub-line offset; the document start
/// when the rows run out first.
pub open spec fn scan_top(
    lines: Seq<Seq<char>>,
    width: int,
    height: int,
    i: int,
    acc: int,
) -> (int, int)
    decreases i + 1,
{
    if i < 0 {
        (0, 0)
    } else {
        let a2 = acc + wrap_lines(lines[i], width).len();
        if a2 >= height {
            (i, a2 - height)
        } else {
            scan_top(lines, width, height, i - 1, a2)
        }
    }
}

/// The viewport anchor that puts the cursor's sub-line (`wrap` within line
/// `bottom`) on the last display row.
pub open spec fn calc_top(
    lines: Seq<Seq<char>>,
    width: int,
    height: int,
    bottom: int,
    wrap: int,
) -> (int, int) {
    scan_top(lines, width, height, bottom - 1, wrap + 1)
}

/// The scan lands on a line at or before the one it starts from.
proof fn lemma_scan_top_range(lines: Seq<Seq<char>>, width: int, height: int, i: int, acc: int)
    requires
        i < lines.len(),
    ensures
        0 <= scan_top(lines, width, height, i, acc).0 <= (if i >= 0 {
            i
        } else {
            0
        }),
        0 <= scan_top(lines, width, height, i, acc).1,
    decreases i + 1,
{
    if i >= 0 {
        let a2 = acc + wrap_lines(lines[i], width).len();
        if a2 < height {
            lemma_scan_top_range(lines, width, height, i - 1, a2);
        }
    }
}

/// The wrapped sub-lines of lines `a` (inclusive) through `b` (exclusive),
/// concatenated in order.
pub open spec fn rows_between(lines: Seq<Seq<char>>, width: int, a: int, b: int) -> Seq<Seq<char>>
    decreases b - a,
{
    if a < 0 || a >= b {
        Seq::empty()
    } else {
        wrap_lines(lines[a], width) + rows_between(lines, width, a + 1, b)
    }
}

/// Rows over adjacent ranges concatenate.
pub proof fn lemma_rows_between_concat(lines: Seq<Seq<char>>, width: int, a: int, b: int, c: int)
    requires
        0 <= a <= b <= c,
    ensures
        rows_between(lines, width, a, c) == rows_between(lines, width, a, b) + rows_between(
            lines,
            width,
            b,
            c,
        ),
    decreases b - a,
{
    if a == b {
        assert(rows_between(lines, width, a, b) =~= Seq::<Seq<char>>::empty());
        assert(rows_between(lines, width, a, c) =~= rows_between(lines, width, a, b)
            + rows_between(lines, width, b, c));
    } else {
        lemma_rows_between_concat(lines, width, a + 1, b, c);
        assert(rows_between(lines, width, a, c) =~= rows_between(lines, width, a, b)
            + rows_between(lines, width, b, c));
    }
}

/// The rows of a single line.
pub proof fn lemma_rows_between_one(lines: Seq<Seq<char>>, width: int, a: int)
    requires
        0 <= a,
    ensures
        rows_between(lines, width, a, a + 1) == wrap_lines(lines[a], width),
{
    assert(rows_between(lines, width, a + 1, a + 1) =~= Seq::<Seq<char>>::empty());
    assert(rows_between(lines, width, a, a + 1) == wrap_lines(lines[a], width) + rows_between(
        lines,
        width,
        a + 1,
        a + 1,
    ));
    assert(wrap_lines(lines[a], width) + Seq::<Seq<char>>::empty() =~= wrap_lines(
        lines[a],
        width,
    ));
}

/// The display rows from the anchor on: the top line's sub-lines from
/// `top_wrap`, then every following line's sub-lines.
pub open spec fn all_rows(lines: Seq<Seq<char>>, width: int, top: int, top_wrap: int) -> Seq<
    Seq<char>,
> {
    rows_between(lines, width, top, lines.len() as int).skip(top_wrap)
}

/// The display rows that fit the grid: at most `height` of `all_rows`.
pub open spec fn rendered_rows(
    lines: Seq<Seq<char>>,
    width: int,
    top: int,
    top_wrap: int,
    height: int,
) -> Seq<Seq<char>> {
    let all = all_rows(lines, width, top, top_wrap);
    if all.len() > height {
        all.take(height)
    } else {
        all
    }
}

/// The top line after repair: clamped to the last line when the document
/// shrank above it.
pub open spec fn repaired_top(lines: Seq<Seq<char>>, top0: int) -> int {
    if top0 >= lines.len() {
        lines.len() - 1
    } else {
        top0
    }
}

/// The sub-line anchor after repair: clamped into the repaired top line's
/// wrapped sub-lines.
pub open spec fn repaired_wrap(lines: Seq<Seq<char>>, width: int, top0: int, wrap0: int) -> int {
    let wm = wrap_lines(lines[repaired_top(lines, top0)], width).len() - 1;
    if wrap0 > wm {
        wm
    } else {
        wrap0
    }
}

/// The viewport anchor after one command, given the cursor's line `cy` and
/// sub-line `wc`: repair first; snap up when the cursor sits above the
/// viewport; otherwise scroll down just far enough to keep the cursor's
/// sub-line on screen, and never upward; finally keep the anchor within the
/// top line's sub-lines.
pub open spec fn scroll_spec(
    lines: Seq<Seq<char>>,
    width: int,
    height: int,
    top0: int,
    wrap0: int,
    cy: int,
    wc: int,
) -> (int, int) {
    let t0 = repaired_top(lines, top0);
    let w0 = repaired_wrap(lines, width, top0, wrap0);
    if cy < t0 {
        (cy, wc)
    } else if cy == t0 && wc < w0 {
        (t0, wc)
    } else {
        let c = calc_top(lines, width, height, cy, wc);
        let t1 = if t0 < c.0 {
            c.0
        } else {
            t0
        };
        let w1 = if t0 < c.0 {
            c.1
        } else if t0 == c.0 && w0 < c.1 {
            c.1
        } else {
            w0
        };
        let wm = wrap_lines(lines[t1], width).len() - 1;
        (t1, if w1 > wm {
            wm
        } else {
            w1
        })
    }
}

/// The display row on which the line `cy` starts, counted from the anchor:
/// negative only when `cy` is the top line and the anchor sits below the
/// sub-line holding column 0.
pub open spec fn rows_before(
    lines: Seq<Seq<char>>,
    width: int,
    top: int,
    top_wrap: int,
    cy: int,
) -> int {
    rows_between(lines, width, top, cy).len() - top_wrap
}

/// The editor view: a text buffer plus viewport state. `top` is the first
/// displayed line, `top_wrap` the first displayed sub-line within it.
#[derive(Debug, Clone)]
pub struct EditorBuffer {
    pub text: TextBuffer,
    pub top: usize,
    pub top_wrap: usize,
    pub info: ViewBufferInfo,
}

impl EditorBuffer {
    pub open spec fn wf(&self) -> bool {
        self.text.wf()
    }

    pub open spec fn lines(&self) -> Seq<Seq<char>> {
        self.text@.lines
    }

    pub open spec fn width(&self) -> int {
        self.info.width as int
    }

    /// Machine bound: document weight and viewport dimensions leave room for
    /// the engine's running sums in a `usize`.
    pub open spec fn fits(&self) -> bool {
        4 * doc_weight(self.text@.lines) + self.info.width + self.info.height + 64 < usize::MAX
    }

    /// The text state after one command: edited only when the view has
    /// focus.
    pub open spec fn post_text(&self, cmd: Command) -> TextView {
        if self.info.focus {
            apply_cmd(self.text@, cmd)
        } else {
            self.text@
        }
    }

    /// The viewport anchor invariant: `top` indexes an existing line and
    /// `top_wrap` one of its wrapped sub-lines.
    pub open spec fn anchor_ok(&self) -> bool {
        &&& (self.top as int) < self.lines().len()
        &&& (self.top_wrap as int) < wrap_lines(self.lines()[self.top as int], self.width()).len()
    }

    /// A fresh view over the lines of `text`: viewport 100 by 40 cells,
    /// unfocused, anchored to the document start.
    pub fn new(text: &str) -> (r: EditorBuffer)
        ensures
            r.wf(),
            r.text@ == TextBuffer::new_view(text@),
            r.top == 0,
            r.top_wrap == 0,
            r.info.width == 100,
            r.info.height == 40,
            !r.info.focus,
            r.info.cursor.x == 0,
            r.info.cursor.y == 0,
            r.info.buffer@.len() == 0,
    {
        EditorBuffer {
            text: TextBuffer::new(text),
            top: 0,
            top_wrap: 0,
            info: ViewBufferInfo {
                width: 100,
                height: 40,
                focus: false,
                cursor: Cursor { x: 0, y: 0 },
                buffer: Vec::new(),
            },
        }
    }

    /// Set the viewport's size and focus; the rest of the state stays.
    pub fn set_view_info(&mut self, width: usize, height: usize, focus: bool)
        ensures
            final(self).info.width == width,
            final(self).info.height == height,
            final(self).info.focus == focus,
            final(self).info.cursor == old(self).info.cursor,
            final(self).info.buffer == old(self).info.buffer,
            final(self).text == old(self).text,
            final(self).top == old(self).top,
            final(self).top_wrap == old(self).top_wrap,
    {
        self.info.width = width;
        self.info.height = height;
        self.info.focus = focus;
    }

    /// A copy of the rendered display lines.
    pub fn get_view(&self) -> (r: Vec<String>)
        ensures
            r.deep_view() == self.info.buffer.deep_view(),
    {
        let mut r: Vec<String> = Vec::new();
        let mut i: usize = 0;
        while i < self.info.buffer.len()
            invariant
                i <= self.info.buffer@.len(),
                r@ == self.info.buffer@.subrange(0, i as int),
            decreases self.info.buffer@.len() - i,
        {
            r.push(self.info.buffer[i].clone());
            proof {
                assert(r@ =~= self.info.buffer@.subrange(0, i + 1));
            }
            i += 1;
        }
        proof {
            assert(r@ =~= self.info.buffer@);
        }
        r
    }

    /// The rendered cursor position, relative to the viewport's top left.
    pub fn get_cursor_pos(&self) -> (r: (usize, usize))
        ensures
            r.0 == self.info.cursor.x,
            r.1 == self.info.cursor.y,
    {
        (self.info.cursor.x, self.info.cursor.y)
    }

    /// The wrapped sub-lines of line `index` at the viewport width. A line
    /// shorter than half the width short-circuits to a single sub-line,
    /// which agrees with the general scan.
    pub fn split_line_by_width(&self, index: usize) -> (r: Vec<Vec<char>>)
        requires
            self.wf(),
            (index as int) < self.lines().len(),
            self.info.width <= usize::MAX - 2,
        ensures
            r.deep_view() == wrap_lines(self.lines()[index as int], self.width()),
    {
        let target = self.text.line_at(index);
        let ghost tv = self.lines()[index as int];
        let ghost w_spec = self.width();
        if target.len() < self.info.width / 2 {
            let mut r: Vec<Vec<char>> = Vec::new();
            r.push(copy_line(target));
            proof {
                assert(2 * tv.len() < w_spec);
                lemma_wrap_short(tv, w_spec);
                crate::views::lemma_lines_view_eq(&r, wrap_lines(tv, w_spec));
            }
            return r;
        }
        let mut splited_lines: Vec<Vec<char>> = Vec::new();
        let mut count: usize = 0;
        let mut crnt_part: Vec<char> = Vec::new();
        let mut i: usize = 0;
        while i < target.len()
            invariant
                i <= tv.len(),
                target@ == tv,
                w_spec == self.info.width,
                self.info.width <= usize::MAX - 2,
                count == wrap_scan(tv.take(i as int), w_spec).count,
                count <= (if w_spec >= 2 {
                    w_spec
                } else {
                    2
                }),
                crnt_part@ == wrap_scan(tv.take(i as int), w_spec).part,
                splited_lines@.len() == wrap_scan(tv.take(i as int), w_spec).parts.len(),
                forall|j: int|
                    0 <= j < splited_lines@.len() ==> #[trigger] splited_lines@[j]@ == wrap_scan(
                        tv.take(i as int),
                        w_spec,
                    ).parts[j],
            decreases tv.len() - i,
        {
            let c = target[i];
            let w = glyph_cells(c);
            proof {
                assert(tv.take(i + 1).drop_last() =~= tv.take(i as int));
                assert(tv.take(i + 1).last() == tv[i as int]);
            }
            count += w;
            if count > self.info.width {
                splited_lines.push(crnt_part);
                crnt_part = Vec::new();
                count = w;
            }
            crnt_part.push(c);
            i += 1;
        }
        proof {
            assert(tv.take(tv.len() as int) =~= tv);
        }
        splited_lines.push(crnt_part);
        if count == self.info.width {
            splited_lines.push(Vec::new());
        }
        proof {
            crate::views::lemma_lines_view_eq(&splited_lines, wrap_lines(tv, w_spec));
        }
        splited_lines
    }

    /// Route one editing command to the text buffer.
    fn apply_command(&mut self, cmd: &Command)
        requires
            old(self).wf(),
        ensures
            final(self).wf(),
            final(self).text@ == apply_cmd(old(self).text@, *cmd),
            final(self).top == old(self).top,
            final(self).top_wrap == old(self).top_wrap,
            final(self).info == old(self).info,
    {
        match cmd {
            Command::Insert(c) => {
                self.text.input(*c);
            },
            Command::Newline => {
                self.text.enter();
            },
            Command::Tab => {
                self.text.input(' ');
                self.text.input(' ');
                self.text.input(' ');
                self.text.input(' ');
            },
            Command::Backspace => {
                self.text.back();
            },
            Command::ForwardDelete => {
                self.text.delete();
            },
            Command::Left(keep) => {
                self.text.left(*keep);
            },
            Command::Right(keep) => {
                self.text.right(*keep);
            },
            Command::Up(keep) => {
                self.text.up(*keep);
            },
            Command::Down(keep) => {
                self.text.down(*keep);
            },
            Command::SelectAll => {
                self.text.select_all();
            },
            Command::Refresh => {},
        }
    }

    /// The anchor that puts the cursor's sub-line (`wrap` within line
    /// `bottom`) on the viewport's last row, walking upward and accumulating
    /// sub-line counts; the document start when the rows run out first.
    pub fn calc_top_from_bottom(&self, bottom: usize, wrap: usize) -> (r: (usize, usize))
        requires
            self.wf(),
            (bottom as int) < self.lines().len(),
            self.info.width <= usize::MAX - 2,
            wrap + 1 + self.info.height + 2 * doc_weight(self.lines()) <= usize::MAX,
        ensures
            (r.0 as int, r.1 as int) == calc_top(
                self.lines(),
                self.width(),
                self.info.height as int,
                bottom as int,
                wrap as int,
            ),
            r.0 <= bottom,
    {
        let ghost w_spec = self.width();
        let ghost h_spec = self.info.height as int;
        proof {
            lemma_doc_weight_nonneg(self.lines());
            lemma_scan_top_range(self.lines(), w_spec, h_spec, bottom - 1, wrap + 1);
        }
        let mut line_count: usize = wrap + 1;
        let mut i: usize = bottom;
        while i > 0
            invariant
                self.wf(),
                (bottom as int) < self.lines().len(),
                self.info.width <= usize::MAX - 2,
                w_spec == self.width(),
                h_spec == self.info.height as int,
                i <= bottom,
                wrap + 1 + self.info.height + 2 * doc_weight(self.lines()) <= usize::MAX,
                i == bottom ==> line_count == wrap + 1,
                i < bottom ==> line_count < self.info.height,
                calc_top(self.lines(), w_spec, h_spec, bottom as int, wrap as int) == scan_top(
                    self.lines(),
                    w_spec,
                    h_spec,
                    i - 1,
                    line_count as int,
                ),
            decreases i,
        {
            i -= 1;
            let wl = self.split_line_by_width(i).len();
            proof {
                lemma_wrap_lines_len_bound(self.lines()[i as int], w_spec);
                lemma_doc_weight_line(self.lines(), i as int);
                lemma_doc_weight_nonneg(self.lines());
            }
            line_count += wl;
            if line_count >= self.info.height {
                return (i, line_count - self.info.height);
            }
        }
        (0, 0)
    }

    /// Apply one command and recompute the whole view: edit (when focused),
    /// repair the anchor, scroll so the cursor stays visible, and rebuild
    /// the rendered lines and cursor screen position. Scrolling never moves
    /// upward except when the cursor itself moved above the viewport.
    #[verifier::loop_isolation(false)]
    pub fn update_view(&mut self, cmd: Command)
        requires
            old(self).wf(),
            old(self).fits(),
        ensures
            final(self).wf(),
            final(self).anchor_ok(),
            final(self).text@ == old(self).post_text(cmd),
            final(self).info.width == old(self).info.width,
            final(self).info.height == old(self).info.height,
            final(self).info.focus == old(self).info.focus,
            ({
                let tv = old(self).post_text(cmd);
                let cx = tv.clamp_x(tv.cur);
                let wc = wrap_count_at(tv.lines[tv.cur.y], cx, old(self).width());
                (final(self).top as int, final(self).top_wrap as int) == scroll_spec(
                    tv.lines,
                    old(self).width(),
                    old(self).info.height as int,
                    old(self).top as int,
                    old(self).top_wrap as int,
                    tv.cur.y,
                    wc,
                )
            }),
            // the viewport never scrolls up past the cursor's line, and
            // snaps exactly to it when the cursor moved above the viewport
            ({
                let tv = old(self).post_text(cmd);
                tv.cur.y < repaired_top(tv.lines, old(self).top as int) ==> final(self).top as int
                    == tv.cur.y
            }),
            ({
                let tv = old(self).post_text(cmd);
                tv.cur.y >= repaired_top(tv.lines, old(self).top as int) ==> final(self).top as int
                    >= repaired_top(tv.lines, old(self).top as int)
            }),
            (final(self).top as int) <= old(self).post_text(cmd).cur.y,
            ({
                let tv = old(self).post_text(cmd);
                final(self).info.buffer.deep_view() == rendered_rows(
                    tv.lines,
                    old(self).width(),
                    final(self).top as int,
                    final(self).top_wrap as int,
                    old(self).info.height as int,
                )
            }),
            ({
                let tv = old(self).post_text(cmd);
                let cx = tv.clamp_x(tv.cur);
                let wc = wrap_count_at(tv.lines[tv.cur.y], cx, old(self).width());
                let rb = rows_before(
                    tv.lines,
                    old(self).width(),
                    final(self).top as int,
                    final(self).top_wrap as int,
                    tv.cur.y,
                );
                if old(self).info.height > 0 && rb < old(self).info.height {
                    final(self).info.cursor.x == 0 && final(self).info.cursor.y == rb + wc
                } else {
                    final(self).info.cursor == old(self).info.cursor
                }
            }),
    {
        let ghost tv0 = old(self).text@;
        if self.info.focus {
            self.apply_command(&cmd);
        }
        let ghost tv = self.text@;
        let ghost ws = old(self).width();
        let ghost hh = old(self).info.height as int;
        proof {
            if old(self).info.focus {
                lemma_apply_cmd_weight(tv0, cmd);
            }
            lemma_doc_weight_nonneg(tv.lines);
        }
        // repair the anchor
        let nlines = self.text.line_count();
        if nlines <= self.top {
            self.top = nlines - 1;
        }
        let sp_top = self.split_line_by_width(self.top);
        let wl_top = sp_top.len();
        proof {
            crate::views::lemma_lines_view_len(sp_top);
            lemma_wrap_lines_len_bound(tv.lines[self.top as int], ws);
        }
        if wl_top - 1 < self.top_wrap {
            self.top_wrap = wl_top - 1;
        }
        let ghost t0 = repaired_top(tv.lines, old(self).top as int);
        let ghost w0 = repaired_wrap(tv.lines, ws, old(self).top as int, old(self).top_wrap as int);
        proof {
            assert(self.top as int == t0 && self.top_wrap as int == w0);
        }
        // locate the cursor in the wrapped layout
        let text_cursor = self.text.get_cursor_pos();
        let ghost cy = text_cursor.y as int;
        let ghost cx = text_cursor.x as int;
        proof {
            lemma_doc_weight_line(tv.lines, cy);
        }
        let wrap_count = self.get_wrap_count(&text_cursor);
        let ghost wc = wrap_count as int;
        proof {
            lemma_wrap_count_in_range(tv.lines[cy], cx, ws);
            lemma_wrap_lines_len_bound(tv.lines[cy], ws);
        }
        if text_cursor.y < self.top {
            self.top = text_cursor.y;
            self.top_wrap = wrap_count;
        } else if text_cursor.y == self.top && wrap_count < self.top_wrap {
            self.top_wrap = wrap_count;
        } else {
            let (ctop, cwrap) = self.calc_top_from_bottom(text_cursor.y, wrap_count);
            proof {
                if cy >= 1 {
                    lemma_scan_top_range(tv.lines, ws, hh, cy - 1, wc + 1);
                }
            }
            if self.top < ctop {
                self.top = ctop;
                self.top_wrap = cwrap;
            } else if self.top == ctop && self.top_wrap < cwrap {
                self.top_wrap = cwrap;
            }
            let sp_new = self.split_line_by_width(self.top);
            proof {
                crate::views::lemma_lines_view_len(sp_new);
                lemma_wrap_lines_len_bound(tv.lines[self.top as int], ws);
            }
            let wm = sp_new.len() - 1;
            if self.top_wrap > wm {
                self.top_wrap = wm;
            }
        }
        proof {
            assert((self.top as int, self.top_wrap as int) == scroll_spec(
                tv.lines,
                ws,
                hh,
                old(self).top as int,
                old(self).top_wrap as int,
                cy,
                wc,
            ));
        }
        self.build_view(&text_cursor, wrap_count);
    }

    /// Rebuild the rendered display lines from the anchor, and record the
    /// screen row on which the cursor's line starts. Rows are collected line
    /// by line until the grid is full, then cut to the grid height. The
    /// rendered cursor column is not derived from the text; it stays 0.
    #[verifier::loop_isolation(false)]
    #[verifier::rlimit(30)]
    fn build_view(&mut self, text_cursor: &Cursor, wrap_count: usize)
        requires
            old(self).wf(),
            old(self).anchor_ok(),
            (old(self).top as int) <= (text_cursor.y as int) < old(self).lines().len(),
            text_cursor.x <= old(self).lines()[text_cursor.y as int].len(),
            wrap_count == wrap_count_at(
                old(self).lines()[text_cursor.y as int],
                text_cursor.x as int,
                old(self).width(),
            ),
            text_cursor.y == old(self).top ==> old(self).top_wrap <= wrap_count,
            old(self).info.width <= usize::MAX - 2,
            old(self).info.height + wrap_count + 2 * doc_weight(old(self).lines()) <= usize::MAX,
        ensures
            final(self).wf(),
            final(self).text == old(self).text,
            final(self).top == old(self).top,
            final(self).top_wrap == old(self).top_wrap,
            final(self).info.width == old(self).info.width,
            final(self).info.height == old(self).info.height,
            final(self).info.focus == old(self).info.focus,
            final(self).info.buffer.deep_view() == rendered_rows(
                old(self).lines(),
                old(self).width(),
                old(self).top as int,
                old(self).top_wrap as int,
                old(self).info.height as int,
            ),
            ({
                let rb = rows_before(
                    old(self).lines(),
                    old(self).width(),
                    old(self).top as int,
                    old(self).top_wrap as int,
                    text_cursor.y as int,
                );
                if old(self).info.height > 0 && rb < old(self).info.height {
                    final(self).info.cursor.x == 0 && final(self).info.cursor.y == rb + wrap_count
                } else {
                    final(self).info.cursor == old(self).info.cursor
                }
            }),
    {
        let ghost ll = old(self).lines();
        let ghost ws = old(self).width();
        let ghost tt = old(self).top as int;
        let ghost tw = old(self).top_wrap as int;
        let ghost hh = old(self).info.height as int;
        let ghost cy = text_cursor.y as int;
        let nlines = self.text.line_count();
        let mut splited_lines: Vec<Vec<char>> = Vec::new();
        let mut i: usize = self.top;
        while i < nlines && splited_lines.len() < self.info.height
            invariant
                self.text == old(self).text,
                self.top == old(self).top,
                self.top_wrap == old(self).top_wrap,
                self.info.width == old(self).info.width,
                self.info.height == old(self).info.height,
                self.info.focus == old(self).info.focus,
                self.info.buffer == old(self).info.buffer,
                tt <= i <= ll.len(),
                i == tt ==> splited_lines@.len() == 0,
                i > tt ==> tw <= rows_between(ll, ws, tt, i as int).len(),
                i > tt ==> splited_lines@.len() == rows_between(ll, ws, tt, i as int).len() - tw,
                forall|k: int|
                    0 <= k < splited_lines@.len() ==> #[trigger] splited_lines@[k]@ == rows_between(
                        ll,
                        ws,
                        tt,
                        i as int,
                    )[tw + k],
                i > cy ==> hh > 0 && rows_before(ll, ws, tt, tw, cy) < hh,
                i <= cy ==> self.info.cursor == old(self).info.cursor,
                i > cy ==> self.info.cursor.x == 0 && self.info.cursor.y == rows_before(
                    ll,
                    ws,
                    tt,
                    tw,
                    cy,
                ) + wrap_count,
            decreases ll.len() - i,
        {
            proof {
                lemma_rows_between_concat(ll, ws, tt, i as int, i + 1);
                lemma_rows_between_one(ll, ws, i as int);
                lemma_wrap_lines_len_bound(ll[i as int], ws);
                lemma_doc_weight_line(ll, i as int);
                lemma_doc_weight_nonneg(ll);
            }
            if i == text_cursor.y {
                if i == self.top {
                    self.info.cursor = Cursor {
                        x: 0,
                        y: splited_lines.len() + wrap_count - self.top_wrap,
                    };
                } else {
                    self.info.cursor = Cursor { x: 0, y: splited_lines.len() + wrap_count };
                }
            }
            let sp = self.split_line_by_width(i);
            proof {
                crate::views::lemma_lines_view_len(sp);
            }
            if i == self.top {
                let mut j: usize = self.top_wrap;
                while j < sp.len()
                    invariant
                        tw <= j <= sp@.len(),
                        splited_lines@.len() == j - tw,
                        forall|k: int|
                            0 <= k < splited_lines@.len() ==> #[trigger] splited_lines@[k]@
                                == wrap_lines(ll[tt], ws)[tw + k],
                    decreases sp@.len() - j,
                {
                    splited_lines.push(copy_line(&sp[j]));
                    proof {
                        crate::views::lemma_lines_view_index(sp, j as int);
                    }
                    j += 1;
                }
            } else {
                let mut j: usize = 0;
                while j < sp.len()
                    invariant
                        i > tt,
                        j <= sp@.len(),
                        tw <= rows_between(ll, ws, tt, i as int).len(),
                        splited_lines@.len() == rows_between(ll, ws, tt, i as int).len() - tw
                            + j,
                        forall|k: int|
                            0 <= k < rows_between(ll, ws, tt, i as int).len() - tw
                                ==> #[trigger] splited_lines@[k]@ == rows_between(
                                ll,
                                ws,
                                tt,
                                i as int,
                            )[tw + k],
                        forall|m: int|
                            rows_between(ll, ws, tt, i as int).len() - tw <= m
                                < splited_lines@.len() ==> #[trigger] splited_lines@[m]@
                                == wrap_lines(ll[i as int], ws)[m - (rows_between(
                                ll,
                                ws,
                                tt,
                                i as int,
                            ).len() - tw)],
                    decreases sp@.len() - j,
                {
                    splited_lines.push(copy_line(&sp[j]));
                    proof {
                        crate::views::lemma_lines_view_index(sp, j as int);
                    }
                    j += 1;
                }
            }
            proof {
                lemma_rows_between_one(ll, ws, i as int);
                if i as int == tt {
                    assert(rows_between(ll, ws, tt, i + 1) == wrap_lines(ll[tt], ws));
                } else {
                    lemma_rows_between_concat(ll, ws, tt, i as int, i + 1);
                }
                let base = rows_between(ll, ws, tt, i as int).len() - tw;
                assert forall|k: int| 0 <= k < splited_lines@.len() implies #[trigger] splited_lines@[k]@
                    == rows_between(ll, ws, tt, i + 1)[tw + k] by {
                    if i as int > tt && k >= base {
                        assert(splited_lines@[k]@ == wrap_lines(ll[i as int], ws)[k - base]);
                    }
                }
            }
            i += 1;
        }
        proof {
            let rb = rows_before(ll, ws, tt, tw, cy);
            if hh > 0 && rb < hh && i as int <= cy {
                assert((i as int) < ll.len());
                assert(splited_lines@.len() >= hh);
                if i as int > tt {
                    lemma_rows_between_concat(ll, ws, tt, i as int, cy);
                }
                assert(false);
            }
        }
        proof {
            lemma_rows_between_concat(ll, ws, tt, i as int, ll.len() as int);
            if i > tt {
                assert(rows_between(ll, ws, tt, ll.len() as int).skip(tw) =~= rows_between(
                    ll,
                    ws,
                    tt,
                    i as int,
                ).skip(tw) + rows_between(ll, ws, i as int, ll.len() as int));
            }
        }
        if splited_lines.len() > self.info.height {
            splited_lines.truncate(self.info.height);
        }
        proof {
            if i == tt {
                assert(hh == 0 || tt == ll.len());
                assert(rendered_rows(ll, ws, tt, tw, hh) =~= Seq::<Seq<char>>::empty());
            } else {
                assert forall|k: int| 0 <= k < splited_lines@.len() implies #[trigger] splited_lines@[k]@
                    == rendered_rows(ll, ws, tt, tw, hh)[k] by {}
            }
            crate::views::lemma_lines_view_eq(&splited_lines, rendered_rows(ll, ws, tt, tw, hh));
        }
        let mut buffer: Vec<String> = Vec::new();
        let mut k: usize = 0;
        while k < splited_lines.len()
            invariant
                buffer@.len() == k,
                k <= splited_lines@.len(),
                forall|m: int| 0 <= m < k ==> #[trigger] buffer@[m]@ == splited_lines@[m]@,
            decreases splited_lines@.len() - k,
        {
            buffer.push(chars_to_string(&splited_lines[k]));
            k += 1;
        }
        proof {
            assert forall|m: int| 0 <= m < buffer@.len() implies #[trigger] buffer@[m]@
                == rendered_rows(ll, ws, tt, tw, hh)[m] by {
                crate::views::lemma_lines_view_index(splited_lines, m);
            }
            crate::views::lemma_strs_view_eq(&buffer, rendered_rows(ll, ws, tt, tw, hh));
        }
        self.info.buffer = buffer;
    }

    /// The index of the sub-line that the given position falls on, by the
    /// same accumulation rule as the wrap itself.
    pub fn get_wrap_count(&self, cursor: &Cursor) -> (r: usize)
        requires
            self.wf(),
            (cursor.y as int) < self.lines().len(),
            cursor.x <= self.lines()[cursor.y as int].len(),
            cursor.x < usize::MAX,
            self.info.width <= usize::MAX - 2,
        ensures
            r == wrap_count_at(self.lines()[cursor.y as int], cursor.x as int, self.width()),
            r <= cursor.x + 1,
    {
        let line = self.text.line_at(cursor.y);
        let ghost tv = self.lines()[cursor.y as int];
        let ghost w_spec = self.width();
        let mut wrap_count: usize = 0;
        let mut count: usize = 0;
        let mut i: usize = 0;
        while i < cursor.x
            invariant
                i <= cursor.x <= tv.len(),
                line@ == tv,
                w_spec == self.info.width,
                self.info.width <= usize::MAX - 2,
                count == wrap_scan(tv.take(i as int), w_spec).count,
                count <= (if w_spec >= 2 {
                    w_spec
                } else {
                    2
                }),
                wrap_count == wrap_scan(tv.take(i as int), w_spec).parts.len(),
                wrap_count <= i,
            decreases cursor.x - i,
        {
            let c = line[i];
            let w = glyph_cells(c);
            proof {
                assert(tv.take(i + 1).drop_last() =~= tv.take(i as int));
                assert(tv.take(i + 1).last() == tv[i as int]);
            }
            count += w;
            if count > self.info.width {
                count = w;
                wrap_count += 1;
            }
            i += 1;
        }
        if count == self.info.width {
            wrap_count += 1;
        }
        wrap_count
    }
}

} // verus!
