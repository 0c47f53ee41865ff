//! The logical text store: lines of Unicode scalars, a cursor and a selection
//! anchor, with every mutation clamped so that no operation can fail.
use vstd::prelude::*;

use crate::buffer::{Clop, Cursor};

verus! {

broadcast use {
    crate::views::lemma_line_deep_view,
    crate::views::lemma_lines_view_len,
    crate::views::lemma_lines_view_index,
};

/// Mathematical position: line `y`, column `x` in scalars.
pub struct PosView {
    pub x: int,
    pub y: int,
}

/// Mathematical state of a text buffer: the lines, the cursor and the
/// selection anchor. A selection is active iff cursor and anchor differ.
#[verifier::ext_equal]
pub struct TextView {
    pub lines: Seq<Seq<char>>,
    pub cur: PosView,
    pub anc: PosView,
}

impl TextView {
    /// The document always holds at least one line and both positions sit on
    /// an existing line. Columns may exceed the line length.
    pub open spec fn wf(self) -> bool {
        &&& self.lines.len() >= 1
        &&& 0 <= self.cur.y < self.lines.len()
        &&& 0 <= self.anc.y < self.lines.len()
        &&& self.cur.x >= 0
        &&& self.anc.x >= 0
    }

    /// Column of `p` projected into its line: stored columns are kept raw,
    /// every read or mutation sees at most the line length.
    pub open spec fn clamp_x(self, p: PosView) -> int {
        if p.x <= self.lines[p.y].len() {
            p.x
        } else {
            self.lines[p.y].len() as int
        }
    }

    pub open spec fn selecting(self) -> bool {
        self.cur.x != self.anc.x || self.cur.y != self.anc.y
    }

    /// The cursor is the document-order smaller endpoint, or equal to the
    /// anchor. Raw (unclamped) columns decide the order.
    pub open spec fn cursor_first(self) -> bool {
        self.cur.y < self.anc.y || (self.cur.y == self.anc.y && self.cur.x <= self.anc.x)
    }

    /// Raw smaller endpoint of the selection.
    pub open spec fn sel_start(self) -> PosView {
        if self.cursor_first() {
            self.cur
        } else {
            self.anc
        }
    }

    /// Raw larger endpoint of the selection.
    pub open spec fn sel_end(self) -> PosView {
        if self.cursor_first() {
            self.anc
        } else {
            self.cur
        }
    }

    pub open spec fn sel_x1(self) -> int {
        self.clamp_x(self.sel_start())
    }

    pub open spec fn sel_y1(self) -> int {
        self.sel_start().y
    }

    pub open spec fn sel_x2(self) -> int {
        self.clamp_x(self.sel_end())
    }

    pub open spec fn sel_y2(self) -> int {
        self.sel_end().y
    }

    /// The selected text: one slice on a single line; otherwise the first
    /// line's tail, the intervening lines whole, and the last line's head.
    pub open spec fn range_text(self) -> Seq<Seq<char>> {
        if !self.selecting() {
            Seq::empty()
        } else if self.sel_y1() == self.sel_y2() {
            seq![self.lines[self.sel_y1()].subrange(self.sel_x1(), self.sel_x2())]
        } else {
            seq![self.lines[self.sel_y1()].skip(self.sel_x1())] + self.lines.subrange(
                self.sel_y1() + 1,
                self.sel_y2(),
            ) + seq![self.lines[self.sel_y2()].take(self.sel_x2())]
        }
    }

    /// The lines after deleting the selection: head of the first selected
    /// line joined with the tail of the last, intervening lines removed.
    pub open spec fn delete_sel_lines(self) -> Seq<Seq<char>> {
        if self.sel_y1() == self.sel_y2() {
            self.lines.update(
                self.sel_y1(),
                self.lines[self.sel_y1()].take(self.sel_x1()) + self.lines[self.sel_y1()].skip(
                    self.sel_x2(),
                ),
            )
        } else {
            self.lines.take(self.sel_y1()) + seq![
                self.lines[self.sel_y1()].take(self.sel_x1()) + self.lines[self.sel_y2()].skip(
                    self.sel_x2(),
                ),
            ] + self.lines.skip(self.sel_y2() + 1)
        }
    }

    /// State after deleting the selection: both endpoints collapse to the raw
    /// smaller endpoint. Without a selection nothing changes.
    pub open spec fn after_delete_sel(self) -> TextView {
        if !self.selecting() {
            self
        } else {
            TextView { lines: self.delete_sel_lines(), cur: self.sel_start(), anc: self.sel_start() }
        }
    }

    /// State after inserting `c`: an active selection is deleted first, the
    /// cursor column is clamped, `c` goes in at that column, the cursor moves
    /// one column right and the selection closes.
    pub open spec fn after_insert(self, c: char) -> TextView {
        let v = self.after_delete_sel();
        let y = v.cur.y;
        let xf = v.clamp_x(v.cur);
        let nl = v.lines[y].take(xf).push(c) + v.lines[y].skip(xf);
        let p = PosView { x: xf + 1, y };
        TextView { lines: v.lines.update(y, nl), cur: p, anc: p }
    }

    /// State after a newline: like an insertion, but the clamped cursor
    /// column splits the line in two and the cursor moves to the start of
    /// the new line.
    pub open spec fn after_newline(self) -> TextView {
        let v = self.after_delete_sel();
        let y = v.cur.y;
        let xf = v.clamp_x(v.cur);
        let p = PosView { x: 0, y: y + 1 };
        TextView {
            lines: v.lines.update(y, v.lines[y].take(xf)).insert(y + 1, v.lines[y].skip(xf)),
            cur: p,
            anc: p,
        }
    }

    /// The state with the stored cursor column clamped to its line length.
    /// Backspace and forward delete clamp the stored column before deciding
    /// whether a selection is still active.
    pub open spec fn with_cursor_fixed(self) -> TextView {
        TextView {
            lines: self.lines,
            cur: PosView { x: self.clamp_x(self.cur), y: self.cur.y },
            anc: self.anc,
        }
    }

    /// State after backspace: the cursor column is clamped first; a selection
    /// still active afterwards is deleted; else the scalar left of the cursor
    /// is removed; else at column 0 the line is merged into the previous one;
    /// at the document start nothing happens.
    pub open spec fn after_backspace(self) -> TextView {
        let f = self.with_cursor_fixed();
        if f.selecting() {
            f.after_delete_sel()
        } else {
            let y = self.cur.y;
            let xf = self.clamp_x(self.cur);
            if xf > 0 {
                let p = PosView { x: xf - 1, y };
                TextView {
                    lines: self.lines.update(y, self.lines[y].remove(xf - 1)),
                    cur: p,
                    anc: p,
                }
            } else if y > 0 {
                let p = PosView { x: self.lines[y - 1].len() as int, y: y - 1 };
                TextView {
                    lines: self.lines.update(y - 1, self.lines[y - 1] + self.lines[y]).remove(y),
                    cur: p,
                    anc: p,
                }
            } else {
                let p = PosView { x: 0, y: 0 };
                TextView { lines: self.lines, cur: p, anc: p }
            }
        }
    }

    /// State after forward delete, the mirror of backspace: the scalar under
    /// the clamped cursor is removed, or the next line is merged in.
    pub open spec fn after_forward_delete(self) -> TextView {
        let f = self.with_cursor_fixed();
        if f.selecting() {
            f.after_delete_sel()
        } else {
            let y = self.cur.y;
            let xf = self.clamp_x(self.cur);
            let p = PosView { x: xf, y };
            if xf < self.lines[y].len() {
                TextView { lines: self.lines.update(y, self.lines[y].remove(xf)), cur: p, anc: p }
            } else if y < self.lines.len() - 1 {
                TextView {
                    lines: self.lines.update(y, self.lines[y] + self.lines[y + 1]).remove(y + 1),
                    cur: p,
                    anc: p,
                }
            } else {
                TextView { lines: self.lines, cur: p, anc: p }
            }
        }
    }

    /// State after moving left: one column back from the clamped position,
    /// wrapping to the end of the previous line; a no-op at the document
    /// start. With `keep_sel` the anchor stays, else it follows the cursor.
    pub open spec fn after_left(self, keep_sel: bool) -> TextView {
        let y = self.cur.y;
        let xf = self.clamp_x(self.cur);
        let p = if xf > 0 {
            PosView { x: xf - 1, y }
        } else if y > 0 {
            PosView { x: self.lines[y - 1].len() as int, y: y - 1 }
        } else {
            PosView { x: xf, y }
        };
        TextView { lines: self.lines, cur: p, anc: if keep_sel { self.anc } else { p } }
    }

    /// State after moving right: one column forward from the clamped
    /// position, wrapping to the start of the next line; a no-op at the
    /// document end.
    pub open spec fn after_right(self, keep_sel: bool) -> TextView {
        let y = self.cur.y;
        let xf = self.clamp_x(self.cur);
        let p = if xf < self.lines[y].len() {
            PosView { x: xf + 1, y }
        } else if y < self.lines.len() - 1 {
            PosView { x: 0, y: y + 1 }
        } else {
            PosView { x: xf, y }
        };
        TextView { lines: self.lines, cur: p, anc: if keep_sel { self.anc } else { p } }
    }

    /// State after moving up: the raw column is preserved; on the first line
    /// the column resets to 0 instead.
    pub open spec fn after_up(self, keep_sel: bool) -> TextView {
        let p = if self.cur.y > 0 {
            PosView { x: self.cur.x, y: self.cur.y - 1 }
        } else {
            PosView { x: 0, y: 0 }
        };
        TextView { lines: self.lines, cur: p, anc: if keep_sel { self.anc } else { p } }
    }

    /// State after moving down: the raw column is preserved; on the last line
    /// the column is set to the line length instead.
    pub open spec fn after_down(self, keep_sel: bool) -> TextView {
        let p = if self.cur.y < self.lines.len() - 1 {
            PosView { x: self.cur.x, y: self.cur.y + 1 }
        } else {
            PosView { x: self.lines[self.cur.y].len() as int, y: self.cur.y }
        };
        TextView { lines: self.lines, cur: p, anc: if keep_sel { self.anc } else { p } }
    }

    /// State after select-all: anchor at the document start, cursor at the
    /// end of the last line.
    pub open spec fn after_select_all(self) -> TextView {
        TextView {
            lines: self.lines,
            cur: PosView {
                x: self.lines[self.lines.len() - 1].len() as int,
                y: self.lines.len() - 1,
            },
            anc: PosView { x: 0, y: 0 },
        }
    }
}

/// Insert/backspace round trip: without an active selection, inserting a
/// scalar at a cursor whose column is within its line and then backspacing
/// restores the buffer exactly.
pub proof fn lemma_insert_backspace_round_trip(v: TextView, c: char)
    requires
        v.wf(),
        !v.selecting(),
        v.cur.x <= v.lines[v.cur.y].len(),
    ensures
        v.after_insert(c).after_backspace() == v,
{
    let v1 = v.after_insert(c);
    let y = v.cur.y;
    let x = v.cur.x;
    let nl = v.lines[y].take(x).push(c) + v.lines[y].skip(x);
    assert(nl.remove(x) =~= v.lines[y]);
    assert(v1.lines.update(y, nl.remove(x)) =~= v.lines);
    assert(v.cur == v.anc);
    assert(v1.after_backspace() =~~= v);
}

/// Newline/backspace round trip: without an active selection, splitting the
/// line at a cursor whose column is within it and then backspacing restores
/// the buffer exactly.
pub proof fn lemma_newline_backspace_round_trip(v: TextView)
    requires
        v.wf(),
        !v.selecting(),
        v.cur.x <= v.lines[v.cur.y].len(),
    ensures
        v.after_newline().after_backspace() == v,
{
    let v1 = v.after_newline();
    let y = v.cur.y;
    let x = v.cur.x;
    let l1 = v1.lines;
    assert(l1[y] == v.lines[y].take(x));
    assert(l1[y + 1] == v.lines[y].skip(x));
    assert(l1[y] + l1[y + 1] =~= v.lines[y]);
    assert(l1.update(y, l1[y] + l1[y + 1]).remove(y + 1) =~= v.lines);
    assert(v.cur == v.anc);
    assert(v1.after_backspace() =~~= v);
}

/// Selection symmetry: swapping cursor and anchor changes neither the
/// selected text nor the result of deleting the selection.
pub proof fn lemma_selection_symmetric(v: TextView)
    requires
        v.wf(),
    ensures
        (TextView { lines: v.lines, cur: v.anc, anc: v.cur }).after_delete_sel()
            == v.after_delete_sel(),
        (TextView { lines: v.lines, cur: v.anc, anc: v.cur }).range_text() == v.range_text(),
{
    let w = TextView { lines: v.lines, cur: v.anc, anc: v.cur };
    if !v.selecting() {
        assert(w =~~= v);
    } else {
        assert(w.sel_start() == v.sel_start());
        assert(w.sel_end() == v.sel_end());
        assert(w.after_delete_sel() =~~= v.after_delete_sel());
    }
}

/// The executable text buffer. `text` always holds at least one line; the
/// stored cursor column may exceed its line's length (see `TextView`).
#[derive(Debug, Clone)]
pub struct TextBuffer {
    pub text: Vec<Vec<char>>,
    cursor: Cursor,
    sub_cursor: Cursor,
}

impl View for TextBuffer {
    type V = TextView;

    closed spec fn view(&self) -> TextView {
        TextView {
            lines: self.text.deep_view(),
            cur: PosView { x: self.cursor.x as int, y: self.cursor.y as int },
            anc: PosView { x: self.sub_cursor.x as int, y: self.sub_cursor.y as int },
        }
    }
}

impl TextBuffer {
    pub open spec fn wf(&self) -> bool {
        self@.wf()
    }

    /// An empty document: one empty line, cursor and anchor at the origin.
    fn empty() -> (r: TextBuffer)
        ensures
            r.wf(),
            r@.lines =~= seq![Seq::<char>::empty()],
            r@.cur == (PosView { x: 0, y: 0 }),
            r@.anc == (PosView { x: 0, y: 0 }),
    {
        let mut text: Vec<Vec<char>> = Vec::new();
        text.push(Vec::new());
        proof {
            assert(text.deep_view() =~~= seq![Seq::<char>::empty()]);
        }
        TextBuffer { text, cursor: Cursor { x: 0, y: 0 }, sub_cursor: Cursor { x: 0, y: 0 } }
    }
}

/// A piece of input with one trailing carriage return removed, as happens
/// when the piece ends at a "\r\n" line ending.
pub open spec fn strip_cr(l: Seq<char>) -> Seq<char> {
    if l.len() > 0 && l.last() == '\r' {
        l.drop_last()
    } else {
        l
    }
}

/// Scanning `s` left to right and splitting at newlines: the finished lines
/// and the piece still open.
pub open spec fn split_state(s: Seq<char>) -> (Seq<Seq<char>>, Seq<char>)
    decreases s.len(),
{
    if s.len() == 0 {
        (Seq::empty(), Seq::empty())
    } else {
        let r = split_state(s.drop_last());
        if s.last() == '\n' {
            (r.0.push(strip_cr(r.1)), Seq::empty())
        } else {
            (r.0, r.1.push(s.last()))
        }
    }
}

/// The lines of `s` as `str::lines` yields them: split at '\n', a "\r"
/// before the '\n' removed, and no final empty piece after a trailing
/// newline.
pub open spec fn split_lines(s: Seq<char>) -> Seq<Seq<char>> {
    let r = split_state(s);
    if r.1.len() > 0 {
        r.0.push(r.1)
    } else {
        r.0
    }
}

/// Copy of `l[start..end]`.
pub(crate) fn copy_range(l: &Vec<char>, start: usize, end: usize) -> (r: Vec<char>)
    requires
        start <= end <= l@.len(),
    ensures
        r@ == l@.subrange(start as int, end as int),
{
    let mut r: Vec<char> = Vec::new();
    let mut i: usize = start;
    while i < end
        invariant
            start <= i <= end <= l@.len(),
            r@ == l@.subrange(start as int, i as int),
        decreases end - i,
    {
        r.push(l[i]);
        proof {
            assert(r@ =~= l@.subrange(start as int, i + 1));
        }
        i += 1;
    }
    r
}

/// Copy of a whole line.
pub(crate) fn copy_line(l: &Vec<char>) -> (r: Vec<char>)
    ensures
        r@ == l@,
{
    let r = copy_range(l, 0, l.len());
    proof {
        assert(l@.subrange(0, l@.len() as int) =~= l@);
    }
    r
}

/// `clop` for a vector of lines: the lines inside the index range and the
/// outer lines joined, both as copies.
fn clop_lines(v: &Vec<Vec<char>>, start: usize, end: usize) -> (r: (Vec<Vec<char>>, Vec<Vec<char>>))
    requires
        start <= end <= v@.len(),
    ensures
        r.0.deep_view() == v.deep_view().subrange(start as int, end as int),
        r.1.deep_view() == v.deep_view().subrange(0, start as int) + v.deep_view().skip(end as int),
{
    let mut inside: Vec<Vec<char>> = Vec::new();
    let mut outside: Vec<Vec<char>> = Vec::new();
    let mut i: usize = 0;
    while i < start
        invariant
            i <= start <= end <= v@.len(),
            inside@.len() == 0,
            outside@.len() == i,
            forall|j: int| 0 <= j < i ==> #[trigger] outside@[j]@ == v@[j]@,
        decreases start - i,
    {
        outside.push(copy_line(&v[i]));
        i += 1;
    }
    while i < end
        invariant
            start <= i <= end <= v@.len(),
            inside@.len() == i - start,
            outside@.len() == start,
            forall|j: int| 0 <= j < start ==> #[trigger] outside@[j]@ == v@[j]@,
            forall|j: int| 0 <= j < i - start ==> #[trigger] inside@[j]@ == v@[start + j]@,
        decreases end - i,
    {
        inside.push(copy_line(&v[i]));
        i += 1;
    }
    while i < v.len()
        invariant
            end <= i <= v@.len(),
            inside@.len() == end - start,
            outside@.len() == start + (i - end),
            forall|j: int| 0 <= j < start ==> #[trigger] outside@[j]@ == v@[j]@,
            forall|j: int| start <= j < start + (i - end) ==> #[trigger] outside@[j]@ == v@[end
                + (j - start)]@,
            forall|j: int| 0 <= j < end - start ==> #[trigger] inside@[j]@ == v@[start + j]@,
        decreases v@.len() - i,
    {
        outside.push(copy_line(&v[i]));
        i += 1;
    }
    proof {
        crate::views::lemma_lines_view_eq(
            &inside,
            v.deep_view().subrange(start as int, end as int),
        );
        crate::views::lemma_lines_view_eq(
            &outside,
            v.deep_view().subrange(0, start as int) + v.deep_view().skip(end as int),
        );
    }
    (inside, outside)
}

impl TextBuffer {
    /// The state a buffer freshly made from input `s` holds: the lines of
    /// `s`, or one empty line when `s` has none, with cursor and anchor at
    /// the origin.
    pub open spec fn new_view(s: Seq<char>) -> TextView {
        TextView {
            lines: if split_lines(s).len() == 0 {
                seq![Seq::<char>::empty()]
            } else {
                split_lines(s)
            },
            cur: PosView { x: 0, y: 0 },
            anc: PosView { x: 0, y: 0 },
        }
    }

    /// A buffer holding the lines of `text`, the cursor at the origin. An
    /// input without any line yields one empty line, so that the document is
    /// never empty.
    pub fn new(text: &str) -> (r: TextBuffer)
        ensures
            r.wf(),
            r@ == TextBuffer::new_view(text@),
    {
        let n = text.unicode_len();
        let mut lines_vec: Vec<Vec<char>> = Vec::new();
        let mut cur_line: Vec<char> = Vec::new();
        let mut i: usize = 0;
        while i < n
            invariant
                i <= n == text@.len(),
                lines_vec@.len() == split_state(text@.take(i as int)).0.len(),
                forall|j: int|
                    0 <= j < lines_vec@.len() ==> #[trigger] lines_vec@[j]@ == split_state(
                        text@.take(i as int),
                    ).0[j],
                cur_line@ == split_state(text@.take(i as int)).1,
            decreases n - i,
        {
            let c = text.get_char(i);
            proof {
                assert(text@.take(i + 1).drop_last() =~= text@.take(i as int));
                assert(text@.take(i + 1).last() == text@[i as int]);
            }
            if c == '\n' {
                if cur_line.len() > 0 && cur_line[cur_line.len() - 1] == '\r' {
                    cur_line.pop();
                    proof {
                        assert(cur_line@ =~= strip_cr(split_state(text@.take(i as int)).1));
                    }
                } else {
                    proof {
                        assert(cur_line@ == strip_cr(split_state(text@.take(i as int)).1));
                    }
                }
                lines_vec.push(cur_line);
                cur_line = Vec::new();
            } else {
                cur_line.push(c);
            }
            i += 1;
        }
        proof {
            assert(text@.take(n as int) =~= text@);
        }
        if cur_line.len() > 0 {
            lines_vec.push(cur_line);
        } else if lines_vec.len() == 0 {
            lines_vec.push(Vec::new());
        }
        let r = TextBuffer {
            text: lines_vec,
            cursor: Cursor { x: 0, y: 0 },
            sub_cursor: Cursor { x: 0, y: 0 },
        };
        proof {
            let sl = split_lines(text@);
            let want = if sl.len() == 0 {
                seq![Seq::<char>::empty()]
            } else {
                sl
            };
            crate::views::lemma_lines_view_eq(&r.text, want);
            assert(r@ =~~= TextBuffer::new_view(text@));
        }
        r
    }

    /// How many lines the document holds.
    pub fn line_count(&self) -> (r: usize)
        ensures
            r == self@.lines.len(),
    {
        self.text.len()
    }

    /// The stored line at index `y`.
    pub fn line_at(&self, y: usize) -> (r: &Vec<char>)
        requires
            (y as int) < self@.lines.len(),
        ensures
            r@ == self@.lines[y as int],
    {
        &self.text[y]
    }

    /// The cursor position as an external reader sees it: the stored column
    /// projected down to the current line's length.
    pub fn get_cursor_pos(&self) -> (r: Cursor)
        requires
            self.wf(),
        ensures
            r.y == self@.cur.y,
            r.x == self@.clamp_x(self@.cur),
    {
        if self.text[self.cursor.y].len() < self.cursor.x {
            return Cursor { x: self.text[self.cursor.y].len(), y: self.cursor.y };
        }
        self.cursor
    }

    /// A copy of the whole document.
    pub fn get_text(&self) -> (r: Vec<Vec<char>>)
        ensures
            r.deep_view() == self@.lines,
    {
        let mut r: Vec<Vec<char>> = Vec::new();
        let mut i: usize = 0;
        while i < self.text.len()
            invariant
                i <= self.text@.len(),
                r@.len() == i,
                forall|j: int| 0 <= j < i ==> #[trigger] r@[j]@ == self.text@[j]@,
            decreases self.text@.len() - i,
        {
            r.push(copy_line(&self.text[i]));
            i += 1;
        }
        proof {
            crate::views::lemma_lines_view_eq(&r, self@.lines);
        }
        r
    }

    pub fn is_selecting(&self) -> (r: bool)
        ensures
            r == self@.selecting(),
    {
        self.cursor.x != self.sub_cursor.x || self.cursor.y != self.sub_cursor.y
    }

    /// Whether the cursor is the document-order smaller endpoint (or equal
    /// to the anchor).
    fn get_smaller_cursor(&self) -> (r: bool)
        ensures
            r == self@.cursor_first(),
    {
        if !self.is_selecting() {
            return true;
        } else if self.cursor.y < self.sub_cursor.y {
            return true;
        } else if self.cursor.y > self.sub_cursor.y {
            return false;
        } else if self.cursor.x < self.sub_cursor.x {
            return true;
        } else {
            return false;
        }
    }

    /// Close the selection: the anchor follows the cursor.
    fn close_cursor_range(&mut self)
        ensures
            final(self)@ == (TextView { anc: old(self)@.cur, ..old(self)@ }),
    {
        self.sub_cursor = self.cursor;
    }

    /// Collapse both endpoints onto one of them: with `dir` onto the raw
    /// smaller endpoint, without it onto the raw larger one.
    fn close_cursor_range_dir(&mut self, dir: bool)
        ensures
            final(self)@ == (if old(self)@.cursor_first() == dir {
                TextView { anc: old(self)@.cur, ..old(self)@ }
            } else {
                TextView { cur: old(self)@.anc, ..old(self)@ }
            }),
    {
        if self.get_smaller_cursor() == dir {
            self.sub_cursor = self.cursor;
        } else {
            self.cursor = self.sub_cursor;
        }
    }

    /// Clamp the stored cursor column to the current line's length.
    fn fix_cursor_pos(&mut self)
        requires
            old(self).wf(),
        ensures
            final(self).wf(),
            final(self)@ == old(self)@.with_cursor_fixed(),
    {
        if self.cursor.x > self.text[self.cursor.y].len() {
            self.cursor.x = self.text[self.cursor.y].len()
        }
    }

    /// Move one column left, wrapping to the previous line's end.
    pub fn left(&mut self, with_select: bool)
        requires
            old(self).wf(),
        ensures
            final(self).wf(),
            final(self)@ == old(self)@.after_left(with_select),
    {
        self.fix_cursor_pos();
        if self.cursor.x > 0 {
            self.cursor.x -= 1;
        } else if self.cursor.y > 0 {
            self.cursor.y -= 1;
            self.cursor.x = self.text[self.cursor.y].len();
        }
        if !with_select {
            self.close_cursor_range();
        }
    }

    /// Move one column right, wrapping to the next line's start.
    pub fn right(&mut self, with_select: bool)
        requires
            old(self).wf(),
        ensures
            final(self).wf(),
            final(self)@ == old(self)@.after_right(with_select),
    {
        self.fix_cursor_pos();
        if self.cursor.x < self.text[self.cursor.y].len() {
            self.cursor.x += 1;
        } else if self.cursor.y < self.text.len() - 1 {
            self.cursor.y += 1;
            self.cursor.x = 0;
        }
        if !with_select {
            self.close_cursor_range();
        }
    }

    /// Move one line up, keeping the raw column; on the first line the
    /// column resets to 0.
    pub fn up(&mut self, with_select: bool)
        requires
            old(self).wf(),
        ensures
            final(self).wf(),
            final(self)@ == old(self)@.after_up(with_select),
    {
        if self.cursor.y > 0 {
            self.cursor.y -= 1;
        } else {
            self.cursor.x = 0;
        }
        if !with_select {
            self.close_cursor_range();
        }
    }

    /// Move one line down, keeping the raw column; on the last line the
    /// column moves to the line's end.
    pub fn down(&mut self, with_select: bool)
        requires
            old(self).wf(),
        ensures
            final(self).wf(),
            final(self)@ == old(self)@.after_down(with_select),
    {
        if self.cursor.y < self.text.len() - 1 {
            self.cursor.y += 1;
        } else {
            self.cursor.x = self.text[self.cursor.y].len();
        }
        if !with_select {
            self.close_cursor_range();
        }
    }

    /// Insert one scalar at the cursor. An active selection is deleted
    /// first; the cursor moves one column right and the selection closes.
    pub fn input(&mut self, c: char)
        requires
            old(self).wf(),
        ensures
            final(self).wf(),
            final(self)@ == old(self)@.after_insert(c),
    {
        if self.is_selecting() {
            self.delete_range_text();
        }
        self.fix_cursor_pos();
        let y = self.cursor.y;
        let ghost mid = self@;
        let mut line = copy_line(&self.text[y]);
        line.insert(self.cursor.x, c);
        proof {
            vstd::std_specs::vec::axiom_spec_len(&line);
        }
        let ghost t1 = self.text;
        let ghost lv = line@;
        self.text[y] = line;
        proof {
            crate::views::lemma_update_line(t1, &self.text, y as int, lv);
            assert(lv =~= old(self)@.after_insert(c).lines[y as int]);
        }
        self.cursor.x += 1;
        self.close_cursor_range();
        proof {
            assert(self@ =~~= old(self)@.after_insert(c));
        }
    }

    /// Split the current line at the cursor. An active selection is deleted
    /// first; the cursor moves to the start of the new line.
    pub fn enter(&mut self)
        requires
            old(self).wf(),
        ensures
            final(self).wf(),
            final(self)@ == old(self)@.after_newline(),
    {
        if self.is_selecting() {
            self.delete_range_text();
        }
        self.fix_cursor_pos();
        let y = self.cursor.y;
        let before_line = copy_range(&self.text[y], 0, self.cursor.x);
        let after_line = copy_range(&self.text[y], self.cursor.x, self.text[y].len());
        let n = self.text.len();
        proof {
            assert(y < n);
        }
        let ghost t1 = self.text;
        let ghost bv = before_line@;
        let ghost av = after_line@;
        self.text[y] = before_line;
        let ghost t2 = self.text;
        self.cursor.y += 1;
        self.cursor.x = 0;
        self.text.insert(self.cursor.y, after_line);
        proof {
            let sv = old(self)@.after_newline();
            crate::views::lemma_update_line(t1, &t2, y as int, bv);
            crate::views::lemma_insert_line(t2, &self.text, y + 1, av);
            assert(self.text.deep_view() =~= sv.lines);
        }
        self.close_cursor_range();
        proof {
            assert(self@ =~~= old(self)@.after_newline());
        }
    }

    /// Backspace: delete an active selection; else remove the scalar left of
    /// the cursor; else merge this line into the previous one. A no-op at
    /// the document start.
    pub fn back(&mut self)
        requires
            old(self).wf(),
        ensures
            final(self).wf(),
            final(self)@ == old(self)@.after_backspace(),
    {
        self.fix_cursor_pos();
        if self.is_selecting() {
            self.delete_range_text();
            self.close_cursor_range();
            return;
        }
        if self.cursor.x > 0 {
            self.cursor.x -= 1;
            let mut line = copy_line(&self.text[self.cursor.y]);
            line.remove(self.cursor.x);
            let ghost t1 = self.text;
            let ghost lv = line@;
            self.text[self.cursor.y] = line;
            proof {
                crate::views::lemma_update_line(t1, &self.text, self@.cur.y, lv);
            }
            self.close_cursor_range();
            proof {
                assert(self@ =~~= old(self)@.after_backspace());
            }
        } else if self.cursor.y > 0 {
            let y = self.cursor.y;
            let ghost t0 = self.text;
            let mut line = self.text.remove(y);
            let ghost t1 = self.text;
            proof {
                crate::views::lemma_remove_line(t0, &t1, y as int);
            }
            self.cursor.y -= 1;
            self.cursor.x = self.text[self.cursor.y].len();
            let mut prev = copy_line(&self.text[self.cursor.y]);
            prev.append(&mut line);
            let ghost t2 = self.text;
            let ghost lv = prev@;
            self.text[self.cursor.y] = prev;
            proof {
                let sv = old(self)@.after_backspace();
                crate::views::lemma_update_line(t2, &self.text, y - 1, lv);
                assert(self.text.deep_view() =~= sv.lines);
            }
            self.close_cursor_range();
            proof {
                assert(self@ =~~= old(self)@.after_backspace());
            }
        } else {
            self.close_cursor_range();
            proof {
                assert(self@ =~~= old(self)@.after_backspace());
            }
        }
    }

    /// Forward delete, the mirror of backspace: delete an active selection;
    /// else remove the scalar under the cursor; else merge the next line
    /// into this one. A no-op at the document end.
    pub fn delete(&mut self)
        requires
            old(self).wf(),
        ensures
            final(self).wf(),
            final(self)@ == old(self)@.after_forward_delete(),
    {
        self.fix_cursor_pos();
        if self.is_selecting() {
            self.delete_range_text();
            self.close_cursor_range();
            return;
        }
        if self.cursor.x < self.text[self.cursor.y].len() {
            let mut line = copy_line(&self.text[self.cursor.y]);
            line.remove(self.cursor.x);
            let ghost t1 = self.text;
            let ghost lv = line@;
            self.text[self.cursor.y] = line;
            proof {
                crate::views::lemma_update_line(t1, &self.text, self@.cur.y, lv);
            }
            self.close_cursor_range();
            proof {
                assert(self@ =~~= old(self)@.after_forward_delete());
            }
        } else if self.cursor.y < self.text.len() - 1 {
            let y = self.cursor.y;
            let ghost t0 = self.text;
            let mut next_line = self.text.remove(y + 1);
            let ghost t1 = self.text;
            proof {
                crate::views::lemma_remove_line(t0, &t1, y + 1);
            }
            let mut line = copy_line(&self.text[y]);
            line.append(&mut next_line);
            let ghost lv = line@;
            self.text[y] = line;
            proof {
                let sv = old(self)@.after_forward_delete();
                crate::views::lemma_update_line(t1, &self.text, y as int, lv);
                assert(self.text.deep_view() =~= sv.lines);
            }
            self.close_cursor_range();
            proof {
                assert(self@ =~~= old(self)@.after_forward_delete());
            }
        } else {
            self.close_cursor_range();
            proof {
                assert(self@ =~~= old(self)@.after_forward_delete());
            }
        }
    }

    /// Clamped coordinates of the selection, ordered: `(x1, y1)` is the
    /// clamped smaller endpoint, `(x2, y2)` the clamped larger one.
    fn selection_bounds(&self) -> (r: (usize, usize, usize, usize))
        requires
            self.wf(),
        ensures
            r.0 == self@.sel_x1(),
            r.1 == self@.sel_y1(),
            r.2 == self@.sel_x2(),
            r.3 == self@.sel_y2(),
    {
        let x1: usize;
        let y1: usize;
        let x2: usize;
        let y2: usize;
        if self.get_smaller_cursor() {
            x1 = if self.cursor.x > self.text[self.cursor.y].len() {
                self.text[self.cursor.y].len()
            } else {
                self.cursor.x
            };
            y1 = self.cursor.y;
            x2 = if self.sub_cursor.x > self.text[self.sub_cursor.y].len() {
                self.text[self.sub_cursor.y].len()
            } else {
                self.sub_cursor.x
            };
            y2 = self.sub_cursor.y;
        } else {
            x2 = if self.cursor.x > self.text[self.cursor.y].len() {
                self.text[self.cursor.y].len()
            } else {
                self.cursor.x
            };
            y2 = self.cursor.y;
            x1 = if self.sub_cursor.x > self.text[self.sub_cursor.y].len() {
                self.text[self.sub_cursor.y].len()
            } else {
                self.sub_cursor.x
            };
            y1 = self.sub_cursor.y;
        }
        (x1, y1, x2, y2)
    }

    /// A copy of the selected text; empty when no selection is active.
    pub fn get_range_text(&self) -> (r: Vec<Vec<char>>)
        requires
            self.wf(),
        ensures
            r.deep_view() == self@.range_text(),
    {
        if !self.is_selecting() {
            let r: Vec<Vec<char>> = Vec::new();
            proof {
                assert(r.deep_view() =~= self@.range_text());
            }
            return r;
        }
        let (x1, y1, x2, y2) = self.selection_bounds();
        if y1 == y2 {
            let mut r: Vec<Vec<char>> = Vec::new();
            r.push(copy_range(&self.text[y1], x1, x2));
            proof {
                assert(r.deep_view() =~= self@.range_text());
            }
            r
        } else {
            let mut r: Vec<Vec<char>> = Vec::new();
            r.push(copy_range(&self.text[y1], x1, self.text[y1].len()));
            let mut i: usize = y1 + 1;
            while i < y2
                invariant
                    self.wf(),
                    self@.selecting(),
                    x1 == self@.sel_x1(),
                    y1 == self@.sel_y1(),
                    x2 == self@.sel_x2(),
                    y2 == self@.sel_y2(),
                    y1 < i <= y2 < self@.lines.len(),
                    r@.len() == i - y1,
                    r@[0]@ == self@.lines[y1 as int].skip(x1 as int),
                    forall|j: int| 1 <= j < i - y1 ==> #[trigger] r@[j]@ == self@.lines[y1 + j],
                decreases y2 - i,
            {
                r.push(copy_line(&self.text[i]));
                i += 1;
            }
            r.push(copy_range(&self.text[y2], 0, x2));
            proof {
                crate::views::lemma_lines_view_eq(&r, self@.range_text());
            }
            r
        }
    }

    /// Delete the selected text, collapse cursor and anchor to the selection
    /// start, and hand the removed text back; a no-op without a selection.
    pub fn delete_range_text(&mut self) -> (r: Vec<Vec<char>>)
        requires
            old(self).wf(),
        ensures
            final(self).wf(),
            final(self)@ == old(self)@.after_delete_sel(),
            r.deep_view() == old(self)@.range_text(),
    {
        if !self.is_selecting() {
            let r: Vec<Vec<char>> = Vec::new();
            proof {
                assert(r.deep_view() =~= old(self)@.range_text());
            }
            return r;
        }
        let (x1, y1, x2, y2) = self.selection_bounds();
        self.close_cursor_range_dir(true);
        if y1 == y2 {
            let (inside, outside) = self.text[y1].clop(x1, x2);
            let ghost t1 = self.text;
            self.text[y1] = outside;
            let mut r: Vec<Vec<char>> = Vec::new();
            r.push(inside);
            proof {
                crate::views::lemma_update_line(t1, &self.text, y1 as int, outside@);
                assert(outside@ =~= old(self)@.lines[y1 as int].take(x1 as int) + old(
                    self,
                )@.lines[y1 as int].skip(x2 as int));
                assert(self@ =~~= old(self)@.after_delete_sel());
                assert(r.deep_view() =~= old(self)@.range_text());
            }
            r
        } else {
            let n = self.text.len();
            proof {
                assert(y2 < n);
            }
            let (mut inside_lines, outside_lines) = clop_lines(&self.text, y1, y2 + 1);
            proof {
                crate::views::lemma_lines_view_len(inside_lines);
                crate::views::lemma_lines_view_len(outside_lines);
            }
            self.text = outside_lines;
            let len = inside_lines.len();
            proof {
                crate::views::lemma_lines_view_index(inside_lines, 0);
                crate::views::lemma_lines_view_index(inside_lines, len - 1);
                assert(inside_lines@[0]@ == old(self)@.lines[y1 as int]);
                assert(inside_lines@[len - 1]@ == old(self)@.lines[y2 as int]);
            }
            let mut remain_line = copy_range(&inside_lines[0], 0, x1);
            let mut tail_part = copy_range(&inside_lines[len - 1], x2, inside_lines[len - 1].len());
            remain_line.append(&mut tail_part);
            let ghost t2 = self.text;
            self.text.insert(y1, remain_line);
            proof {
                crate::views::lemma_insert_line(
                    t2,
                    &self.text,
                    y1 as int,
                    old(self)@.lines[y1 as int].take(x1 as int) + old(self)@.lines[y2 as int].skip(
                        x2 as int,
                    ),
                );
                assert(self@.lines =~= old(self)@.after_delete_sel().lines);
                assert(self@ =~~= old(self)@.after_delete_sel());
            }
            let ghost i1 = inside_lines;
            let first_trim = copy_range(&inside_lines[0], x1, inside_lines[0].len());
            inside_lines[0] = first_trim;
            let ghost i2 = inside_lines;
            let last_trim = copy_range(&inside_lines[len - 1], 0, x2);
            inside_lines[len - 1] = last_trim;
            proof {
                crate::views::lemma_update_line(
                    i1,
                    &i2,
                    0,
                    old(self)@.lines[y1 as int].skip(x1 as int),
                );
                crate::views::lemma_update_line(
                    i2,
                    &inside_lines,
                    len - 1,
                    old(self)@.lines[y2 as int].take(x2 as int),
                );
                assert(inside_lines.deep_view() =~= old(self)@.range_text());
            }
            inside_lines
        }
    }

    /// Select the whole document: anchor at the origin, cursor at the end of
    /// the last line.
    pub fn select_all(&mut self)
        requires
            old(self).wf(),
        ensures
            final(self).wf(),
            final(self)@ == old(self)@.after_select_all(),
    {
        self.sub_cursor = Cursor { x: 0, y: 0 };
        self.cursor = Cursor { x: self.text[self.text.len() - 1].len(), y: self.text.len() - 1 };
    }
}

impl Default for TextBuffer {
    fn default() -> (r: TextBuffer)
        ensures
            r.wf(),
            r@.lines =~= seq![Seq::<char>::empty()],
            r@.cur == (PosView { x: 0, y: 0 }),
            r@.anc == (PosView { x: 0, y: 0 }),
    {
        TextBuffer::empty()
    }
}

} // verus!
