//! Shared viewport types and the editing commands a view understands.
use vstd::prelude::*;

verus! {

/// A position in the document: `y` is the line index, `x` the column in
/// Unicode scalars. A stored `x` may exceed the current line's length; it is
/// projected down to the line length at every read boundary.
#[derive(Debug, Clone, Copy)]
pub struct Cursor {
    pub x: usize,
    pub y: usize,
}

/// Viewport state: grid size, focus, the last rendered cursor screen position
/// and the last rendered display lines.
#[derive(Debug, Clone)]
pub struct ViewBufferInfo {
    pub width: usize,
    pub height: usize,
    pub focus: bool,
    pub cursor: Cursor,
    pub buffer: Vec<String>,
}

/// One editing or navigation command, as handed in by the input dispatcher.
/// `Refresh` performs no edit but still recomputes wrap and scroll state.
#[derive(Debug, Clone)]
pub enum Command {
    Insert(char),
    Newline,
    Tab,
    Backspace,
    ForwardDelete,
    Left(bool),
    Right(bool),
    Up(bool),
    Down(bool),
    SelectAll,
    Refresh,
}

/// Split a vector at a half-open index range into the part inside the range
/// and the two outer parts joined together.
pub trait Clop<T>: View<V = Seq<T>> {
    fn clop(&self, start: usize, end: usize) -> (r: (Vec<T>, Vec<T>))
        requires
            start <= end <= self@.len(),
        ensures
            r.0@ == self@.subrange(start as int, end as int),
            r.1@ == self@.subrange(0, start as int) + self@.skip(end as int),
    ;
}

impl<T: Copy> Clop<T> for Vec<T> {
    fn clop(&self, start: usize, end: usize) -> (r: (Vec<T>, Vec<T>)) {
        let mut inside: Vec<T> = Vec::new();
        let mut outside: Vec<T> = Vec::new();
        let mut i: usize = 0;
        while i < start
            invariant
                i <= start <= end <= self@.len(),
                inside@ == Seq::<T>::empty(),
                outside@ == self@.subrange(0, i as int),
            decreases start - i,
        {
            outside.push(self[i]);
            i += 1;
        }
        while i < end
            invariant
                start <= i <= end <= self@.len(),
                inside@ == self@.subrange(start as int, i as int),
                outside@ == self@.subrange(0, start as int),
            decreases end - i,
        {
            inside.push(self[i]);
            i += 1;
        }
        while i < self.len()
            invariant
                end <= i <= self@.len(),
                inside@ == self@.subrange(start as int, end as int),
                outside@ == self@.subrange(0, start as int) + self@.subrange(end as int, i as int),
            decreases self@.len() - i,
        {
            outside.push(self[i]);
            i += 1;
        }
        assert(outside@ =~= self@.subrange(0, start as int) + self@.skip(end as int));
        (inside, outside)
    }
}

} // verus!
