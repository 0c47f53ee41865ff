//! Lemmas connecting executable documents (`Vec<Vec<char>>`) with their
//! mathematical views (`Seq<Seq<char>>`).
use vstd::prelude::*;

verus! {

/// A `Vec<char>` seen as a deep sequence is just its view.
pub broadcast proof fn lemma_line_deep_view(l: Vec<char>)
    ensures
        #[trigger] l.deep_view() == l@,
{
    assert(l.deep_view() =~= l@);
}

/// A document's deep view has one sequence per stored line.
pub broadcast proof fn lemma_lines_view_len(v: Vec<Vec<char>>)
    ensures
        #[trigger] v.deep_view().len() == v@.len(),
{
}

/// Each line of a document's deep view is that line's view.
pub broadcast proof fn lemma_lines_view_index(v: Vec<Vec<char>>, i: int)
    requires
        0 <= i < v@.len(),
    ensures
        #[trigger] v.deep_view()[i] == v@[i]@,
{
    lemma_line_deep_view(v@[i]);
}

/// A document whose stored lines match a sequence elementwise has that
/// sequence as its deep view.
pub proof fn lemma_lines_view_eq(a: &Vec<Vec<char>>, s: Seq<Seq<char>>)
    requires
        a@.len() == s.len(),
        forall|j: int| 0 <= j < s.len() ==> #[trigger] a@[j]@ == s[j],
    ensures
        a.deep_view() == s,
{
    assert forall|j: int| 0 <= j < s.len() implies a.deep_view()[j] == s[j] by {
        lemma_lines_view_index(*a, j);
    }
    lemma_lines_view_len(*a);
    assert(a.deep_view() =~= s);
}

/// A display buffer's deep view has one sequence per stored string.
pub broadcast proof fn lemma_strs_view_len(v: Vec<String>)
    ensures
        #[trigger] v.deep_view().len() == v@.len(),
{
}

/// Each entry of a display buffer's deep view is that string's view.
pub broadcast proof fn lemma_strs_view_index(v: Vec<String>, i: int)
    requires
        0 <= i < v@.len(),
    ensures
        #[trigger] v.deep_view()[i] == v@[i]@,
{
}

/// A display buffer whose strings match a sequence elementwise has that
/// sequence as its deep view.
pub proof fn lemma_strs_view_eq(a: &Vec<String>, s: Seq<Seq<char>>)
    requires
        a@.len() == s.len(),
        forall|j: int| 0 <= j < s.len() ==> #[trigger] a@[j]@ == s[j],
    ensures
        a.deep_view() == s,
{
    assert forall|j: int| 0 <= j < s.len() implies a.deep_view()[j] == s[j] by {
        lemma_strs_view_index(*a, j);
    }
    lemma_strs_view_len(*a);
    assert(a.deep_view() =~= s);
}

/// Replacing one stored line replaces one line of the deep view.
pub proof fn lemma_update_line(t1: Vec<Vec<char>>, t2: &Vec<Vec<char>>, y: int, nl: Seq<char>)
    requires
        0 <= y < t1@.len(),
        t2@.len() == t1@.len(),
        t2@[y]@ == nl,
        forall|j: int| 0 <= j < t1@.len() && j != y ==> t2@[j] == t1@[j],
    ensures
        t2.deep_view() == t1.deep_view().update(y, nl),
{
    assert forall|j: int| 0 <= j < t1@.len() implies #[trigger] t2@[j]@ == t1.deep_view().update(
        y,
        nl,
    )[j] by {
        if j != y {
            lemma_lines_view_index(t1, j);
        }
    }
    lemma_lines_view_len(t1);
    lemma_lines_view_eq(t2, t1.deep_view().update(y, nl));
}

/// Removing one stored line removes one line of the deep view.
pub proof fn lemma_remove_line(t1: Vec<Vec<char>>, t2: &Vec<Vec<char>>, y: int)
    requires
        0 <= y < t1@.len(),
        t2@ == t1@.remove(y),
    ensures
        t2.deep_view() == t1.deep_view().remove(y),
{
    assert forall|j: int| 0 <= j < t2@.len() implies #[trigger] t2@[j]@ == t1.deep_view().remove(
        y,
    )[j] by {
        if j < y {
            lemma_lines_view_index(t1, j);
        } else {
            lemma_lines_view_index(t1, j + 1);
        }
    }
    lemma_lines_view_len(t1);
    lemma_lines_view_eq(t2, t1.deep_view().remove(y));
}

/// Inserting one stored line inserts one line of the deep view.
pub proof fn lemma_insert_line(t1: Vec<Vec<char>>, t2: &Vec<Vec<char>>, y: int, nl: Seq<char>)
    requires
        0 <= y <= t1@.len(),
        t2@.len() == t1@.len() + 1,
        t2@[y]@ == nl,
        forall|j: int| 0 <= j < y ==> t2@[j] == t1@[j],
        forall|j: int| y < j < t2@.len() ==> t2@[j] == t1@[j - 1],
    ensures
        t2.deep_view() == t1.deep_view().insert(y, nl),
{
    assert forall|j: int| 0 <= j < t2@.len() implies #[trigger] t2@[j]@ == t1.deep_view().insert(
        y,
        nl,
    )[j] by {
        if j < y {
            lemma_lines_view_index(t1, j);
        } else if j > y {
            lemma_lines_view_index(t1, j - 1);
        }
    }
    lemma_lines_view_len(t1);
    lemma_lines_view_eq(t2, t1.deep_view().insert(y, nl));
}

} // verus!
