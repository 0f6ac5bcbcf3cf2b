//! Paths as the installer builds them: a base and the names joined onto it.

use vstd::prelude::*;
use vstd::string::StringExecFns;
use vstd::string::StrSliceExecFns;

verus! {

/// The texts of a list of strings.
pub open spec fn texts(strings: Seq<String>) -> Seq<Seq<char>> {
    Seq::new(strings.len(), |i: int| strings[i]@)
}

/// A path: the base it starts from, then one name for each level below it.
/// Its view is the sequence of these texts. The base is any path; each name
/// is meant to be one path component.
#[derive(Clone, Debug, PartialEq, Eq)]
pub struct TreePath {
    segments: Vec<String>,
}

impl View for TreePath {
    type V = Seq<Seq<char>>;

    closed spec fn view(&self) -> Seq<Seq<char>> {
        texts(self.segments@)
    }
}

/// Whether a text holds no separator of path components, neither `/` nor
/// `\`.
pub open spec fn has_no_separator(text: Seq<char>) -> bool {
    !text.contains('/') && !text.contains('\\')
}

/// Whether a text names one level of a path: it is not empty, holds no
/// separator, and is neither `.` nor `..`.
pub open spec fn is_path_component(text: Seq<char>) -> bool {
    &&& text.len() > 0
    &&& has_no_separator(text)
    &&& text != seq!['.']
    &&& text != seq!['.', '.']
}

/// Whether `path` starts with the segments of `prefix`.
pub open spec fn begins_with(path: Seq<Seq<char>>, prefix: Seq<Seq<char>>) -> bool {
    prefix.len() <= path.len() && path.subrange(0, prefix.len() as int) == prefix
}

/// Whether `prefix` is `path` or one of the directories above it: `path`
/// starts with the segments of `prefix`, and each further segment names one
/// level, so that none of them leads out of `prefix` again.
pub open spec fn is_at_or_above(prefix: Seq<Seq<char>>, path: Seq<Seq<char>>) -> bool {
    &&& begins_with(path, prefix)
    &&& forall|i: int| prefix.len() <= i < path.len() ==> is_path_component(#[trigger] path[i])
}

/// Two texts without a separator, one after the other, hold none.
pub proof fn lemma_no_separator_add(first: Seq<char>, second: Seq<char>)
    requires
        has_no_separator(first),
        has_no_separator(second),
    ensures
        has_no_separator(first + second),
{
    let both = first + second;
    assert forall|i: int| 0 <= i < both.len() implies both[i] != '/' && both[i] != '\\' by {
        if i < first.len() {
            assert(first.contains(first[i]));
        } else {
            assert(second.contains(second[i - first.len()]));
        }
    }
}

/// Whether `c` occurs in `text`.
pub fn contains_char(text: &str, c: char) -> (found: bool)
    ensures
        found == text@.contains(c),
{
    let n = text.unicode_len();
    let mut i: usize = 0;
    while i < n
        invariant
            n == text@.len(),
            i <= n,
            forall|j: int| 0 <= j < i ==> text@[j] != c,
        decreases n - i,
    {
        if text.get_char(i) == c {
            return true;
        }
        i += 1;
    }
    false
}

/// Whether `text` holds a separator of path components.
pub fn holds_separator(text: &str) -> (found: bool)
    ensures
        found == !has_no_separator(text@),
{
    contains_char(text, '/') || contains_char(text, '\\')
}

impl TreePath {
    /// The path that consists of `base` alone.
    pub fn root(base: &str) -> (path: TreePath)
        ensures
            path@ == seq![base@],
    {
        let mut segments: Vec<String> = Vec::new();
        segments.push(String::from_str(base));
        let path = TreePath { segments };
        assert(path@ =~= seq![base@]);
        path
    }

    /// The path one level below this one, under the name `segment`. The
    /// text is taken as one name, whatever it holds: it names one level
    /// where it is a path component.
    pub fn join(&self, segment: &str) -> (path: TreePath)
        ensures
            path@ == self@.push(segment@),
    {
        let mut segments: Vec<String> = Vec::new();
        let mut i: usize = 0;
        while i < self.segments.len()
            invariant
                i <= self.segments.len(),
                segments.len() == i,
                forall|j: int| 0 <= j < i ==> segments@[j]@ == self.segments@[j]@,
            decreases self.segments.len() - i,
        {
            segments.push(self.segments[i].clone());
            i += 1;
        }
        segments.push(String::from_str(segment));
        let path = TreePath { segments };
        assert(path@ =~= self@.push(segment@));
        path
    }

    /// A copy of this path.
    pub fn duplicate(&self) -> (path: TreePath)
        ensures
            path@ == self@,
    {
        let mut segments: Vec<String> = Vec::new();
        let mut i: usize = 0;
        while i < self.segments.len()
            invariant
                i <= self.segments.len(),
                segments.len() == i,
                forall|j: int| 0 <= j < i ==> segments@[j]@ == self.segments@[j]@,
            decreases self.segments.len() - i,
        {
            segments.push(self.segments[i].clone());
            i += 1;
        }
        let path = TreePath { segments };
        assert(path@ =~= self@);
        path
    }

    /// The base and the names below it, in order.
    pub fn segments(&self) -> (segments: &Vec<String>)
        ensures
            texts(segments@) == self@,
    {
        &self.segments
    }
}

} // verus!
