//! Edit scripts: the ordered operations that turn the old text into the new
//! one, as the `similar` crate computes them over lines and over characters.

use crate::lines::{Line, LineView, Side, SideView};
use crate::parts::Kind;
use crate::text::collect_chars;
use vstd::pervasive::unreached;
use vstd::prelude::*;
use vstd::string::{StrSliceExecFns, StringExecFns};

verus! {

/// One operation of an edit script: a line or a character that both texts
/// have, that only the old text has, or that only the new text has. An index
/// counts the lines or characters of its text from zero.
#[derive(Clone, Debug, PartialEq, Eq)]
pub struct Change {
    pub tag: Kind,
    pub old_index: Option<usize>,
    pub new_index: Option<usize>,
    pub value: String,
}

/// What an operation is.
pub struct ChangeView {
    pub tag: Kind,
    pub old_index: Option<usize>,
    pub new_index: Option<usize>,
    pub value: Seq<char>,
}

impl View for Change {
    type V = ChangeView;

    open spec fn view(&self) -> ChangeView {
        ChangeView {
            tag: self.tag,
            old_index: self.old_index,
            new_index: self.new_index,
            value: self.value@,
        }
    }
}

impl DeepView for Change {
    type V = ChangeView;

    open spec fn deep_view(&self) -> ChangeView {
        self@
    }
}

impl ChangeView {
    /// The operation touches at least one side, and its indices leave room
    /// for a line number, which is one more.
    pub open spec fn sided(self) -> bool {
        &&& self.old_index is Some || self.new_index is Some
        &&& self.old_index matches Some(i) ==> i < usize::MAX
        &&& self.new_index matches Some(i) ==> i < usize::MAX
    }

    /// The operation carries an index exactly on the sides that its tag
    /// speaks of: both for `Equal`, the old one for `Delete`, the new one for
    /// `Insert`.
    pub open spec fn well_formed(self) -> bool {
        &&& self.sided()
        &&& self.tag == Kind::Equal ==> self.old_index is Some && self.new_index is Some
        &&& self.tag == Kind::Delete ==> self.old_index is Some && self.new_index is None
        &&& self.tag == Kind::Insert ==> self.old_index is None && self.new_index is Some
    }
}

/// Every operation of the script is well formed.
pub open spec fn script_well_formed(script: Seq<ChangeView>) -> bool {
    forall|i: int| 0 <= i < script.len() ==> (#[trigger] script[i]).well_formed()
}

/// The edit script that `similar` computes over the characters of two texts.
pub uninterp spec fn char_edit_script(a: Seq<char>, b: Seq<char>) -> Seq<ChangeView>;

/// The edit script that `similar` computes over the lines of two texts, cut
/// down to the changed lines and `radius` unchanged lines around them.
pub uninterp spec fn line_edit_script(a: Seq<char>, b: Seq<char>, radius: usize) -> Seq<
    ChangeView,
>;

/// The most characters that two texts may hold together for the line-level
/// script: `similar` numbers the distinct lines in 32 bits.
pub const MAX_INPUT_CHARS: usize = 0xffff_ffff;

/// The widest context that `similar` groups without overflow: it doubles the
/// radius.
pub const MAX_CONTEXT_RADIUS: usize = usize::MAX / 2;

/// `TextDiff::from_chars` followed by `iter_all_changes`: the operations in
/// order, each with the tag, the indices and the character that `similar`
/// reports. The script depends on the two texts alone. `similar` gives an
/// `Equal` operation both indices, a `Delete` the old one and an `Insert`
/// the new one; an index is a position in a sequence that is held in
/// memory, and so below the largest machine word.
#[verifier::external_body]
pub(crate) fn char_changes(a: &str, b: &str) -> (changes: Vec<Change>)
    ensures
        changes.deep_view() == char_edit_script(a@, b@),
        script_well_formed(changes.deep_view()),
{
    let mut changes = Vec::new();
    for c in similar::TextDiff::from_chars(a, b).iter_all_changes() {
        let tag = match c.tag() {
            similar::ChangeTag::Equal => Kind::Equal,
            similar::ChangeTag::Delete => Kind::Delete,
            similar::ChangeTag::Insert => Kind::Insert,
        };
        changes.push(Change { tag, old_index: c.old_index(), new_index: c.new_index(), value: c.value().to_string() });
    }
    changes
}

/// `TextDiff::from_lines`, its `unified_diff` with the given context radius,
/// and the changes of each hunk in order, each with the tag, the indices and
/// the line, still with its line break, that `similar` reports. The script
/// depends on the two texts and the radius alone. `similar` gives an `Equal`
/// operation both indices, a `Delete` the old one and an `Insert` the new
/// one; an index is a position in a sequence that is held in memory, and so
/// below the largest machine word. The texts are kept so small that the
/// distinct lines can be numbered in 32 bits, and the radius so small that
/// it can be doubled.
#[verifier::external_body]
pub(crate) fn line_changes(a: &str, b: &str, radius: usize) -> (changes: Vec<Change>)
    requires
        a@.len() + b@.len() <= MAX_INPUT_CHARS,
        radius <= MAX_CONTEXT_RADIUS,
    ensures
        changes.deep_view() == line_edit_script(a@, b@, radius),
        script_well_formed(changes.deep_view()),
{
    let diff = similar::TextDiff::from_lines(a, b);
    let mut unified = diff.unified_diff();
    unified.context_radius(radius);
    let mut changes = Vec::new();
    for hunk in unified.iter_hunks() {
        for c in hunk.iter_changes() {
            let tag = match c.tag() {
                similar::ChangeTag::Equal => Kind::Equal,
                similar::ChangeTag::Delete => Kind::Delete,
                similar::ChangeTag::Insert => Kind::Insert,
            };
            changes.push(Change { tag, old_index: c.old_index(), new_index: c.new_index(), value: c.value().to_string() });
        }
    }
    changes
}

/// A line without the line feeds at its end.
pub open spec fn trim_line_end(s: Seq<char>) -> Seq<char>
    decreases s.len(),
{
    if s.len() > 0 && s.last() == '\n' {
        trim_line_end(s.drop_last())
    } else {
        s
    }
}

/// The side or sides that an operation touches, by its indices: the line
/// number is the index and one, the text is the operation's without the line
/// feeds at its end.
pub open spec fn side_of_change(change: ChangeView) -> SideView {
    let value = trim_line_end(change.value);
    match (change.old_index, change.new_index) {
        (Some(l), Some(r)) => SideView::Both(
            LineView { lineno: (l + 1) as nat, value },
            LineView { lineno: (r + 1) as nat, value },
        ),
        (Some(l), None) => SideView::Left(LineView { lineno: (l + 1) as nat, value }),
        (None, Some(r)) => SideView::Right(LineView { lineno: (r + 1) as nat, value }),
        (None, None) => arbitrary(),
    }
}

/// Cutting the line feeds off the end of a text leaves its first `end`
/// characters, where only line feeds follow them and the one before them is
/// none.
pub proof fn lemma_trim_line_end_take(s: Seq<char>, end: int)
    requires
        0 <= end <= s.len(),
        forall|i: int| end <= i < s.len() ==> s[i] == '\n',
        end > 0 ==> s[end - 1] != '\n',
    ensures
        trim_line_end(s) == s.take(end),
    decreases s.len() - end,
{
    if end < s.len() {
        lemma_trim_line_end_take(s.drop_last(), end);
    }
}

/// A text without the line feeds at its end.
pub fn trim_newlines(value: &str) -> (line: &str)
    ensures
        line@ == trim_line_end(value@),
{
    let chars = collect_chars(value);
    let mut end: usize = chars.len();
    while end > 0 && chars[end - 1] == '\n'
        invariant
            chars@ == value@,
            0 <= end <= chars.len(),
            forall|i: int| end <= i < chars.len() ==> value@[i] == '\n',
        decreases end,
    {
        end = end - 1;
    }
    proof {
        lemma_trim_line_end_take(value@, end as int);
    }
    value.substring_char(0, end)
}

/// The side or sides that an operation of an edit script touches, each with
/// the line that the operation carries there.
pub fn side(change: &Change) -> (side: Side)
    requires
        change@.sided(),
    ensures
        side@ == side_of_change(change@),
{
    let value = String::from_str(trim_newlines(change.value.as_str()));
    match (change.old_index, change.new_index) {
        (Some(index_l), Some(index_r)) => Side::Both(
            Line { lineno: index_l + 1, value: value.clone() },
            Line { lineno: index_r + 1, value },
        ),
        (Some(index_l), None) => Side::Left(Line { lineno: index_l + 1, value }),
        (None, Some(index_r)) => Side::Right(Line { lineno: index_r + 1, value }),
        (None, None) => unreached(),
    }
}

} // verus!
