//! Paths: text that separators divide into components.

use crate::path::components::Components;
use crate::path::owned::OwnedPath;
use vstd::prelude::*;

pub mod components;
pub mod owned;

verus! {

/// The character that separates the components of a path.
pub const SEPARATOR: char = '/';

/// Whether `c` separates the components of a path.
pub fn is_separator_char(c: char) -> (b: bool)
    ensures
        b == (c == SEPARATOR),
{
    c == SEPARATOR
}

/// The pieces of `text` between its separators: one more than it has separators, and
/// empty where two separators meet or one stands at an end.
pub open spec fn fragments(text: Seq<char>) -> Seq<Seq<char>>
    decreases text.len(),
{
    if text.len() == 0 {
        seq![Seq::empty()]
    } else {
        let rest = fragments(text.skip(1));
        if text[0] == SEPARATOR {
            seq![Seq::empty()] + rest
        } else {
            seq![seq![text[0]] + rest[0]] + rest.skip(1)
        }
    }
}

/// `text` without the separators at its end.
pub open spec fn trimmed(text: Seq<char>) -> Seq<char>
    decreases text.len(),
{
    if text.len() > 0 && text.last() == SEPARATOR {
        trimmed(text.drop_last())
    } else {
        text
    }
}

/// The place of the last separator of `text`.
pub open spec fn last_separator(text: Seq<char>) -> Option<int>
    decreases text.len(),
{
    if text.len() == 0 {
        None
    } else if text.last() == SEPARATOR {
        Some(text.len() - 1)
    } else {
        last_separator(text.drop_last())
    }
}

/// What is in front of the last component of `text`: the text before the separator in
/// front of that component. There is none where that text would be empty.
pub open spec fn parent_of(text: Seq<char>) -> Option<Seq<char>> {
    match last_separator(trimmed(text)) {
        Some(i) => if i > 0 {
            Some(text.take(i))
        } else {
            None
        },
        None => None,
    }
}

/// There is at least one fragment.
pub proof fn lemma_fragments_first(text: Seq<char>)
    ensures
        fragments(text).len() >= 1,
        !fragments(text)[0].contains(SEPARATOR),
    decreases text.len(),
{
    if text.len() > 0 {
        lemma_fragments_first(text.skip(1));
        let rest = fragments(text.skip(1));
        if text[0] != SEPARATOR {
            let head = seq![text[0]] + rest[0];
            assert forall|i: int| 0 <= i < head.len() implies head[i] != SEPARATOR by {
                if i > 0 {
                    assert(rest[0].contains(head[i]));
                }
            }
        }
    }
}

/// Text without a separator is one fragment.
pub proof fn lemma_fragments_of_piece(piece: Seq<char>)
    requires
        !piece.contains(SEPARATOR),
    ensures
        fragments(piece) == seq![piece],
    decreases piece.len(),
{
    if piece.len() > 0 {
        let rest = piece.skip(1);
        assert forall|i: int| 0 <= i < rest.len() implies rest[i] != SEPARATOR by {
            assert(piece.contains(piece[i + 1]));
        }
        lemma_fragments_of_piece(rest);
        assert(piece.contains(piece[0]));
        assert(seq![piece[0]] + rest =~= piece);
        assert(fragments(piece) =~= seq![piece]);
    } else {
        assert(piece =~= Seq::empty());
    }
}

/// The fragments of text with a separator: the piece in front of the first separator,
/// and the fragments of what is behind it.
pub proof fn lemma_fragments_split(before: Seq<char>, after: Seq<char>)
    requires
        !before.contains(SEPARATOR),
    ensures
        fragments(before + seq![SEPARATOR] + after) == seq![before] + fragments(after),
    decreases before.len(),
{
    let text = before + seq![SEPARATOR] + after;
    if before.len() == 0 {
        assert(text.skip(1) =~= after);
        assert(before =~= Seq::empty());
    } else {
        let shorter = before.skip(1);
        assert forall|i: int| 0 <= i < shorter.len() implies shorter[i] != SEPARATOR by {
            assert(before.contains(before[i + 1]));
        }
        lemma_fragments_split(shorter, after);
        assert(text.skip(1) =~= shorter + seq![SEPARATOR] + after);
        assert(before.contains(before[0]));
        assert(text[0] == before[0]);
        assert(seq![before[0]] + shorter =~= before);
        let rest = fragments(text.skip(1));
        assert(rest.skip(1) =~= fragments(after));
        assert(fragments(text) =~= seq![before] + fragments(after));
    }
}

/// What `trimmed` gives is the one front part of the text that does not end in a
/// separator and has only separators behind it.
pub proof fn lemma_trimmed_is(text: Seq<char>, front: Seq<char>)
    requires
        front.len() <= text.len(),
        front == text.take(front.len() as int),
        forall|i: int| front.len() <= i < text.len() ==> text[i] == SEPARATOR,
        front.len() > 0 ==> front.last() != SEPARATOR,
    ensures
        trimmed(text) == front,
    decreases text.len(),
{
    if text.len() > front.len() {
        let shorter = text.drop_last();
        assert(front =~= shorter.take(front.len() as int));
        lemma_trimmed_is(shorter, front);
    } else {
        assert(front =~= text);
    }
}

/// The last separator of text is where it splits into a front part, the separator, and
/// a back part without separators.
pub proof fn lemma_last_separator_is(text: Seq<char>, front: Seq<char>, back: Seq<char>)
    requires
        text == front + seq![SEPARATOR] + back,
        !back.contains(SEPARATOR),
    ensures
        last_separator(text) == Some(front.len() as int),
    decreases back.len(),
{
    if back.len() > 0 {
        let shorter = back.drop_last();
        assert(back.contains(back.last()));
        assert forall|i: int| 0 <= i < shorter.len() implies shorter[i] != SEPARATOR by {
            assert(back.contains(back[i]));
        }
        assert(text.drop_last() =~= front + seq![SEPARATOR] + shorter);
        lemma_last_separator_is(text.drop_last(), front, shorter);
    }
}

/// Text without a separator has no last separator.
pub proof fn lemma_no_last_separator(text: Seq<char>)
    requires
        !text.contains(SEPARATOR),
    ensures
        last_separator(text) is None,
    decreases text.len(),
{
    if text.len() > 0 {
        let shorter = text.drop_last();
        assert(text.contains(text.last()));
        assert forall|i: int| 0 <= i < shorter.len() implies shorter[i] != SEPARATOR by {
            assert(text.contains(text[i]));
        }
        lemma_no_last_separator(shorter);
    }
}

/// `str::split_once` of std, with a character as the delimiter: the parts of `text` in
/// front of the first `delimiter` and behind it, and `None` where `text` holds none.
#[verifier::external_body]
pub(crate) fn split_once<'a>(text: &'a str, delimiter: char) -> (parts: Option<(&'a str, &'a str)>)
    ensures
        match parts {
            Some((before, after)) => text@ == before@ + seq![delimiter] + after@
                && !before@.contains(delimiter),
            None => !text@.contains(delimiter),
        },
{
    text.split_once(delimiter)
}

/// `str::rsplit_once` of std, with a character as the delimiter: the parts of `text` in
/// front of the last `delimiter` and behind it, and `None` where `text` holds none.
#[verifier::external_body]
pub(crate) fn rsplit_once<'a>(text: &'a str, delimiter: char) -> (parts: Option<(&'a str, &'a str)>)
    ensures
        match parts {
            Some((before, after)) => text@ == before@ + seq![delimiter] + after@
                && !after@.contains(delimiter),
            None => !text@.contains(delimiter),
        },
{
    text.rsplit_once(delimiter)
}

/// `str::trim_end_matches` of std, with a character as the pattern: `text` without the
/// characters `pattern` at its end.
#[verifier::external_body]
pub(crate) fn trim_end_matches<'a>(text: &'a str, pattern: char) -> (front: &'a str)
    ensures
        front@.len() <= text@.len(),
        front@ == text@.take(front@.len() as int),
        forall|i: int| front@.len() <= i < text@.len() ==> text@[i] == pattern,
        front@.len() > 0 ==> front@.last() != pattern,
{
    text.trim_end_matches(pattern)
}

/// `str::ends_with` of std, with a character as the pattern: whether the last character
/// of `text` is `pattern`.
#[verifier::external_body]
pub(crate) fn ends_with(text: &str, pattern: char) -> (b: bool)
    ensures
        b == (text@.len() > 0 && text@.last() == pattern),
{
    text.ends_with(pattern)
}

/// A path: borrowed text that separators divide into components.
#[derive(Debug, Clone, Copy, Eq, PartialEq)]
pub struct Path<'a> {
    inner: &'a str,
}

impl<'a> View for Path<'a> {
    type V = Seq<char>;

    /// The text of the path.
    closed spec fn view(&self) -> Seq<char> {
        self.inner@
    }
}

impl<'a> Path<'a> {
    /// The path that `s` spells.
    pub fn new(s: &'a str) -> (path: Self)
        ensures
            path@ == s@,
    {
        Path { inner: s }
    }

    /// The text of the path.
    pub fn as_str(&self) -> (s: &'a str)
        ensures
            s@ == self@,
    {
        self.inner
    }

    /// The text of the path.
    pub fn to_string(&self) -> (s: String)
        ensures
            s@ == self@,
    {
        self.inner.to_owned()
    }

    /// Whether the path is empty.
    pub fn is_empty(&self) -> (b: bool)
        ensures
            b == (self@.len() == 0),
    {
        self.inner.is_empty()
    }

    /// The components of the path, from the first on.
    pub fn components(&self) -> (components: Components<'a>)
        ensures
            components.remaining() == crate::path::components::components_of(self@),
    {
        Components::new(*self)
    }

    /// The path without its last component and the separators around it. There is none
    /// where nothing would be left: for a path of one component, and for the root.
    pub fn parent(&self) -> (parent: Option<Path<'a>>)
        ensures
            match parent {
                Some(path) => parent_of(self@) == Some(path@),
                None => parent_of(self@) is None,
            },
    {
        let front = trim_end_matches(self.inner, SEPARATOR);
        proof {
            lemma_trimmed_is(self@, front@);
        }
        match rsplit_once(front, SEPARATOR) {
            Some((before, after)) => {
                proof {
                    lemma_last_separator_is(front@, before@, after@);
                    assert(self@.take(before@.len() as int) =~= before@);
                }
                if before.is_empty() {
                    None
                } else {
                    Some(Path { inner: before })
                }
            },
            None => {
                proof {
                    lemma_no_last_separator(front@);
                }
                None
            },
        }
    }

    /// The path as one that owns its text: what pushing this path onto an empty path
    /// gives.
    pub fn to_owned(&self) -> (owned: OwnedPath)
        ensures
            owned@ == crate::path::owned::pushed_all(
                Seq::empty(),
                crate::path::components::components_of(self@),
            ),
    {
        let mut owned = OwnedPath::new();
        owned.push(self.inner);
        owned
    }
}

} // verus!
