//! The components of a path.

use crate::path::{
    fragments, lemma_fragments_of_piece, lemma_fragments_split, split_once, Path, SEPARATOR,
};
use vstd::prelude::*;
use vstd::string::StrSliceExecFns;

verus! {

/// Paths are made of single components. If a path is absolute,
/// the first component is the [`Component::RootDir`]. Every subsequent
/// component that is not a `.` or a `..` is a [`Component::Normal`].
/// Empty segments in a path will be ignored.
///
/// `/foo/./bar` has the components `RootDir`, `Normal("foo")`, `CurrentDir` and
/// `Normal("bar")`. `foo///bar` has the components `Normal("foo")` and `Normal("bar")`.
/// `//foo/bar` has the components `RootDir`, `Normal("foo")` and `Normal("bar")`.
#[derive(Debug, Eq, PartialEq)]
pub enum Component<'a> {
    /// The root dir component. If it is encountered, it is always
    /// the first component of a path, and the path is absolute.
    /// If this is not encountered, then the path is not absolute.
    RootDir,
    /// The current directory, produced if the path contains a `.`
    /// as a part, such as in `/foo/./bar`.
    CurrentDir,
    /// The parent directory, produced if the path contains a `..`
    /// as a part, such as in `/foo/../bar`.
    ParentDir,
    /// A normal component, which is a non-empty string. Empty
    /// parts in the path are ignored, meaning that a path like
    /// `foo//bar` and `foo///bar` will have two components,
    /// `foo` and `bar`.
    Normal(&'a str),
}

/// A component, with the text of a normal one as characters.
pub enum ComponentView {
    /// The root dir component.
    RootDir,
    /// The current directory.
    CurrentDir,
    /// The parent directory.
    ParentDir,
    /// A normal component.
    Normal(Seq<char>),
}

impl<'a> View for Component<'a> {
    type V = ComponentView;

    open spec fn view(&self) -> ComponentView {
        match self {
            Component::RootDir => ComponentView::RootDir,
            Component::CurrentDir => ComponentView::CurrentDir,
            Component::ParentDir => ComponentView::ParentDir,
            Component::Normal(text) => ComponentView::Normal(text@),
        }
    }
}

/// The component that a fragment which is not empty stands for.
pub open spec fn named(fragment: Seq<char>) -> ComponentView {
    if fragment == seq!['.'] {
        ComponentView::CurrentDir
    } else if fragment == seq!['.', '.'] {
        ComponentView::ParentDir
    } else {
        ComponentView::Normal(fragment)
    }
}

/// The components that fragments stand for: one for each fragment that is not empty.
pub open spec fn named_all(fragments: Seq<Seq<char>>) -> Seq<ComponentView>
    decreases fragments.len(),
{
    if fragments.len() == 0 {
        Seq::empty()
    } else if fragments[0].len() == 0 {
        named_all(fragments.skip(1))
    } else {
        seq![named(fragments[0])] + named_all(fragments.skip(1))
    }
}

/// Whether a path with this text is absolute: the text starts with a separator.
pub open spec fn is_absolute(text: Seq<char>) -> bool {
    text.len() > 0 && text[0] == SEPARATOR
}

/// The components of a path with this text.
pub open spec fn components_of(text: Seq<char>) -> Seq<ComponentView> {
    if is_absolute(text) {
        seq![ComponentView::RootDir] + named_all(fragments(text))
    } else {
        named_all(fragments(text))
    }
}

/// The texts of fragments.
pub open spec fn texts(fragments: Seq<&str>) -> Seq<Seq<char>> {
    fragments.map_values(|fragment: &str| fragment@)
}

/// The component that `item` stands for.
fn kind_of<'a>(item: &'a str) -> (component: Component<'a>)
    requires
        item@.len() > 0,
    ensures
        component@ == named(item@),
{
    let n: usize = item.unicode_len();
    if n == 1 && item.get_char(0) == '.' {
        assert(item@ =~= seq!['.']);
        Component::CurrentDir
    } else if n == 2 && item.get_char(0) == '.' && item.get_char(1) == '.' {
        assert(item@ =~= seq!['.', '.']);
        Component::ParentDir
    } else {
        assert(item@ != seq!['.']) by {
            if item@ == seq!['.'] {
                assert(seq!['.'].len() == 1);
                assert(seq!['.'][0] == '.');
            }
        }
        assert(item@ != seq!['.', '.']) by {
            if item@ == seq!['.', '.'] {
                assert(seq!['.', '.'].len() == 2);
                assert(seq!['.', '.'][0] == '.');
                assert(seq!['.', '.'][1] == '.');
            }
        }
        Component::Normal(item)
    }
}

/// The components of a path, which are taken from the front one by one.
pub struct Components<'a> {
    fragments: Vec<&'a str>,
    seen_root: bool,
    absolute: bool,
    index: usize,
}

impl<'a> Components<'a> {
    /// The components that are yet to come.
    pub closed spec fn remaining(&self) -> Seq<ComponentView> {
        if self.absolute && !self.seen_root {
            seq![ComponentView::RootDir] + named_all(texts(self.fragments@).skip(self.index as int))
        } else {
            named_all(texts(self.fragments@).skip(self.index as int))
        }
    }

    #[verifier::type_invariant]
    spec fn within(self) -> bool {
        self.index <= self.fragments@.len()
    }

    /// The components of `path`.
    pub fn new(path: Path<'a>) -> (components: Self)
        ensures
            components.remaining() == components_of(path@),
    {
        let text = path.as_str();
        let absolute = !text.is_empty() && text.get_char(0) == SEPARATOR;
        let mut pieces: Vec<&'a str> = Vec::new();
        let mut rest = text;
        loop
            invariant_except_break
                texts(pieces@) + fragments(rest@) == fragments(text@),
            ensures
                texts(pieces@) == fragments(text@),
            decreases rest@.len(),
        {
            let ghost collected = texts(pieces@);
            match split_once(rest, SEPARATOR) {
                Some((before, after)) => {
                    proof {
                        lemma_fragments_split(before@, after@);
                    }
                    pieces.push(before);
                    assert(texts(pieces@) =~= collected + seq![before@]);
                    assert(texts(pieces@) + fragments(after@) =~= collected + (
                    seq![before@] + fragments(after@)));
                    rest = after;
                },
                None => {
                    proof {
                        lemma_fragments_of_piece(rest@);
                    }
                    pieces.push(rest);
                    assert(texts(pieces@) =~= collected + seq![rest@]);
                    break ;
                },
            }
        }
        let components = Components { fragments: pieces, seen_root: false, absolute, index: 0 };
        assert(texts(components.fragments@).skip(0) =~= texts(components.fragments@));
        components
    }

    /// Takes the next component off the front.
    pub fn next(&mut self) -> (component: Option<Component<'a>>)
        ensures
            match component {
                Some(c) => old(self).remaining().len() > 0 && c@ == old(self).remaining()[0]
                    && final(self).remaining() == old(self).remaining().skip(1),
                None => old(self).remaining().len() == 0 && final(self).remaining() == old(
                    self,
                ).remaining(),
            },
    {
        proof {
            use_type_invariant(&*self);
        }
        if self.absolute && !self.seen_root {
            self.seen_root = true;
            assert(self.remaining() =~= old(self).remaining().skip(1));
            return Some(Component::RootDir);
        }
        while self.index < self.fragments.len()
            invariant
                self.index <= self.fragments@.len(),
                self.fragments == old(self).fragments,
                self.absolute == old(self).absolute,
                self.seen_root == old(self).seen_root,
                !(self.absolute && !self.seen_root),
                self.remaining() == old(self).remaining(),
            decreases self.fragments@.len() - self.index,
        {
            // hello///world should be equivalent to hello/world, so we skip empty fragments
            let item = self.fragments[self.index];
            let ghost left = texts(self.fragments@).skip(self.index as int);
            assert(left[0] == item@);
            assert(left.skip(1) =~= texts(self.fragments@).skip(self.index + 1));
            self.index = self.index + 1;
            if !item.is_empty() {
                let component = kind_of(item);
                assert(self.remaining() =~= old(self).remaining().skip(1));
                return Some(component);
            }
        }
        assert(texts(self.fragments@).skip(self.index as int) =~= Seq::<Seq<char>>::empty());
        None
    }
}

} // verus!
