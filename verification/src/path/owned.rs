//! Paths that own their text.

use crate::path::components::{components_of, Component, ComponentView, Components};
use crate::path::{
    ends_with, last_separator, lemma_last_separator_is, lemma_no_last_separator, lemma_trimmed_is,
    rsplit_once, trim_end_matches, trimmed, Path, SEPARATOR,
};
use vstd::prelude::*;
use vstd::std_specs::convert::FromSpecImpl;
use vstd::string::{StrSliceExecFns, StringExecFns, StringSliceAdditionalSpecFns};

verus! {

/// `text`, and a separator behind it where it is not empty and does not end in one.
pub open spec fn separated(text: Seq<char>) -> Seq<char> {
    if text.len() > 0 && text.last() != SEPARATOR {
        text.push(SEPARATOR)
    } else {
        text
    }
}

/// What pushing one component onto a path with the text `text` gives. The text first
/// gets its separator. Then a normal component is appended; the current directory changes
/// nothing; the parent directory cuts the text in front of its last separator, not
/// counting separators at its end; and the root directory makes an empty text the root.
pub open spec fn pushed(text: Seq<char>, component: ComponentView) -> Seq<char> {
    let text = separated(text);
    match component {
        ComponentView::CurrentDir => text,
        ComponentView::ParentDir => match last_separator(trimmed(text)) {
            Some(i) => text.take(i),
            None => text,
        },
        ComponentView::Normal(name) => text + name,
        ComponentView::RootDir => if text.len() == 0 {
            seq![SEPARATOR]
        } else {
            text
        },
    }
}

/// What pushing components, one after the other, onto a path with the text `text` gives.
pub open spec fn pushed_all(text: Seq<char>, components: Seq<ComponentView>) -> Seq<char>
    decreases components.len(),
{
    if components.len() == 0 {
        text
    } else {
        pushed_all(pushed(text, components[0]), components.skip(1))
    }
}

/// `names` without the names `.` at its end.
pub open spec fn without_dots(names: Seq<Seq<char>>) -> Seq<Seq<char>>
    decreases names.len(),
{
    if names.len() > 0 && names.last() == seq!['.'] {
        without_dots(names.drop_last())
    } else {
        names
    }
}

/// The names that a component makes of the names before it. A normal component adds
/// its name, as a path of its own. The parent directory takes the last name away, and
/// any names `.` behind that. The other components change nothing.
pub open spec fn resolved(names: Seq<Seq<char>>, component: ComponentView) -> Seq<Seq<char>> {
    match component {
        ComponentView::ParentDir => {
            let rest = without_dots(names);
            if rest.len() > 0 {
                rest.drop_last()
            } else {
                rest
            }
        },
        ComponentView::CurrentDir => names,
        ComponentView::RootDir => names,
        ComponentView::Normal(name) => names.push(pushed_all(Seq::empty(), components_of(name))),
    }
}

/// The names that components, one after the other, make of the names before them.
pub open spec fn resolved_all(names: Seq<Seq<char>>, components: Seq<ComponentView>) -> Seq<
    Seq<char>,
>
    decreases components.len(),
{
    if components.len() == 0 {
        names
    } else {
        resolved_all(resolved(names, components[0]), components.skip(1))
    }
}

/// The texts of paths.
pub open spec fn texts_of(paths: Seq<OwnedPath>) -> Seq<Seq<char>> {
    paths.map_values(|path: OwnedPath| path@)
}

/// OwnedPath is the equivalent of PathBuf in the normal std library.
/// It is a path whose inner representation is a [`String`].
/// The path can be modified by adding other paths using the [`OwnedPath::push`] method.
#[derive(Ord, PartialOrd, Eq, PartialEq, Clone, Debug)]
pub struct OwnedPath {
    inner: String,
}

impl View for OwnedPath {
    type V = Seq<char>;

    /// The text of the path.
    closed spec fn view(&self) -> Seq<char> {
        self.inner@
    }
}

impl<'a> From<&'a str> for OwnedPath {
    /// The path that pushing `v` onto an empty path gives.
    fn from(v: &'a str) -> (path: Self)
        ensures
            path@ == pushed_all(Seq::empty(), components_of(v@)),
    {
        let mut s = Self::new();
        s.push(v);
        s
    }
}

/// What `from` gives is stated by `from` itself, over the text of the path: a contract
/// can speak of the text of a path, but cannot write a path down.
impl<'a> FromSpecImpl<&'a str> for OwnedPath {
    open spec fn obeys_from_spec() -> bool {
        false
    }

    open spec fn from_spec(v: &'a str) -> Self {
        arbitrary()
    }
}

impl Default for OwnedPath {
    fn default() -> (path: Self)
        ensures
            path@ == Seq::<char>::empty(),
    {
        Self::new()
    }
}

impl OwnedPath {
    /// The length of the text in bytes, as UTF-8.
    pub open spec fn byte_len(&self) -> nat {
        vstd::utf8::encode_utf8(self@).len()
    }

    /// Creates a new, empty owned path.
    pub fn new() -> (path: Self)
        ensures
            path@ == Seq::<char>::empty(),
    {
        Self { inner: String::new() }
    }

    /// Appends another path to the end of this path, component by component.
    /// If the other path is absolute, but this path is not empty,
    /// then the path will be appended as a relative path: pushing `/bar` onto `foo`
    /// gives `foo/bar`.
    ///
    /// Pushing a parent directory will remove the last component of the path:
    /// pushing `..` onto `foo/bar` gives `foo`.
    ///
    /// Pushing a root dir changes nothing if the path is not empty, otherwise it will
    /// make this path absolute.
    ///
    /// Pushing a current dir leaves the components of the path as they are.
    pub fn push(&mut self, segment: &str)
        ensures
            final(self)@ == pushed_all(old(self)@, components_of(segment@)),
    {
        let mut components = Components::new(Path::new(segment));
        loop
            invariant_except_break
                pushed_all(self@, components.remaining()) == pushed_all(
                    old(self)@,
                    components_of(segment@),
                ),
            ensures
                self@ == pushed_all(old(self)@, components_of(segment@)),
            decreases components.remaining().len(),
        {
            match components.next() {
                Some(component) => {
                    self.push_component(component);
                },
                None => {
                    break ;
                },
            }
        }
    }

    /// Appends one component to the end of this path.
    fn push_component(&mut self, component: Component<'_>)
        ensures
            final(self)@ == pushed(old(self)@, component@),
    {
        if !self.inner.as_str().is_empty() && !ends_with(self.inner.as_str(), SEPARATOR) {
            // we need to push a separator if the rightmost char is not a separator
            self.push_separator();
        }
        match component {
            Component::CurrentDir => {},
            Component::ParentDir => {
                // we may already have pushed a separator
                let front = trim_end_matches(self.inner.as_str(), SEPARATOR);
                proof {
                    lemma_trimmed_is(self@, front@);
                }
                match rsplit_once(front, SEPARATOR) {
                    Some((left, last)) => {
                        proof {
                            lemma_last_separator_is(front@, left@, last@);
                            assert(self@.take(left@.len() as int) =~= left@);
                        }
                        let left = left.to_owned();
                        self.inner = left;
                    },
                    None => {
                        proof {
                            lemma_no_last_separator(front@);
                        }
                    },
                }
            },
            Component::Normal(name) => {
                self.inner.append(name);
            },
            Component::RootDir => {
                if self.inner.as_str().is_empty() {
                    self.push_separator();
                    assert(self@ =~= seq![SEPARATOR]);
                }
            },
        }
    }

    /// Appends a separator.
    fn push_separator(&mut self)
        ensures
            final(self)@ == old(self)@.push(SEPARATOR),
    {
        proof {
            reveal_strlit("/");
        }
        self.inner.append("/");
        assert("/"@ =~= seq![SEPARATOR]);
        assert(self@ =~= old(self)@.push(SEPARATOR));
    }

    /// Whether the text of the path is `.`.
    fn is_dot(&self) -> (b: bool)
        ensures
            b == (self@ == seq!['.']),
    {
        let text = self.inner.as_str();
        if text.unicode_len() == 1 && text.get_char(0) == '.' {
            assert(self@ =~= seq!['.']);
            true
        } else {
            assert(self@ != seq!['.']) by {
                if self@ == seq!['.'] {
                    assert(seq!['.'].len() == 1);
                    assert(seq!['.'][0] == '.');
                }
            }
            false
        }
    }

    /// Converts the path into its components, each a path of its own: the names of the
    /// normal components that no parent directory behind them takes away.
    /// `/my/path` has the components `my` and `path`.
    pub fn into_components(self) -> (names: Vec<OwnedPath>)
        ensures
            texts_of(names@) == resolved_all(Seq::empty(), components_of(self@)),
    {
        let mut data: Vec<OwnedPath> = Vec::new();
        let mut components = self.components();
        assert(texts_of(data@) =~= Seq::<Seq<char>>::empty());
        loop
            invariant_except_break
                resolved_all(texts_of(data@), components.remaining()) == resolved_all(
                    Seq::empty(),
                    components_of(self@),
                ),
            ensures
                texts_of(data@) == resolved_all(Seq::empty(), components_of(self@)),
            decreases components.remaining().len(),
        {
            let ghost names = texts_of(data@);
            match components.next() {
                Some(component) => {
                    match component {
                        Component::ParentDir => {
                            while data.len() > 0 && data[data.len() - 1].is_dot()
                                invariant
                                    without_dots(texts_of(data@)) == without_dots(names),
                                decreases data.len(),
                            {
                                let ghost before = texts_of(data@);
                                data.pop();
                                assert(texts_of(data@) =~= before.drop_last());
                            }
                            let ghost rest = texts_of(data@);
                            data.pop();
                            assert(rest.len() > 0 ==> texts_of(data@) =~= rest.drop_last());
                        },
                        Component::CurrentDir => {},
                        Component::RootDir => {},
                        Component::Normal(name) => {
                            data.push(OwnedPath::from(name));
                            assert(texts_of(data@) =~= names.push(
                                pushed_all(Seq::empty(), components_of(name@)),
                            ));
                        },
                    }
                },
                None => {
                    break ;
                },
            }
        }
        data
    }

    /// The length of the text in bytes.
    pub fn len(&self) -> (n: usize)
        ensures
            n == self.byte_len() as usize,
    {
        self.inner.as_str().len()
    }

    /// Whether the path is empty.
    pub fn is_empty(&self) -> (b: bool)
        ensures
            b == (self@.len() == 0),
    {
        self.inner.as_str().is_empty()
    }

    /// The path, with its text borrowed.
    pub fn as_path(&self) -> (path: Path<'_>)
        ensures
            path@ == self@,
    {
        Path::new(self.inner.as_str())
    }

    /// The components of the path, from the first on.
    pub fn components(&self) -> (components: Components<'_>)
        ensures
            components.remaining() == components_of(self@),
    {
        Path::new(self.inner.as_str()).components()
    }

    /// The text of the path.
    pub fn to_string(&self) -> (s: String)
        ensures
            s@ == self@,
    {
        self.inner.clone()
    }
}

} // verus!
