//! The formatter: a tree to its canonical text.
use vstd::prelude::*;
use vstd::string::StringExecFns;

pub mod expression;
pub mod function;
pub mod render;
pub mod statement;
pub mod types;

use crate::ast::File;
use render::{deeper, file_text, join, join_first, repeat};

verus! {

/// What can be rendered as text by a [`Formatter`].
pub trait Format {
    /// The text of the value at a level of indentation, `unit` being the text of one level.
    spec fn rendered(&self, unit: Seq<char>, level: nat) -> Seq<char>;

    /// Renders the value. The formatter is left as it was.
    fn fmt(&self, fmt: &mut Formatter) -> (text: String)
        ensures
            text@ == self.rendered(old(fmt).unit(), old(fmt).level()),
            final(fmt).same(old(fmt)),
    ;
}

impl<T: Format> Format for &T {
    open spec fn rendered(&self, unit: Seq<char>, level: nat) -> Seq<char> {
        (**self).rendered(unit, level)
    }

    fn fmt(&self, fmt: &mut Formatter) -> (text: String) {
        return (*self).fmt(fmt);
    }
}

/// Renders trees as text, indenting what is nested.
#[derive(Debug)]
pub struct Formatter {
    pub verbose: bool,
    indent_string: String,
    indent_level: usize,
}

/// The texts of a list of strings.
pub open spec fn texts(strings: Seq<String>) -> Seq<Seq<char>> {
    Seq::new(strings.len(), |i: int| strings[i]@)
}

/// The texts of a list of values.
pub open spec fn rendered_all<S: Format>(items: Seq<S>, unit: Seq<char>, level: nat) -> Seq<
    Seq<char>,
> {
    Seq::new(items.len(), |i: int| items[i].rendered(unit, level))
}

/// Joins the strings, with `separator` between each two.
pub fn join_strings(strings: &Vec<String>, separator: &str) -> (joined: String)
    ensures
        joined@ == join(texts(strings@), separator@),
{
    let mut buffer = String::new();
    let mut i: usize = 0;
    while i < strings.len()
        invariant
            i <= strings.len(),
            buffer@ == join_first(texts(strings@), separator@, i as nat),
        decreases strings.len() - i,
    {
        if i > 0 {
            buffer.append(separator);
        }
        buffer.append(strings[i].as_str());
        proof {
            assert(Seq::<char>::empty() + strings[i as int]@ =~= strings[i as int]@);
        }
        i += 1;
    }
    buffer
}

impl Default for Formatter {
    /// A formatter that indents by two spaces a level and starts at no indentation.
    fn default() -> (fmt: Self)
        ensures
            !fmt.is_verbose(),
            fmt.unit() == "  "@,
            fmt.level() == 0,
    {
        return Formatter {
            verbose: false,
            indent_string: String::from_str("  "),
            indent_level: 0,
        };
    }
}

impl Formatter {
    /// The text of one level of indentation.
    pub closed spec fn unit(&self) -> Seq<char> {
        self.indent_string@
    }

    /// Whether the formatter is set to be verbose. Nothing is rendered otherwise for it yet.
    pub closed spec fn is_verbose(&self) -> bool {
        self.verbose
    }

    /// The level of indentation.
    pub closed spec fn level(&self) -> nat {
        self.indent_level as nat
    }

    /// Whether the two formatters are set alike and stand at the same level.
    pub open spec fn same(&self, other: &Formatter) -> bool {
        &&& self.unit() == other.unit()
        &&& self.level() == other.level()
        &&& self.is_verbose() == other.is_verbose()
    }

    /// A formatter that indents by `indent_unit` a level and starts at no indentation.
    pub fn new(indent_unit: &str, verbose: bool) -> (fmt: Self)
        ensures
            fmt.is_verbose() == verbose,
            fmt.unit() == indent_unit@,
            fmt.level() == 0,
    {
        Formatter { verbose, indent_string: String::from_str(indent_unit), indent_level: 0 }
    }

    /// Renders the items and joins their texts, with `separator` between each two.
    pub fn join<S: Format>(&mut self, items: &[S], separator: &str) -> (joined: String)
        ensures
            joined@ == join(
                rendered_all(items@, old(self).unit(), old(self).level()),
                separator@,
            ),
            final(self).same(old(self)),
    {
        let mut strings: Vec<String> = Vec::new();
        let mut i: usize = 0;
        while i < items.len()
            invariant
                i <= items.len(),
                self.same(old(self)),
                strings.len() == i,
                forall|j: int|
                    0 <= j < i ==> (#[trigger] strings[j])@ == items[j].rendered(
                        self.unit(),
                        self.level(),
                    ),
            decreases items.len() - i,
        {
            let text = items[i].fmt(self);
            strings.push(text);
            i += 1;
        }
        proof {
            assert(texts(strings@) =~= rendered_all(items@, self.unit(), self.level()));
        }
        join_strings(&strings, separator)
    }

    /// The indentation at the formatter's level.
    pub fn indent(&self) -> (text: String)
        ensures
            text@ == repeat(self.unit(), self.level()),
    {
        let mut text = String::new();
        let mut i: usize = 0;
        while i < self.indent_level
            invariant
                i <= self.indent_level,
                text@ == repeat(self.unit(), i as nat),
            decreases self.indent_level - i,
        {
            text.append(self.indent_string.as_str());
            i += 1;
        }
        text
    }

    /// Goes one level deeper; the deepest level has none deeper.
    pub fn push_indent(&mut self)
        ensures
            final(self).level() == deeper(old(self).level()),
            final(self).unit() == old(self).unit(),
            final(self).is_verbose() == old(self).is_verbose(),
    {
        if self.indent_level < usize::MAX {
            self.indent_level = self.indent_level + 1;
        }
    }

    /// Goes one level back; there is none before the first.
    pub fn pop_indent(&mut self)
        ensures
            final(self).level() == if old(self).level() > 0 {
                old(self).level() - 1
            } else {
                0
            },
            final(self).unit() == old(self).unit(),
            final(self).is_verbose() == old(self).is_verbose(),
    {
        if self.indent_level > 0 {
            self.indent_level = self.indent_level - 1;
        }
    }

    /// Whether the formatter stands at the deepest level, from which `push_indent` goes no
    /// deeper.
    pub fn at_deepest(&self) -> (r: bool)
        ensures
            r == (self.level() == usize::MAX),
    {
        self.indent_level == usize::MAX
    }
}

impl Format for File {
    open spec fn rendered(&self, unit: Seq<char>, level: nat) -> Seq<char> {
        file_text(self@, unit, level)
    }

    fn fmt(&self, fmt: &mut Formatter) -> (text: String) {
        let mut text = statement::format_statements(&self.statements, fmt);
        text.append("\n");
        return text;
    }
}

impl File {
    /// The canonical text of the file: two spaces a level, starting at no indentation.
    pub fn to_string(&self) -> (text: String)
        ensures
            text@ == file_text(self@, "  "@, 0),
    {
        let mut fmt = Formatter::default();
        self.fmt(&mut fmt)
    }
}

} // verus!
