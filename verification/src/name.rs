//! The names under which the declarations of a module are written.
//!
//! A declaration is written under the name its author gave it, or, where it
//! has none, under the label of its class followed by its position. Labels of
//! different classes differ, so two generated names of different classes
//! never meet, whatever their positions.

use crate::text::{capitalize, decimal, push_capitalized, push_decimal, str_equal};
use vstd::prelude::*;
use vstd::string::*;

verus! {

/// The kinds of things that are named.
#[derive(Clone, Copy, Debug, PartialEq, Eq)]
pub enum NameClass {
    Pointer,
    Array,
    Struct,
    Global,
    Function,
    Field,
    Param,
    /// The struct that gathers the inputs of a function.
    Input,
    /// The struct that gathers the outputs of a function.
    Output,
}

impl NameClass {
    /// The label that generated names of this class begin with.
    pub open spec fn label(self) -> Seq<char> {
        match self {
            NameClass::Pointer => "Pointer"@,
            NameClass::Array => "Array"@,
            NameClass::Struct => "Struct"@,
            NameClass::Global => "global"@,
            NameClass::Function => "function"@,
            NameClass::Field => "field"@,
            NameClass::Param => "param"@,
            NameClass::Input => "Input"@,
            NameClass::Output => "Output"@,
        }
    }

    /// Whether a name of this class is derived from the author's name by
    /// putting the label in front, rather than taken as it is.
    pub open spec fn is_prefix(self) -> bool {
        self is Input || self is Output
    }

    /// The label that generated names of this class begin with.
    pub fn class_label(self) -> (label: &'static str)
        ensures
            label@ == self.label(),
    {
        match self {
            NameClass::Pointer => "Pointer",
            NameClass::Array => "Array",
            NameClass::Struct => "Struct",
            NameClass::Global => "global",
            NameClass::Function => "function",
            NameClass::Field => "field",
            NameClass::Param => "param",
            NameClass::Input => "Input",
            NameClass::Output => "Output",
        }
    }

    /// Whether a name of this class puts the label in front of the author's
    /// name.
    pub fn uses_prefix(self) -> (prefix: bool)
        ensures
            prefix == self.is_prefix(),
    {
        match self {
            NameClass::Input | NameClass::Output => true,
            _ => false,
        }
    }
}

/// Whether `name` is a word that the target language keeps for itself.
pub open spec fn is_reserved(name: Seq<char>) -> bool {
    name == "main"@
}

/// Whether `name` is a word that the target language keeps for itself.
pub fn is_reserved_name(name: &str) -> (reserved: bool)
    ensures
        reserved == is_reserved(name@),
{
    str_equal(name, "main")
}

/// The name under which a declaration of class `class` at position `index`
/// is written, given the name its author gave it, if any.
///
/// An empty name counts as none. Without a name the result is the label of
/// the class followed by the position. With one, a class that takes names as
/// they are yields the name, followed by an underscore where the name is
/// reserved, and a class that puts its label in front yields the label
/// followed by the capitalised name.
pub open spec fn display_name(class: NameClass, name: Option<Seq<char>>, index: nat) -> Seq<char> {
    match name {
        Some(n) if n.len() > 0 => {
            if class.is_prefix() {
                class.label() + capitalize(n)
            } else if is_reserved(n) {
                n + "_"@
            } else {
                n
            }
        },
        _ => class.label() + decimal(index),
    }
}

/// Where a name comes from.
#[derive(Clone, Copy, Debug, PartialEq, Eq)]
pub enum NameSource<'a> {
    /// The author's name, and whether the class label goes in front of it.
    Custom { name: &'a str, prefix: bool },
    /// The position of the declaration in its arena or list.
    Index(usize),
}

/// The name of one declaration, ready to be written.
#[derive(Clone, Copy, Debug, PartialEq, Eq)]
pub struct Name<'a> {
    pub class: NameClass,
    pub source: NameSource<'a>,
}

impl<'a> Name<'a> {
    /// The text of the name.
    pub open spec fn text(self) -> Seq<char> {
        match self.source {
            NameSource::Custom { name, prefix } => {
                if prefix {
                    self.class.label() + capitalize(name@)
                } else if is_reserved(name@) {
                    name@ + "_"@
                } else {
                    name@
                }
            },
            NameSource::Index(index) => self.class.label() + decimal(index as nat),
        }
    }

    /// The generated name of the declaration of class `class` at position
    /// `index`.
    pub fn from_index(class: NameClass, index: usize) -> (name: Name<'static>)
        ensures
            name.text() == display_name(class, None, index as nat),
            name.class == class,
            name.source == NameSource::<'static>::Index(index),
    {
        Name { class, source: NameSource::Index(index) }
    }

    /// The name of the declaration of class `class` at position `index` whose
    /// author named it `name`.
    pub fn or_index(name: &'a Option<String>, class: NameClass, index: usize) -> (chosen: Name<'a>)
        ensures
            chosen.text() == display_name(class, crate::ir::name_view(*name), index as nat),
            chosen.class == class,
            match crate::ir::name_view(*name) {
                Some(n) if n.len() > 0 => chosen.source matches NameSource::Custom { name: s, prefix }
                    && s@ == n && prefix == class.is_prefix(),
                _ => chosen.source == NameSource::<'a>::Index(index),
            },
    {
        let source = match name {
            Some(name) => {
                let name = name.as_str();
                if name.unicode_len() > 0 {
                    NameSource::Custom { name, prefix: class.uses_prefix() }
                } else {
                    NameSource::Index(index)
                }
            },
            None => NameSource::Index(index),
        };
        Name { class, source }
    }

    /// Appends the text of the name to `out`.
    pub fn write_to(&self, out: &mut String)
        ensures
            final(out)@ == old(out)@ + self.text(),
    {
        match self.source {
            NameSource::Custom { name, prefix: false } => {
                out.append(name);
                if is_reserved_name(name) {
                    out.append("_");
                }
            },
            NameSource::Custom { name, prefix: true } => {
                out.append(self.class.class_label());
                push_capitalized(out, name);
            },
            NameSource::Index(index) => {
                out.append(self.class.class_label());
                push_decimal(out, index as u64);
            },
        }
        assert(out@ =~= old(out)@ + self.text());
    }

    /// The text of the name.
    pub fn to_string(&self) -> (text: String)
        ensures
            text@ == self.text(),
    {
        let mut text = String::new();
        self.write_to(&mut text);
        assert(text@ =~= self.text());
        text
    }
}

/// Of the names that are taken as they are, only the reserved word is
/// changed: it gets an underscore behind it. Every other name is written
/// exactly as its author gave it.
pub proof fn lemma_only_reserved_names_change(class: NameClass, name: Seq<char>, index: nat)
    requires
        !class.is_prefix(),
        name.len() > 0,
    ensures
        name == "main"@ ==> display_name(class, Some(name), index) == "main_"@,
        name != "main"@ ==> display_name(class, Some(name), index) == name,
{
    reveal_strlit("main");
    reveal_strlit("_");
    reveal_strlit("main_");
    if name == "main"@ {
        assert("main"@ + "_"@ =~= "main_"@);
    }
}

} // verus!
