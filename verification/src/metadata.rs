//! The documentation and syntax information of a command.

use vstd::prelude::*;
use vstd::string::StringExecFns;
use vstd::std_specs::cmp::PartialEqSpecImpl;

verus! {

/// Metadata associated with a command: its name, syntax, short description
/// and detailed documentation.
#[derive(Debug)]
pub struct CommandMetadata {
    name: String,
    syntax: String,
    short: String,
    docs: String,
}

/// The four texts of a [`CommandMetadata`].
pub struct MetadataView {
    pub name: Seq<char>,
    pub syntax: Seq<char>,
    pub short: Seq<char>,
    pub docs: Seq<char>,
}

impl View for CommandMetadata {
    type V = MetadataView;

    closed spec fn view(&self) -> MetadataView {
        MetadataView {
            name: self.name@,
            syntax: self.syntax@,
            short: self.short@,
            docs: self.docs@,
        }
    }
}

impl CommandMetadata {
    /// Creates a new `CommandMetadata` instance.
    pub fn new(name: &str, syntax: &str, short: &str, docs: &str) -> (m: Self)
        ensures
            m@ == (MetadataView { name: name@, syntax: syntax@, short: short@, docs: docs@ }),
    {
        CommandMetadata {
            name: String::from_str(name),
            syntax: String::from_str(syntax),
            short: String::from_str(short),
            docs: String::from_str(docs),
        }
    }

    /// Creates a `CommandMetadata` that owns the given strings.
    pub fn from_strings(name: String, syntax: String, short: String, docs: String) -> (m: Self)
        ensures
            m@ == (MetadataView { name: name@, syntax: syntax@, short: short@, docs: docs@ }),
    {
        CommandMetadata { name, syntax, short, docs }
    }

    /// Returns the command name.
    pub fn name(&self) -> (r: &str)
        ensures
            r@ == self@.name,
    {
        self.name.as_str()
    }

    /// Returns the command syntax.
    pub fn syntax(&self) -> (r: &str)
        ensures
            r@ == self@.syntax,
    {
        self.syntax.as_str()
    }

    /// Returns the short description.
    pub fn short(&self) -> (r: &str)
        ensures
            r@ == self@.short,
    {
        self.short.as_str()
    }

    /// Returns the detailed documentation.
    pub fn docs(&self) -> (r: &str)
        ensures
            r@ == self@.docs,
    {
        self.docs.as_str()
    }
}

impl Clone for CommandMetadata {
    fn clone(&self) -> (r: Self)
        ensures
            r@ == self@,
    {
        CommandMetadata {
            name: self.name.clone(),
            syntax: self.syntax.clone(),
            short: self.short.clone(),
            docs: self.docs.clone(),
        }
    }
}

impl PartialEq for CommandMetadata {
    fn eq(&self, other: &Self) -> (r: bool) {
        self.name == other.name && self.syntax == other.syntax && self.short == other.short
            && self.docs == other.docs
    }
}

impl PartialEqSpecImpl for CommandMetadata {
    open spec fn obeys_eq_spec() -> bool {
        true
    }

    open spec fn eq_spec(&self, other: &Self) -> bool {
        self@ == other@
    }
}

impl Eq for CommandMetadata {

}

} // verus!
