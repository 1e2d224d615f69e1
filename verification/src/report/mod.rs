//! Reports, and the plain-text renderings the library owns.
//!
//! A report is built once from what a walk found and rendered from that one
//! value, so two renderings of the same run cannot answer differently.
//! Rendering is deterministic: identical input produces identical text, no
//! map iteration reaches the output, and every piece of corpus text quoted
//! into a line-oriented rendering is folded onto one line first.


pub mod capture;
pub mod check;
pub mod find;
pub mod list;
pub mod markdown;
pub mod search;
pub mod show;

use vstd::prelude::*;

use crate::chars::string_of;
use crate::text::append;

verus! {

/// The version of the structured output the reports feed: a clock of its
/// own, separate from the contract's version and from the crate's, that
/// ticks when a field name or a field's type changes.
pub const SCHEMA_VERSION: u32 = 3;

/// How a caller arrived at the vault it is reporting on. Selection is a
/// consumer's decision; this records which decision was taken, so a report
/// can say so.
#[derive(Clone, Copy, Debug, PartialEq, Eq)]
pub enum SelectionRoute {
    /// Upward discovery from a starting directory.
    Discovery,
    /// An explicit path, given as an argument.
    FlagPath,
    /// A registry name, given as an argument.
    FlagName,
    /// An explicit path, taken from the environment.
    EnvironmentPath,
    /// A registry name, taken from the environment.
    EnvironmentName,
}

/// A route's wire word, used by every structured format.
pub open spec fn wire(route: SelectionRoute) -> Seq<char> {
    match route {
        SelectionRoute::Discovery => "discovery"@,
        SelectionRoute::FlagPath => "flag-path"@,
        SelectionRoute::FlagName => "flag-name"@,
        SelectionRoute::EnvironmentPath => "environment-path"@,
        SelectionRoute::EnvironmentName => "environment-name"@,
    }
}

/// What a route's argument follows in the phrase a reader sees.
pub open spec fn selector(route: SelectionRoute) -> Seq<char> {
    match route {
        SelectionRoute::Discovery => Seq::empty(),
        SelectionRoute::FlagPath | SelectionRoute::FlagName => "--vault "@,
        SelectionRoute::EnvironmentPath | SelectionRoute::EnvironmentName => "DOGTAG_VAULT "@,
    }
}

/// What a route says in place of an argument it was not given.
pub open spec fn placeholder(route: SelectionRoute) -> Seq<char> {
    match route {
        SelectionRoute::Discovery => "upward discovery from the current directory"@,
        SelectionRoute::FlagPath | SelectionRoute::EnvironmentPath => "<path>"@,
        SelectionRoute::FlagName | SelectionRoute::EnvironmentName => "<name>"@,
    }
}

/// What a route through the registry adds after its argument.
pub open spec fn registered(route: SelectionRoute) -> Seq<char> {
    match route {
        SelectionRoute::FlagName | SelectionRoute::EnvironmentName => " (registered)"@,
        _ => Seq::empty(),
    }
}

impl SelectionRoute {
    /// Every route, in the order this module declares them.
    pub const ALL: [SelectionRoute; 5] = [
        SelectionRoute::Discovery,
        SelectionRoute::FlagPath,
        SelectionRoute::FlagName,
        SelectionRoute::EnvironmentPath,
        SelectionRoute::EnvironmentName,
    ];

    /// The lowercase wire spelling, used by every structured format.
    pub fn as_str(self) -> (s: &'static str)
        ensures
            s@ == wire(self),
    {
        match self {
            SelectionRoute::Discovery => "discovery",
            SelectionRoute::FlagPath => "flag-path",
            SelectionRoute::FlagName => "flag-name",
            SelectionRoute::EnvironmentPath => "environment-path",
            SelectionRoute::EnvironmentName => "environment-name",
        }
    }

    fn selector(self) -> (s: &'static str)
        ensures
            s@ == selector(self),
    {
        proof {
            reveal_strlit("");
        }
        match self {
            SelectionRoute::Discovery => "",
            SelectionRoute::FlagPath | SelectionRoute::FlagName => "--vault ",
            SelectionRoute::EnvironmentPath | SelectionRoute::EnvironmentName => "DOGTAG_VAULT ",
        }
    }

    fn placeholder(self) -> (s: &'static str)
        ensures
            s@ == placeholder(self),
    {
        match self {
            SelectionRoute::Discovery => "upward discovery from the current directory",
            SelectionRoute::FlagPath | SelectionRoute::EnvironmentPath => "<path>",
            SelectionRoute::FlagName | SelectionRoute::EnvironmentName => "<name>",
        }
    }

    fn registered(self) -> (s: &'static str)
        ensures
            s@ == registered(self),
    {
        proof {
            reveal_strlit("");
        }
        match self {
            SelectionRoute::FlagName | SelectionRoute::EnvironmentName => " (registered)",
            _ => "",
        }
    }
}

/// Which vault a caller asked for, and how.
#[derive(Clone, Debug, PartialEq, Eq)]
pub struct Selection {
    /// The route the selection took.
    pub how: SelectionRoute,
    /// The argument that drove it, exactly as it was given.
    pub requested: Option<String>,
}

/// The route as a reader sees it, with the argument filled in, or the
/// route's placeholder where no argument was supplied.
pub open spec fn described(selection: Selection) -> Seq<char> {
    selector(selection.how) + match selection.requested {
        Some(r) => r@,
        None => placeholder(selection.how),
    } + registered(selection.how)
}

impl Selection {
    /// A selection by `how`, carrying the argument that drove it. Discovery
    /// carries nothing, because a starting directory chose the vault; every
    /// other route carries the argument exactly as it was given.
    pub fn new(how: SelectionRoute, requested: Option<String>) -> (s: Selection)
        ensures
            s.how == how,
            s.requested == requested,
    {
        Selection { how, requested }
    }

    /// The route this selection took.
    pub fn how(&self) -> (r: SelectionRoute)
        ensures
            r == self.how,
    {
        self.how
    }

    /// The argument that drove it, when there was one.
    pub fn requested(&self) -> (r: Option<&str>)
        ensures
            match self.requested {
                Some(t) => r matches Some(s) && s@ == t@,
                None => r.is_none(),
            },
    {
        match &self.requested {
            Some(t) => Some(t.as_str()),
            None => None,
        }
    }

    /// The registry name this selection resolved through, if it resolved
    /// through one at all: a name route's argument is the registered name.
    pub fn registry_name(&self) -> (r: Option<&str>)
        ensures
            match self.how {
                SelectionRoute::FlagName | SelectionRoute::EnvironmentName => match self.requested {
                    Some(t) => r matches Some(s) && s@ == t@,
                    None => r.is_none(),
                },
                _ => r.is_none(),
            },
    {
        match self.how {
            SelectionRoute::FlagName | SelectionRoute::EnvironmentName => self.requested(),
            _ => None,
        }
    }

    /// The route as a reader sees it, with the argument filled in. A route
    /// whose argument was not supplied renders its placeholder rather than a
    /// blank, so the line always names a route.
    pub fn describe(&self) -> (r: String)
        ensures
            r@ == described(*self),
    {
        let mut out: Vec<char> = Vec::new();
        append(&mut out, self.how.selector());
        match &self.requested {
            Some(t) => append(&mut out, t.as_str()),
            None => append(&mut out, self.how.placeholder()),
        }
        append(&mut out, self.how.registered());
        string_of(&out)
    }
}

} // verus!
