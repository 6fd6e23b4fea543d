//! Session metadata and the requests made of a store. The store itself lives outside the
//! library; these are the values that cross the seam.

use vstd::prelude::*;

use crate::session::event::SESSION_FORMAT_VERSION;
use crate::text::str_eq;

verus! {

#[derive(Clone, Copy, Debug, PartialEq, Eq)]
pub enum Origin {
    Subagent,
}

impl Origin {
    pub fn as_str(self) -> (r: &'static str)
        ensures
            r@ == "subagent"@,
    {
        match self {
            Origin::Subagent => "subagent",
        }
    }

    pub fn parse(raw: &str) -> (r: Option<Origin>)
        ensures
            r == (if raw@ == "subagent"@ {
                Some(Origin::Subagent)
            } else {
                None
            }),
    {
        if str_eq(raw, "subagent") {
            Some(Origin::Subagent)
        } else {
            None
        }
    }
}

/// Session metadata, kept outside the log because the title is mutable and the log is not.
#[derive(Clone, Debug, PartialEq)]
pub struct SessionHeader {
    pub id: String,
    pub format_version: i64,
    pub created_at: i64,
    pub updated_at: i64,
    pub title: Option<String>,
    /// Absolute and canonical; `None` means the session is bound to no directory.
    pub cwd: Option<String>,
    pub parent_session: Option<String>,
    /// How many leading events were inherited from the parent: the durable fork boundary.
    pub seed_length: Option<u64>,
    pub origin: Option<Origin>,
    pub delegation_depth: Option<u32>,
    pub agent_preset: Option<String>,
}

/// A creation request; no `id` lets the store mint one.
#[derive(Clone, Debug)]
pub struct NewSession {
    pub id: Option<String>,
    pub cwd: Option<String>,
    pub parent_session: Option<String>,
    pub seed_length: Option<u64>,
    pub origin: Option<Origin>,
    pub delegation_depth: Option<u32>,
    pub agent_preset: Option<String>,
}

impl Default for NewSession {
    /// A request with every field unset.
    fn default() -> (s: NewSession)
        ensures
            s.id is None && s.cwd is None && s.parent_session is None && s.seed_length is None
                && s.origin is None && s.delegation_depth is None && s.agent_preset is None,
    {
        NewSession {
            id: None,
            cwd: None,
            parent_session: None,
            seed_length: None,
            origin: None,
            delegation_depth: None,
            agent_preset: None,
        }
    }
}

impl NewSession {
    /// A session opened in `cwd`, everything else unset.
    pub fn in_dir(cwd: String) -> (s: NewSession)
        ensures
            s.cwd == Some(cwd),
            s.id is None && s.parent_session is None && s.seed_length is None && s.origin is None
                && s.delegation_depth is None && s.agent_preset is None,
    {
        NewSession {
            id: None,
            cwd: Some(cwd),
            parent_session: None,
            seed_length: None,
            origin: None,
            delegation_depth: None,
            agent_preset: None,
        }
    }

    pub fn format_version(&self) -> (r: i64)
        ensures
            r == SESSION_FORMAT_VERSION,
    {
        SESSION_FORMAT_VERSION
    }
}

/// Which sessions a listing asks for; asked of the store rather than filtered afterwards, so a
/// limit never hides one project's older sessions behind another's newer ones.
#[derive(Clone, Copy, Debug, PartialEq, Eq)]
pub enum SessionScope<'a> {
    All,
    Directory(&'a str),
    Unbound,
}

/// Does a session opened in `cwd` belong to `scope`.
pub fn in_scope(scope: SessionScope, cwd: Option<&str>) -> (r: bool)
    ensures
        r == match scope {
            SessionScope::All => true,
            SessionScope::Directory(dir) => cwd matches Some(c) && c@ == dir@,
            SessionScope::Unbound => cwd is None,
        },
{
    match scope {
        SessionScope::All => true,
        SessionScope::Directory(dir) => match cwd {
            Some(c) => str_eq(c, dir),
            None => false,
        },
        SessionScope::Unbound => match cwd {
            Some(_) => false,
            None => true,
        },
    }
}

/// A provider that never titles a session: `None` is a valid answer, not an error.
pub struct NoTitle;

impl NoTitle {
    pub fn title(&self) -> (r: Option<String>)
        ensures
            r is None,
    {
        None
    }
}

/// Fork boundary; the `seq` is inclusive.
#[derive(Clone, Copy, Debug, PartialEq, Eq)]
pub struct Boundary(pub u64);

} // verus!
