use vstd::prelude::*;

use crate::clock::{now_nanos, Timestamp};
use crate::text::{prefixed, str_eq};

verus! {

/// Whether a project runs its deployments.
#[derive(Debug, Clone, Copy, PartialEq, Eq, Structural)]
pub enum ProjectStatus {
    Active,
    Suspended,
}

impl ProjectStatus {
    /// The display name of the status.
    pub open spec fn label(self) -> Seq<char> {
        match self {
            ProjectStatus::Active => "active"@,
            ProjectStatus::Suspended => "suspended"@,
        }
    }

    /// The display name of the status.
    pub fn to_string(&self) -> (s: String)
        ensures
            s@ == self.label(),
    {
        match self {
            ProjectStatus::Active => "active".to_owned(),
            ProjectStatus::Suspended => "suspended".to_owned(),
        }
    }

    /// What parsing a status name gives.
    pub open spec fn spec_parse(s: Seq<char>) -> Result<ProjectStatus, Seq<char>> {
        if s == "active"@ {
            Ok(ProjectStatus::Active)
        } else if s == "suspended"@ {
            Ok(ProjectStatus::Suspended)
        } else {
            Err("unknown project status: "@ + s)
        }
    }

    /// Parses a status name; the match is exact.
    pub fn parse_label(s: &str) -> (r: Result<ProjectStatus, String>)
        ensures
            match r {
                Ok(p) => Self::spec_parse(s@) == Ok::<ProjectStatus, Seq<char>>(p),
                Err(e) => Self::spec_parse(s@) == Err::<ProjectStatus, Seq<char>>(e@),
            },
    {
        if str_eq(s, "active") {
            Ok(ProjectStatus::Active)
        } else if str_eq(s, "suspended") {
            Ok(ProjectStatus::Suspended)
        } else {
            Err(prefixed("unknown project status: ", s))
        }
    }
}

/// Every status's name parses back to the status.
pub proof fn project_status_label_parses_back(p: ProjectStatus)
    ensures
        ProjectStatus::spec_parse(p.label()) == Ok::<ProjectStatus, Seq<char>>(p),
{
    reveal_strlit("active");
    reveal_strlit("suspended");
    assert("active"@.len() == 6);
    assert("suspended"@ != "active"@);
    match p {
        ProjectStatus::Active => assert(ProjectStatus::spec_parse("active"@) == Ok::<ProjectStatus, Seq<char>>(p)),
        ProjectStatus::Suspended => assert(ProjectStatus::spec_parse("suspended"@) == Ok::<ProjectStatus, Seq<char>>(p)),
    }
}

impl core::str::FromStr for ProjectStatus {
    type Err = String;

    fn from_str(s: &str) -> (r: core::result::Result<Self, Self::Err>)
        ensures
            match r {
                Ok(p) => ProjectStatus::spec_parse(s@) == Ok::<ProjectStatus, Seq<char>>(p),
                Err(e) => ProjectStatus::spec_parse(s@) == Err::<ProjectStatus, Seq<char>>(e@),
            },
    {
        ProjectStatus::parse_label(s)
    }
}

/// A named group of deployments.
#[derive(Debug)]
pub struct Project {
    pub name: String,
    pub status: ProjectStatus,
    pub created_at: Timestamp,
}

impl Clone for Project {
    fn clone(&self) -> (r: Self)
        ensures
            r == *self,
    {
        Project { name: self.name.clone(), status: self.status, created_at: self.created_at }
    }
}

impl Project {
    /// A new active project, created now.
    pub fn new(name: &str) -> (p: Project)
        ensures
            p.name@ == name@,
            p.status == ProjectStatus::Active,
    {
        Project { name: name.to_owned(), status: ProjectStatus::Active, created_at: now_nanos() }
    }

    pub fn is_active(&self) -> (r: bool)
        ensures
            r == (self.status == ProjectStatus::Active),
    {
        self.status == ProjectStatus::Active
    }

    pub fn is_suspended(&self) -> (r: bool)
        ensures
            r == (self.status == ProjectStatus::Suspended),
    {
        self.status == ProjectStatus::Suspended
    }
}

} // verus!
