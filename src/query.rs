//! Query text for each read operation: a fixed selection followed by one of
//! a closed set of endings. Identifiers are never written into the text;
//! they are bound to the single parameter `$1`.

use crate::projects::ProjectFilter;
use vstd::prelude::*;
use vstd::string::StringExecFns;

verus! {

pub const SKILL_SELECT: &'static str = "SELECT id, name, description, official_site_url, proficiency::text AS proficiency, parent_id FROM skills";

pub const JOB_SELECT: &'static str = "SELECT id, start_date, end_date, is_current_job, company_name, company_website, description, roles, responsibilities FROM jobs";

pub const PROJECT_SELECT: &'static str = "SELECT p.id, p.name, p.description, p.github_url, p.job_id FROM projects p";

pub const LINK_SELECT: &'static str = "SELECT project_id, skill_id FROM projects_skills";

pub const ORDER_BY_ID: &'static str = " ORDER BY id ASC";

pub const WHERE_ID: &'static str = " WHERE id = $1";

pub const WHERE_PROJECT_ID: &'static str = " WHERE p.id = $1";

pub const WHERE_JOB_ID: &'static str = " WHERE p.job_id = $1 ORDER BY p.id ASC";

pub const WHERE_SKILL_LINKED: &'static str = " WHERE p.id IN (SELECT project_id FROM projects_skills WHERE skill_id = $1) ORDER BY p.id ASC";

pub const ORDER_BY_PROJECT_ID: &'static str = " ORDER BY p.id ASC";

/// The ending for a flat listing or a lookup by identifier.
pub open spec fn flat_ending(by_id: bool) -> Seq<char> {
    if by_id {
        WHERE_ID@
    } else {
        ORDER_BY_ID@
    }
}

/// The ending for each kind of project selection; it depends on the kind
/// alone, never on the identifier.
pub open spec fn project_ending(filter: ProjectFilter) -> Seq<char> {
    match filter {
        ProjectFilter::All => ORDER_BY_PROJECT_ID@,
        ProjectFilter::ById(_) => WHERE_PROJECT_ID@,
        ProjectFilter::ByJob(_) => WHERE_JOB_ID@,
        ProjectFilter::BySkill(_) => WHERE_SKILL_LINKED@,
    }
}

fn flat_query(select: &str, by_id: bool) -> (r: String)
    ensures
        r@ == select@ + flat_ending(by_id),
{
    let q = String::from_str(select);
    if by_id {
        q.concat(WHERE_ID)
    } else {
        q.concat(ORDER_BY_ID)
    }
}

/// The skill listing, or with `by_id` the lookup of one skill.
pub fn skill_query(by_id: bool) -> (r: String)
    ensures
        r@ == SKILL_SELECT@ + flat_ending(by_id),
{
    flat_query(SKILL_SELECT, by_id)
}

/// The job listing, or with `by_id` the lookup of one job.
pub fn job_query(by_id: bool) -> (r: String)
    ensures
        r@ == JOB_SELECT@ + flat_ending(by_id),
{
    flat_query(JOB_SELECT, by_id)
}

/// The project rows that a filter selects.
pub fn project_query(filter: ProjectFilter) -> (r: String)
    ensures
        r@ == PROJECT_SELECT@ + project_ending(filter),
{
    let q = String::from_str(PROJECT_SELECT);
    match filter {
        ProjectFilter::All => q.concat(ORDER_BY_PROJECT_ID),
        ProjectFilter::ById(_) => q.concat(WHERE_PROJECT_ID),
        ProjectFilter::ByJob(_) => q.concat(WHERE_JOB_ID),
        ProjectFilter::BySkill(_) => q.concat(WHERE_SKILL_LINKED),
    }
}

impl ProjectFilter {
    /// The value bound to `$1`, when the query has that parameter.
    pub fn parameter(&self) -> (r: Option<i32>)
        ensures
            r == match *self {
                ProjectFilter::All => None,
                ProjectFilter::ById(v) => Some(v),
                ProjectFilter::ByJob(v) => Some(v),
                ProjectFilter::BySkill(v) => Some(v),
            },
    {
        match self {
            ProjectFilter::All => None,
            ProjectFilter::ById(v) => Some(*v),
            ProjectFilter::ByJob(v) => Some(*v),
            ProjectFilter::BySkill(v) => Some(*v),
        }
    }
}

} // verus!
