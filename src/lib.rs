//! Read-side core of a portfolio API: skills, jobs and projects, with the
//! rules that turn stored rows into the entities that clients receive.
//!
//! Storage hands over plain rows; the operations here decode them, select,
//! order and nest them. Every listing comes by ascending identifier, and a
//! project's skills come by ascending name.

pub mod date;
pub mod jobs;
pub mod ordering;
pub mod proficiency;
pub mod projects;
pub mod query;
pub mod response;
pub mod skills;
pub mod text;

pub use date::CalendarDate;
pub use jobs::{get_job, list_jobs, Job};
pub use proficiency::Proficiency;
pub use projects::{
    assemble_project, get_project, list_projects, list_projects_by_job, list_projects_by_skill,
    nest_skills, select_projects, Project, ProjectFilter, ProjectRecord, ProjectSkillLink,
};
pub use query::{job_query, project_query, skill_query};
pub use response::Outcome;
pub use skills::{get_skill, list_skills, Skill, SkillRecord, Technology};
pub use text::{compare_text, text_equals};
