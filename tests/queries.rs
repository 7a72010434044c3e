use portfolio_api::{compare_text, job_query, project_query, skill_query, text_equals, ProjectFilter};
use std::cmp::Ordering;

#[test]
fn flat_queries() {
    assert_eq!(
        skill_query(false),
        "SELECT id, name, description, official_site_url, proficiency::text AS proficiency, parent_id FROM skills ORDER BY id ASC"
    );
    assert_eq!(
        skill_query(true),
        "SELECT id, name, description, official_site_url, proficiency::text AS proficiency, parent_id FROM skills WHERE id = $1"
    );
    assert_eq!(
        job_query(true),
        "SELECT id, start_date, end_date, is_current_job, company_name, company_website, description, roles, responsibilities FROM jobs WHERE id = $1"
    );
    assert!(job_query(false).ends_with(" FROM jobs ORDER BY id ASC"));
}

#[test]
fn project_queries_bind_identifiers() {
    let base = "SELECT p.id, p.name, p.description, p.github_url, p.job_id FROM projects p";
    assert_eq!(project_query(ProjectFilter::All), format!("{} ORDER BY p.id ASC", base));
    assert_eq!(project_query(ProjectFilter::ById(12)), format!("{} WHERE p.id = $1", base));
    assert_eq!(
        project_query(ProjectFilter::ByJob(3)),
        format!("{} WHERE p.job_id = $1 ORDER BY p.id ASC", base)
    );
    assert_eq!(
        project_query(ProjectFilter::BySkill(7)),
        format!(
            "{} WHERE p.id IN (SELECT project_id FROM projects_skills WHERE skill_id = $1) ORDER BY p.id ASC",
            base
        )
    );
    assert_eq!(project_query(ProjectFilter::ByJob(3)), project_query(ProjectFilter::ByJob(-8)));
    assert_eq!(ProjectFilter::BySkill(7).parameter(), Some(7));
    assert_eq!(ProjectFilter::ById(12).parameter(), Some(12));
    assert_eq!(ProjectFilter::All.parameter(), None);
}

#[test]
fn text_comparison() {
    assert_eq!(compare_text("Awk", "Go"), Ordering::Less);
    assert_eq!(compare_text("Go", "Awk"), Ordering::Greater);
    assert_eq!(compare_text("Go", "Go"), Ordering::Equal);
    assert_eq!(compare_text("Go", "Gol"), Ordering::Less);
    assert_eq!(compare_text("", ""), Ordering::Equal);
    assert_eq!(compare_text("Z", "a"), Ordering::Less);
    assert_eq!(compare_text("é", "z"), Ordering::Greater);
    assert!(text_equals("Rust", "Rust"));
    assert!(!text_equals("Rust", "rust"));
}
