use portfolio_api::{
    assemble_project, get_project, list_projects, list_projects_by_job, list_projects_by_skill,
    nest_skills, select_projects, Proficiency, Project, ProjectFilter, ProjectRecord,
    ProjectSkillLink, SkillRecord,
};

fn skill(id: i32, name: &str, proficiency: &str) -> SkillRecord {
    SkillRecord {
        id,
        name: name.to_string(),
        description: format!("about {}", name),
        official_site_url: format!("https://example.org/{}", id),
        proficiency: proficiency.to_string(),
        parent_id: Some(100),
    }
}

fn project(id: i32, job_id: Option<i32>) -> ProjectRecord {
    ProjectRecord {
        id,
        name: format!("project {}", id),
        description: format!("description {}", id),
        github_url: if id % 2 == 0 { Some(format!("https://github.com/p/{}", id)) } else { None },
        job_id,
    }
}

fn link(project_id: i32, skill_id: i32) -> ProjectSkillLink {
    ProjectSkillLink { project_id, skill_id }
}

fn skill_names(p: &Project) -> Vec<String> {
    p.skills.iter().map(|s| s.name.clone()).collect()
}

fn ids(ps: &[Project]) -> Vec<i32> {
    ps.iter().map(|p| p.id).collect()
}

#[test]
fn get_project_orders_skills_by_name() {
    let skills = vec![skill(1, "Go", "Expert"), skill(2, "Awk", "Beginner")];
    let projects = vec![project(5, None)];
    for links in [vec![link(5, 1), link(5, 2)], vec![link(5, 2), link(5, 1)]] {
        let p = get_project(&projects, &links, &skills, 5).expect("project 5 exists");
        assert_eq!(p.id, 5);
        assert_eq!(p.job_id, None);
        assert_eq!(skill_names(&p), vec!["Awk", "Go"]);
        assert_eq!(p.skills[0].id, 2);
        assert_eq!(p.skills[0].proficiency, Proficiency::Beginner);
        assert_eq!(p.skills[1].id, 1);
        assert_eq!(p.skills[1].proficiency, Proficiency::Expert);
    }
}

#[test]
fn nested_skills_carry_no_parent() {
    let skills = vec![skill(1, "Go", "Expert")];
    let nested = nest_skills(5, &vec![link(5, 1)], &skills);
    assert_eq!(nested.len(), 1);
    assert_eq!(nested[0].parent_id, None);
    assert_eq!(nested[0].description, "about Go");
    assert_eq!(nested[0].official_site_url, "https://example.org/1");
}

#[test]
fn project_without_links_has_empty_skills() {
    let skills = vec![skill(1, "Go", "Expert")];
    let projects = vec![project(3, Some(1)), project(4, None)];
    let links = vec![link(4, 1)];
    let p = get_project(&projects, &links, &skills, 3).unwrap();
    assert!(p.skills.is_empty());
    let all = list_projects(&projects, &links, &skills);
    assert!(all[0].skills.is_empty());
    assert_eq!(all[1].skills.len(), 1);
}

#[test]
fn get_project_missing_is_none() {
    let projects = vec![project(1, None)];
    assert!(get_project(&projects, &Vec::new(), &Vec::new(), 9999).is_none());
}

#[test]
fn duplicate_links_give_one_entry() {
    let skills = vec![skill(1, "Go", "Expert"), skill(2, "Awk", "Beginner")];
    let links = vec![link(5, 1), link(5, 2), link(5, 1), link(6, 1)];
    let nested = nest_skills(5, &links, &skills);
    let nested_ids: Vec<i32> = nested.iter().map(|s| s.id).collect();
    assert_eq!(nested_ids, vec![2, 1]);
}

#[test]
fn link_to_missing_skill_adds_nothing() {
    let skills = vec![skill(1, "Go", "Expert")];
    let nested = nest_skills(5, &vec![link(5, 42), link(5, 1)], &skills);
    assert_eq!(nested.len(), 1);
    assert_eq!(nested[0].id, 1);
}

#[test]
fn equal_names_ordered_by_id() {
    let skills = vec![skill(9, "Lisp", "Expert"), skill(3, "Lisp", "Advanced"), skill(4, "C", "Expert")];
    let nested = nest_skills(1, &vec![link(1, 9), link(1, 3), link(1, 4)], &skills);
    let nested_ids: Vec<i32> = nested.iter().map(|s| s.id).collect();
    assert_eq!(nested_ids, vec![4, 3, 9]);
}

#[test]
fn skill_names_compare_by_character() {
    let skills = vec![
        skill(1, "go", "Expert"),
        skill(2, "Go", "Expert"),
        skill(3, "Gö", "Expert"),
        skill(4, "G", "Expert"),
        skill(5, "", "Expert"),
    ];
    let links: Vec<ProjectSkillLink> = (1..=5).map(|s| link(1, s)).collect();
    let nested = nest_skills(1, &links, &skills);
    let names: Vec<&str> = nested.iter().map(|s| s.name.as_str()).collect();
    assert_eq!(names, vec!["", "G", "Go", "Gö", "go"]);
}

#[test]
fn list_projects_orders_by_id() {
    let projects = vec![project(8, None), project(2, Some(1)), project(5, Some(2))];
    let all = list_projects(&projects, &Vec::new(), &Vec::new());
    assert_eq!(ids(&all), vec![2, 5, 8]);
    assert_eq!(all[2].github_url, Some("https://github.com/p/8".to_string()));
    assert_eq!(all[1].github_url, None);
    assert_eq!(all[1].name, "project 5");
    assert_eq!(all[1].description, "description 5");
}

#[test]
fn projects_by_job_share_the_job() {
    let projects = vec![project(4, Some(1)), project(1, Some(1)), project(2, Some(2)), project(3, None)];
    let by_job = list_projects_by_job(&projects, &Vec::new(), &Vec::new(), 1);
    assert_eq!(ids(&by_job), vec![1, 4]);
    for p in &by_job {
        assert_eq!(p.job_id, Some(1));
    }
    assert!(list_projects_by_job(&projects, &Vec::new(), &Vec::new(), 7).is_empty());
}

#[test]
fn projects_by_skill_keep_full_skill_lists() {
    let skills = vec![skill(10, "Rust", "Expert"), skill(11, "SQL", "Advanced"), skill(12, "Bash", "Beginner")];
    let projects = vec![project(1, None), project(2, None), project(3, None)];
    let links = vec![link(3, 10), link(3, 12), link(1, 11), link(2, 10)];
    let by_skill = list_projects_by_skill(&projects, &links, &skills, 10);
    assert_eq!(ids(&by_skill), vec![2, 3]);
    for p in &by_skill {
        assert!(p.skills.iter().any(|s| s.id == 10));
    }
    assert_eq!(skill_names(&by_skill[1]), vec!["Bash", "Rust"]);
    assert!(list_projects_by_skill(&projects, &links, &skills, 99).is_empty());
}

#[test]
fn select_projects_by_id_filter() {
    let projects = vec![project(1, None), project(2, None)];
    let chosen = select_projects(ProjectFilter::ById(2), &projects, &Vec::new(), &Vec::new());
    assert_eq!(ids(&chosen), vec![2]);
    let all = select_projects(ProjectFilter::All, &projects, &Vec::new(), &Vec::new());
    assert_eq!(ids(&all), vec![1, 2]);
}

#[test]
fn assemble_project_copies_the_row() {
    let rec = project(6, Some(3));
    let p = assemble_project(&rec, &vec![link(6, 1)], &vec![skill(1, "Go", "Advanced")]);
    assert_eq!(p.id, 6);
    assert_eq!(p.name, "project 6");
    assert_eq!(p.github_url, Some("https://github.com/p/6".to_string()));
    assert_eq!(p.job_id, Some(3));
    assert_eq!(p.skills.len(), 1);
    assert_eq!(p.skills[0].proficiency, Proficiency::Advanced);
}
