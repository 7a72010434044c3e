//! Projects with their skills nested in them, ordered by skill name.

use crate::ordering::{
    find_by_id, is_first_with_id, lacks_id, lemma_map_to_multiset, lemma_multiset_contains,
    sort_by_id, sorted_by_id, Identified,
};
use crate::skills::{Skill, SkillRecord};
use crate::text::{
    compare_text, lemma_lex_cmp_equal, lemma_lex_cmp_flip, lemma_lex_lt_transitive, lex_cmp, lex_lt,
};
use core::cmp::Ordering;
use vstd::prelude::*;

verus! {

/// A portfolio project with the skills it used.
#[derive(Debug, Clone, PartialEq, Eq)]
pub struct Project {
    /// Unique identifier for the project
    pub id: i32,
    /// Title of the project
    pub name: String,
    /// Detailed description of the project
    pub description: String,
    /// Optional GitHub repository URL for the project
    pub github_url: Option<String>,
    /// Optional job ID associated with the project
    pub job_id: Option<i32>,
    /// Skills used in the project, by name
    pub skills: Vec<Skill>,
}

/// A row of the projects relation.
#[derive(Debug, Clone, PartialEq, Eq)]
pub struct ProjectRecord {
    pub id: i32,
    pub name: String,
    pub description: String,
    pub github_url: Option<String>,
    pub job_id: Option<i32>,
}

/// A row of the relation that links projects to skills.
#[derive(Debug, Clone, Copy, PartialEq, Eq, Structural)]
pub struct ProjectSkillLink {
    pub project_id: i32,
    pub skill_id: i32,
}

impl Identified for Project {
    open spec fn spec_id(&self) -> i32 {
        self.id
    }

    fn id_of(&self) -> (r: i32) {
        self.id
    }
}

impl Identified for ProjectRecord {
    open spec fn spec_id(&self) -> i32 {
        self.id
    }

    fn id_of(&self) -> (r: i32) {
        self.id
    }
}

/// A skill as it appears inside a project: the skill's own fields, without
/// its place in the skill hierarchy.
pub open spec fn nested_skill(r: SkillRecord) -> Skill {
    Skill { parent_id: None, ..r.decoded() }
}

/// One of the first `n` links ties project `pid` to skill `sid`.
pub open spec fn linked_within(links: Seq<ProjectSkillLink>, n: int, pid: i32, sid: i32) -> bool {
    exists|j: int|
        0 <= j < n && #[trigger] links[j] == (ProjectSkillLink { project_id: pid, skill_id: sid })
}

/// Some link ties project `pid` to skill `sid`.
pub open spec fn is_linked(links: Seq<ProjectSkillLink>, pid: i32, sid: i32) -> bool {
    linked_within(links, links.len() as int, pid, sid)
}

/// `a` comes before `b`: by name, and by identifier between equal names.
pub open spec fn name_before(a: Skill, b: Skill) -> bool {
    lex_lt(a.name@, b.name@) || (a.name@ == b.name@ && a.id < b.id)
}

/// Strictly ascending by name, then identifier.
pub open spec fn sorted_by_name(s: Seq<Skill>) -> bool {
    forall|i: int, j: int| 0 <= i < j < s.len() ==> name_before(#[trigger] s[i], #[trigger] s[j])
}

/// No identifier appears twice.
pub open spec fn distinct_ids(s: Seq<Skill>) -> bool {
    forall|i: int, j: int| 0 <= i < j < s.len() ==> #[trigger] s[i].id != #[trigger] s[j].id
}

/// Some entry has identifier `id`.
pub open spec fn has_skill(s: Seq<Skill>, id: i32) -> bool {
    exists|k: int| 0 <= k < s.len() && #[trigger] s[k].id == id
}

/// `e` is the nested form of the first skill row with its identifier, and
/// one of the first `n` links ties it to project `pid`.
pub open spec fn entry_from(
    pid: i32,
    links: Seq<ProjectSkillLink>,
    n: int,
    skills: Seq<SkillRecord>,
    e: Skill,
) -> bool {
    &&& linked_within(links, n, pid, e.id)
    &&& exists|i: int| is_first_with_id(skills, e.id, i) && e == nested_skill(#[trigger] skills[i])
}

/// `s` holds, once each and ordered by name, the skills that the first `n`
/// links tie to project `pid` and that the skill rows hold.
pub open spec fn nested_within(
    pid: i32,
    links: Seq<ProjectSkillLink>,
    n: int,
    skills: Seq<SkillRecord>,
    s: Seq<Skill>,
) -> bool {
    &&& sorted_by_name(s)
    &&& distinct_ids(s)
    &&& forall|k: int| 0 <= k < s.len() ==> entry_from(pid, links, n, skills, #[trigger] s[k])
    &&& forall|sid: i32|
        #[trigger] linked_within(links, n, pid, sid) && !lacks_id(skills, sid) ==> has_skill(s, sid)
}

/// `s` is the nested skill list of project `pid`.
pub open spec fn skills_of_project(
    pid: i32,
    links: Seq<ProjectSkillLink>,
    skills: Seq<SkillRecord>,
    s: Seq<Skill>,
) -> bool {
    nested_within(pid, links, links.len() as int, skills, s)
}

proof fn lemma_name_before_transitive(a: Skill, b: Skill, c: Skill)
    requires
        name_before(a, b),
        name_before(b, c),
    ensures
        name_before(a, c),
{
    if lex_lt(a.name@, b.name@) && lex_lt(b.name@, c.name@) {
        lemma_lex_lt_transitive(a.name@, b.name@, c.name@);
    }
}

proof fn lemma_name_before_total(a: Skill, b: Skill)
    requires
        a.id != b.id,
    ensures
        name_before(a, b) || name_before(b, a),
{
    lemma_lex_cmp_equal(a.name@, b.name@);
    lemma_lex_cmp_flip(a.name@, b.name@);
    lemma_lex_cmp_flip(b.name@, a.name@);
}

/// Whether `a` comes before `b` by name, then identifier.
fn skill_before(a: &Skill, b: &Skill) -> (r: bool)
    ensures
        r == name_before(*a, *b),
{
    proof {
        lemma_lex_cmp_equal(a.name@, b.name@);
    }
    match compare_text(a.name.as_str(), b.name.as_str()) {
        Ordering::Less => true,
        Ordering::Equal => a.id < b.id,
        Ordering::Greater => false,
    }
}

/// Whether some entry has identifier `id`.
fn contains_skill(s: &Vec<Skill>, id: i32) -> (r: bool)
    ensures
        r == has_skill(s@, id),
{
    let mut k: usize = 0;
    while k < s.len()
        invariant
            k <= s.len(),
            forall|j: int| 0 <= j < k ==> #[trigger] s@[j].id != id,
        decreases s.len() - k,
    {
        if s[k].id == id {
            return true;
        }
        k = k + 1;
    }
    false
}

/// Puts `x` into a name-ordered list at its place.
fn insert_by_name(s: &mut Vec<Skill>, x: Skill)
    requires
        sorted_by_name(old(s)@),
        !has_skill(old(s)@, x.id),
    ensures
        sorted_by_name(final(s)@),
        exists|p: int| 0 <= p <= old(s)@.len() && final(s)@ == old(s)@.insert(p, x),
{
    let mut pos: usize = 0;
    while pos < s.len() && !skill_before(&x, &s[pos])
        invariant
            pos <= s.len(),
            forall|k: int| 0 <= k < pos ==> !name_before(x, #[trigger] s@[k]),
        decreases s.len() - pos,
    {
        pos = pos + 1;
    }
    let ghost before = s@;
    s.insert(pos, x);
    proof {
        before.insert_ensures(pos as int, x);
        assert forall|k: int| 0 <= k < pos implies name_before(#[trigger] before[k], x) by {
            assert(before[k].id != x.id);
            lemma_name_before_total(before[k], x);
        }
        assert forall|i: int, j: int| 0 <= i < j < s@.len() implies name_before(
            #[trigger] s@[i],
            #[trigger] s@[j],
        ) by {
            if j < pos {
            } else if j == pos {
            } else if i < pos {
                assert(s@[j] == before[j - 1]);
                lemma_name_before_transitive(before[i], x, before[pos as int]);
                if j - 1 > pos {
                    lemma_name_before_transitive(before[i], before[pos as int], before[j - 1]);
                }
            } else if i == pos {
                assert(s@[j] == before[j - 1]);
                if j - 1 > pos {
                    lemma_name_before_transitive(x, before[pos as int], before[j - 1]);
                }
            } else {
                assert(s@[j] == before[j - 1]);
                assert(s@[i] == before[i - 1]);
            }
        }
    }
}

impl SkillRecord {
    /// The nested form of this skill.
    pub fn to_nested(&self) -> (r: Skill)
        ensures
            r == nested_skill(*self),
    {
        Skill { parent_id: None, ..self.to_skill() }
    }
}

/// The skills of project `pid`: each skill that a link ties to it and that
/// the skill rows hold, once, ordered by name and then identifier. A link to
/// a skill with no row adds nothing.
pub fn nest_skills(
    pid: i32,
    links: &Vec<ProjectSkillLink>,
    skills: &Vec<SkillRecord>,
) -> (r: Vec<Skill>)
    ensures
        skills_of_project(pid, links@, skills@, r@),
{
    let mut out: Vec<Skill> = Vec::new();
    let mut i: usize = 0;
    while i < links.len()
        invariant
            i <= links.len(),
            nested_within(pid, links@, i as int, skills@, out@),
        decreases links.len() - i,
    {
        let link = links[i];
        let ghost before = out@;
        if link.project_id == pid && !contains_skill(&out, link.skill_id) {
            match find_by_id(skills, link.skill_id) {
                Some(j) => {
                    let e = skills[j].to_nested();
                    insert_by_name(&mut out, e);
                    proof {
                        let p = choose|p: int| 0 <= p <= before.len() && out@ == before.insert(p, e);
                        before.insert_ensures(p, e);
                        assert(linked_within(links@, i + 1, pid, e.id)) by {
                            assert(links@[i as int] == ProjectSkillLink { project_id: pid, skill_id: e.id });
                        }
                        assert(entry_from(pid, links@, i + 1, skills@, e)) by {
                            assert(is_first_with_id(skills@, e.id, j as int));
                        }
                        assert forall|k: int| 0 <= k < out@.len() implies entry_from(
                            pid,
                            links@,
                            i + 1,
                            skills@,
                            #[trigger] out@[k],
                        ) by {
                            if k < p {
                                assert(entry_from(pid, links@, i as int, skills@, before[k]));
                            } else if k > p {
                                assert(out@[k] == before[k - 1]);
                                assert(entry_from(pid, links@, i as int, skills@, before[k - 1]));
                            }
                        }
                        assert forall|a: int, b: int| 0 <= a < b < out@.len() implies #[trigger] out@[a].id
                            != #[trigger] out@[b].id by {
                            if a < p && b < p {
                            } else if a < p && b == p {
                            } else if a < p {
                                assert(out@[b] == before[b - 1]);
                            } else if a == p {
                                assert(out@[b] == before[b - 1]);
                            } else {
                                assert(out@[b] == before[b - 1]);
                                assert(out@[a] == before[a - 1]);
                            }
                        }
                        assert forall|sid: i32|
                            #[trigger] linked_within(links@, i + 1, pid, sid) && !lacks_id(skills@, sid)
                            implies has_skill(out@, sid) by {
                            if sid == e.id {
                                assert(out@[p].id == sid);
                            } else {
                                let w = choose|w: int|
                                    0 <= w < i + 1 && #[trigger] links@[w] == (ProjectSkillLink {
                                        project_id: pid,
                                        skill_id: sid,
                                    });
                                assert(w != i);
                                assert(linked_within(links@, i as int, pid, sid));
                                let k = choose|k: int| 0 <= k < before.len() && #[trigger] before[k].id == sid;
                                if k < p {
                                    assert(out@[k].id == sid);
                                } else {
                                    assert(out@[k + 1].id == sid);
                                }
                            }
                        }
                    }
                },
                None => {},
            }
        }
        proof {
            assert forall|k: int| 0 <= k < out@.len() implies entry_from(
                pid,
                links@,
                i + 1,
                skills@,
                #[trigger] out@[k],
            ) by {
                if out@ == before {
                    assert(entry_from(pid, links@, i as int, skills@, before[k]));
                    let w = choose|w: int|
                        0 <= w < i && #[trigger] links@[w] == (ProjectSkillLink {
                            project_id: pid,
                            skill_id: before[k].id,
                        });
                    assert(0 <= w < i + 1);
                }
            }
            assert forall|sid: i32|
                #[trigger] linked_within(links@, i + 1, pid, sid) && !lacks_id(skills@, sid)
                implies has_skill(out@, sid) by {
                if out@ == before {
                    let w = choose|w: int|
                        0 <= w < i + 1 && #[trigger] links@[w] == (ProjectSkillLink {
                            project_id: pid,
                            skill_id: sid,
                        });
                    if w < i {
                        assert(linked_within(links@, i as int, pid, sid));
                    }
                }
            }
        }
        i = i + 1;
    }
    out
}


/// Which projects a listing selects.
#[derive(Debug, Clone, Copy, PartialEq, Eq, Structural)]
pub enum ProjectFilter {
    /// Every project.
    All,
    /// The project with this identifier.
    ById(i32),
    /// The projects tied to this job.
    ByJob(i32),
    /// The projects that a link ties to this skill.
    BySkill(i32),
}

impl ProjectFilter {
    pub open spec fn admits(self, p: ProjectRecord, links: Seq<ProjectSkillLink>) -> bool {
        match self {
            ProjectFilter::All => true,
            ProjectFilter::ById(id) => p.id == id,
            ProjectFilter::ByJob(job) => p.job_id == Some(job),
            ProjectFilter::BySkill(sid) => is_linked(links, p.id, sid),
        }
    }

    /// Whether the filter selects project row `p`.
    pub fn admits_record(&self, p: &ProjectRecord, links: &Vec<ProjectSkillLink>) -> (r: bool)
        ensures
            r == self.admits(*p, links@),
    {
        match self {
            ProjectFilter::All => true,
            ProjectFilter::ById(id) => p.id == *id,
            ProjectFilter::ByJob(job) => match p.job_id {
                Some(j) => j == *job,
                None => false,
            },
            ProjectFilter::BySkill(sid) => has_link(links, p.id, *sid),
        }
    }
}

/// Whether some link ties project `pid` to skill `sid`.
fn has_link(links: &Vec<ProjectSkillLink>, pid: i32, sid: i32) -> (r: bool)
    ensures
        r == is_linked(links@, pid, sid),
{
    let mut i: usize = 0;
    while i < links.len()
        invariant
            i <= links.len(),
            !linked_within(links@, i as int, pid, sid),
        decreases links.len() - i,
    {
        if links[i].project_id == pid && links[i].skill_id == sid {
            assert(links@[i as int] == ProjectSkillLink { project_id: pid, skill_id: sid });
            return true;
        }
        i = i + 1;
    }
    false
}

/// The project row that a project was built from.
pub open spec fn record_of(p: Project) -> ProjectRecord {
    ProjectRecord {
        id: p.id,
        name: p.name,
        description: p.description,
        github_url: p.github_url,
        job_id: p.job_id,
    }
}

/// The project rows that a filter selects, in their stored order.
pub open spec fn selected(
    filter: ProjectFilter,
    projects: Seq<ProjectRecord>,
    links: Seq<ProjectSkillLink>,
) -> Seq<ProjectRecord> {
    projects.filter(|p: ProjectRecord| filter.admits(p, links))
}

/// Every project holds its own nested skill list.
pub open spec fn all_nested(
    ps: Seq<Project>,
    links: Seq<ProjectSkillLink>,
    skills: Seq<SkillRecord>,
) -> bool {
    forall|k: int|
        0 <= k < ps.len() ==> skills_of_project(
            #[trigger] ps[k].id,
            links,
            skills,
            ps[k].skills@,
        )
}

/// Project row `rec` with its skills nested in it.
pub fn assemble_project(
    rec: &ProjectRecord,
    links: &Vec<ProjectSkillLink>,
    skills: &Vec<SkillRecord>,
) -> (r: Project)
    ensures
        record_of(r) == *rec,
        skills_of_project(rec.id, links@, skills@, r.skills@),
{
    let github_url = match &rec.github_url {
        Some(u) => Some(u.clone()),
        None => None,
    };
    Project {
        id: rec.id,
        name: rec.name.clone(),
        description: rec.description.clone(),
        github_url,
        job_id: rec.job_id,
        skills: nest_skills(rec.id, links, skills),
    }
}

/// The projects that `filter` selects, by ascending identifier, each with
/// its skills nested in it.
pub fn select_projects(
    filter: ProjectFilter,
    projects: &Vec<ProjectRecord>,
    links: &Vec<ProjectSkillLink>,
    skills: &Vec<SkillRecord>,
) -> (r: Vec<Project>)
    ensures
        r@.map_values(|p: Project| record_of(p)).to_multiset() == selected(
            filter,
            projects@,
            links@,
        ).to_multiset(),
        sorted_by_id(r@),
        all_nested(r@, links@, skills@),
        forall|k: int| 0 <= k < r@.len() ==> filter.admits(record_of(#[trigger] r@[k]), links@),
{
    let ghost pred = |p: ProjectRecord| filter.admits(p, links@);
    let ghost rec = |p: Project| record_of(p);
    let mut out: Vec<Project> = Vec::new();
    let mut i: usize = 0;
    while i < projects.len()
        invariant
            i <= projects.len(),
            pred == (|p: ProjectRecord| filter.admits(p, links@)),
            rec == (|p: Project| record_of(p)),
            out@.map_values(rec) == projects@.subrange(0, i as int).filter(pred),
            all_nested(out@, links@, skills@),
        decreases projects.len() - i,
    {
        let ghost prefix = projects@.subrange(0, i as int);
        assert(projects@.subrange(0, i + 1) =~= prefix.push(projects@[i as int]));
        proof {
            prefix.lemma_filter_push(projects@[i as int], pred);
        }
        if filter.admits_record(&projects[i], links) {
            let p = assemble_project(&projects[i], links, skills);
            let ghost o = out@;
            out.push(p);
            proof {
                o.lemma_push_map_commute(rec, p);
            }
        }
        i = i + 1;
    }
    assert(projects@.subrange(0, i as int) =~= projects@);
    let ghost unsorted = out@;
    let r = sort_by_id(out);
    proof {
        lemma_map_to_multiset(r@, unsorted, rec);
        assert forall|k: int| 0 <= k < r@.len() implies skills_of_project(
            #[trigger] r@[k].id,
            links@,
            skills@,
            r@[k].skills@,
        ) && filter.admits(record_of(r@[k]), links@) by {
            lemma_multiset_contains(r@, unsorted, k);
            let j = choose|j: int| 0 <= j < unsorted.len() && unsorted[j] == r@[k];
            assert(unsorted.map_values(rec)[j] == record_of(r@[k]));
            assert(projects@.filter(pred).contains(record_of(r@[k])));
            let m = choose|m: int| 0 <= m < projects@.filter(pred).len() && projects@.filter(pred)[m] == record_of(r@[k]);
            projects@.lemma_filter_pred(pred, m);
        }
    }
    r
}


/// Every project, by ascending identifier.
pub fn list_projects(
    projects: &Vec<ProjectRecord>,
    links: &Vec<ProjectSkillLink>,
    skills: &Vec<SkillRecord>,
) -> (r: Vec<Project>)
    ensures
        r@.map_values(|p: Project| record_of(p)).to_multiset() == projects@.to_multiset(),
        sorted_by_id(r@),
        all_nested(r@, links@, skills@),
{
    let r = select_projects(ProjectFilter::All, projects, links, skills);
    proof {
        lemma_select_all(projects@, links@);
    }
    r
}

/// The project with identifier `id`, or `None` when no row has it.
pub fn get_project(
    projects: &Vec<ProjectRecord>,
    links: &Vec<ProjectSkillLink>,
    skills: &Vec<SkillRecord>,
    id: i32,
) -> (r: Option<Project>)
    ensures
        r is None <==> lacks_id(projects@, id),
        r matches Some(p) ==> exists|i: int|
            is_first_with_id(projects@, id, i) && record_of(p) == #[trigger] projects@[i],
        r matches Some(p) ==> skills_of_project(id, links@, skills@, p.skills@),
{
    match find_by_id(projects, id) {
        Some(i) => Some(assemble_project(&projects[i], links, skills)),
        None => None,
    }
}

/// The projects tied to job `job_id`, by ascending identifier.
pub fn list_projects_by_job(
    projects: &Vec<ProjectRecord>,
    links: &Vec<ProjectSkillLink>,
    skills: &Vec<SkillRecord>,
    job_id: i32,
) -> (r: Vec<Project>)
    ensures
        r@.map_values(|p: Project| record_of(p)).to_multiset() == selected(
            ProjectFilter::ByJob(job_id),
            projects@,
            links@,
        ).to_multiset(),
        sorted_by_id(r@),
        all_nested(r@, links@, skills@),
        forall|k: int| 0 <= k < r@.len() ==> (#[trigger] r@[k]).job_id == Some(job_id),
{
    let r = select_projects(ProjectFilter::ByJob(job_id), projects, links, skills);
    assert forall|k: int| 0 <= k < r@.len() implies (#[trigger] r@[k]).job_id == Some(job_id) by {
        assert(ProjectFilter::ByJob(job_id).admits(record_of(r@[k]), links@));
    }
    r
}

/// The projects that a link ties to skill `skill_id`, by ascending
/// identifier, each with its full skill list.
pub fn list_projects_by_skill(
    projects: &Vec<ProjectRecord>,
    links: &Vec<ProjectSkillLink>,
    skills: &Vec<SkillRecord>,
    skill_id: i32,
) -> (r: Vec<Project>)
    ensures
        r@.map_values(|p: Project| record_of(p)).to_multiset() == selected(
            ProjectFilter::BySkill(skill_id),
            projects@,
            links@,
        ).to_multiset(),
        sorted_by_id(r@),
        all_nested(r@, links@, skills@),
        forall|k: int| 0 <= k < r@.len() ==> is_linked(links@, (#[trigger] r@[k]).id, skill_id),
        !lacks_id(skills@, skill_id) ==> forall|k: int|
            0 <= k < r@.len() ==> has_skill((#[trigger] r@[k]).skills@, skill_id),
{
    let r = select_projects(ProjectFilter::BySkill(skill_id), projects, links, skills);
    assert forall|k: int| 0 <= k < r@.len() implies is_linked(links@, (#[trigger] r@[k]).id, skill_id) by {
        assert(ProjectFilter::BySkill(skill_id).admits(record_of(r@[k]), links@));
    }
    r
}

/// Selecting every project selects each row, in its stored order.
pub proof fn lemma_select_all(projects: Seq<ProjectRecord>, links: Seq<ProjectSkillLink>)
    ensures
        selected(ProjectFilter::All, projects, links) == projects,
    decreases projects.len(),
{
    let pred = |p: ProjectRecord| ProjectFilter::All.admits(p, links);
    if projects.len() == 0 {
        assert(projects.filter(pred).len() <= projects.len()) by {
            projects.lemma_filter_len(pred);
        }
        assert(projects.filter(pred) =~= projects);
    } else {
        let init = projects.drop_last();
        lemma_select_all(init, links);
        init.lemma_filter_push(projects.last(), pred);
        assert(init.push(projects.last()) =~= projects);
    }
}

/// A project that no link names has an empty skill list.
pub proof fn lemma_unlinked_project_has_no_skills(
    pid: i32,
    links: Seq<ProjectSkillLink>,
    skills: Seq<SkillRecord>,
    s: Seq<Skill>,
)
    requires
        skills_of_project(pid, links, skills, s),
        forall|j: int| 0 <= j < links.len() ==> (#[trigger] links[j]).project_id != pid,
    ensures
        s.len() == 0,
{
    if s.len() > 0 {
        assert(entry_from(pid, links, links.len() as int, skills, s[0]));
        let w = choose|w: int|
            0 <= w < links.len() && #[trigger] links[w] == (ProjectSkillLink {
                project_id: pid,
                skill_id: s[0].id,
            });
        assert(links[w].project_id == pid);
    }
}

/// In every listing each project's skills come by ascending name, and no
/// skill comes twice.
pub proof fn lemma_listed_skills_by_name(
    ps: Seq<Project>,
    links: Seq<ProjectSkillLink>,
    skills: Seq<SkillRecord>,
    k: int,
)
    requires
        all_nested(ps, links, skills),
        0 <= k < ps.len(),
    ensures
        forall|i: int, j: int|
            0 <= i < j < ps[k].skills@.len() ==> lex_cmp(
                #[trigger] ps[k].skills@[i].name@,
                #[trigger] ps[k].skills@[j].name@,
            ) != Ordering::Greater && ps[k].skills@[i].id != ps[k].skills@[j].id,
{
    let s = ps[k].skills@;
    assert(skills_of_project(ps[k].id, links, skills, s));
    assert forall|i: int, j: int| 0 <= i < j < s.len() implies lex_cmp(
        #[trigger] s[i].name@,
        #[trigger] s[j].name@,
    ) != Ordering::Greater by {
        assert(name_before(s[i], s[j]));
        lemma_lex_cmp_flip(s[j].name@, s[i].name@);
        lemma_lex_cmp_equal(s[i].name@, s[j].name@);
    }
}

/// When skill `sid` has a row, each project that a link ties to it lists it.
pub proof fn lemma_linked_skill_is_listed(
    pid: i32,
    links: Seq<ProjectSkillLink>,
    skills: Seq<SkillRecord>,
    s: Seq<Skill>,
    sid: i32,
)
    requires
        skills_of_project(pid, links, skills, s),
        is_linked(links, pid, sid),
        !lacks_id(skills, sid),
    ensures
        has_skill(s, sid),
{
}

} // verus!
