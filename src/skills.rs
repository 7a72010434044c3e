//! Skills: stored rows, the entity clients see, and the two read operations.

use crate::ordering::{
    find_by_id, is_first_with_id, lacks_id, lemma_multiset_contains, sort_by_id, sorted_by_id,
    Identified,
};
use crate::proficiency::{parse_proficiency, proficiency_or_default, Proficiency};
use vstd::prelude::*;

verus! {

/// A technology or tool, with how well it is mastered.
#[derive(Debug, Clone, PartialEq, Eq)]
pub struct Skill {
    /// Unique identifier for the technology
    pub id: i32,
    /// Name of the technology
    pub name: String,
    /// Description of the technology
    pub description: String,
    /// Official website URL for the technology
    pub official_site_url: String,
    /// Proficiency level in the technology
    pub proficiency: Proficiency,
    /// The broader skill this one belongs to, if any
    pub parent_id: Option<i32>,
}

/// A row of the skills relation as storage hands it over: the proficiency
/// is still its stored label.
#[derive(Debug, Clone, PartialEq, Eq)]
pub struct SkillRecord {
    pub id: i32,
    pub name: String,
    pub description: String,
    pub official_site_url: String,
    pub proficiency: String,
    pub parent_id: Option<i32>,
}

/// A technology known only by identifier and name.
#[derive(Debug, Clone, PartialEq, Eq)]
pub struct Technology {
    /// Unique identifier for the technology
    pub id: i32,
    /// Name of the technology
    pub name: String,
}

impl Identified for Skill {
    open spec fn spec_id(&self) -> i32 {
        self.id
    }

    fn id_of(&self) -> (r: i32) {
        self.id
    }
}

impl Identified for SkillRecord {
    open spec fn spec_id(&self) -> i32 {
        self.id
    }

    fn id_of(&self) -> (r: i32) {
        self.id
    }
}

impl SkillRecord {
    /// The skill this row stands for. An unknown proficiency label becomes
    /// the default level; every other field is taken as it is.
    pub open spec fn decoded(self) -> Skill {
        Skill {
            id: self.id,
            name: self.name,
            description: self.description,
            official_site_url: self.official_site_url,
            proficiency: proficiency_or_default(self.proficiency@),
            parent_id: self.parent_id,
        }
    }

    /// Whether the stored proficiency label names a level; when it does not,
    /// decoding substitutes the default.
    pub fn has_known_proficiency(&self) -> (r: bool)
        ensures
            r == parse_proficiency(self.proficiency@).is_some(),
    {
        Proficiency::from_label(self.proficiency.as_str()).is_some()
    }

    /// Decodes the row.
    pub fn to_skill(&self) -> (r: Skill)
        ensures
            r == self.decoded(),
    {
        Skill {
            id: self.id,
            name: self.name.clone(),
            description: self.description.clone(),
            official_site_url: self.official_site_url.clone(),
            proficiency: Proficiency::from_label_or_default(self.proficiency.as_str()),
            parent_id: self.parent_id,
        }
    }
}

/// Each row decoded on its own.
pub open spec fn decode_all(rows: Seq<SkillRecord>) -> Seq<Skill> {
    rows.map_values(|r: SkillRecord| r.decoded())
}

/// All skills, by ascending identifier. Every row gives exactly one skill,
/// whatever the other rows hold.
pub fn list_skills(rows: &Vec<SkillRecord>) -> (r: Vec<Skill>)
    ensures
        r@.to_multiset() == decode_all(rows@).to_multiset(),
        sorted_by_id(r@),
{
    let mut decoded: Vec<Skill> = Vec::new();
    let mut i: usize = 0;
    while i < rows.len()
        invariant
            i <= rows.len(),
            decoded@ == decode_all(rows@.subrange(0, i as int)),
        decreases rows.len() - i,
    {
        decoded.push(rows[i].to_skill());
        assert(rows@.subrange(0, i + 1) =~= rows@.subrange(0, i as int).push(rows@[i as int]));
        i = i + 1;
        assert(decoded@ =~= decode_all(rows@.subrange(0, i as int)));
    }
    assert(rows@.subrange(0, i as int) =~= rows@);
    sort_by_id(decoded)
}

/// The skill with identifier `id`, or `None` when no row has it.
pub fn get_skill(rows: &Vec<SkillRecord>, id: i32) -> (r: Option<Skill>)
    ensures
        r is None <==> lacks_id(rows@, id),
        r matches Some(s) ==> exists|i: int|
            is_first_with_id(rows@, id, i) && s == #[trigger] rows@[i].decoded(),
{
    match find_by_id(rows, id) {
        Some(i) => Some(rows[i].to_skill()),
        None => None,
    }
}


/// Each row of a listing is decoded on its own: every row, whether or not its
/// proficiency label is known, yields its own decoded skill in the result.
pub proof fn lemma_each_row_listed(rows: Seq<SkillRecord>, listed: Seq<Skill>, i: int)
    requires
        listed.to_multiset() == decode_all(rows).to_multiset(),
        0 <= i < rows.len(),
    ensures
        listed.contains(rows[i].decoded()),
        parse_proficiency(rows[i].proficiency@) is None ==> listed.contains(
            (Skill { proficiency: Proficiency::Beginner, ..rows[i].decoded() }),
        ),
{
    lemma_multiset_contains(decode_all(rows), listed, i);
}

} // verus!
