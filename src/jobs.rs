//! Jobs: the entity and the two read operations.

use crate::date::CalendarDate;
use crate::ordering::{find_by_id, is_first_with_id, lacks_id, sort_by_id, sorted_by_id, Identified};
use vstd::prelude::*;

verus! {

/// A position held, with its dates. An absent end date means the job is
/// ongoing; the current-job flag is taken from storage as it is.
#[derive(Debug, Clone, PartialEq, Eq)]
pub struct Job {
    pub id: i32,
    pub start_date: CalendarDate,
    pub end_date: Option<CalendarDate>,
    pub is_current_job: bool,
    pub company_name: String,
    pub company_website: String,
    pub description: String,
    pub roles: String,
    pub responsibilities: String,
}

impl Identified for Job {
    open spec fn spec_id(&self) -> i32 {
        self.id
    }

    fn id_of(&self) -> (r: i32) {
        self.id
    }
}

/// All jobs, by ascending identifier.
pub fn list_jobs(rows: Vec<Job>) -> (r: Vec<Job>)
    ensures
        r@.to_multiset() == rows@.to_multiset(),
        sorted_by_id(r@),
{
    sort_by_id(rows)
}

/// The job with identifier `id`, or `None` when no row has it.
pub fn get_job(rows: Vec<Job>, id: i32) -> (r: Option<Job>)
    ensures
        r is None <==> lacks_id(rows@, id),
        r matches Some(j) ==> exists|i: int| is_first_with_id(rows@, id, i) && j == #[trigger] rows@[i],
{
    let mut rows = rows;
    match find_by_id(&rows, id) {
        Some(i) => {
            let ghost before = rows@;
            let j = rows.remove(i);
            assert(is_first_with_id(before, id, i as int) && j == before[i as int]);
            Some(j)
        },
        None => None,
    }
}

} // verus!
