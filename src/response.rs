//! How the result of a read operation maps to an HTTP status.

use vstd::prelude::*;

verus! {

/// What a read operation came to.
#[derive(Debug, Clone, Copy, PartialEq, Eq, Structural)]
pub enum Outcome {
    /// A listing, or a lookup that found its entity.
    Found,
    /// A lookup whose query ran and matched no row.
    NotFound,
    /// The connection or the query failed.
    StorageError,
}

pub open spec fn spec_status(o: Outcome) -> u16 {
    match o {
        Outcome::Found => 200,
        Outcome::NotFound => 404,
        Outcome::StorageError => 500,
    }
}

impl Outcome {
    /// The outcome of a lookup whose query ran: found or not found.
    pub fn of_lookup<T>(r: &Option<T>) -> (o: Outcome)
        ensures
            o == (if r.is_some() {
                Outcome::Found
            } else {
                Outcome::NotFound
            }),
    {
        match r {
            Some(_) => Outcome::Found,
            None => Outcome::NotFound,
        }
    }

    /// The HTTP status that answers this outcome.
    pub fn http_status(&self) -> (r: u16)
        ensures
            r == spec_status(*self),
    {
        match self {
            Outcome::Found => 200,
            Outcome::NotFound => 404,
            Outcome::StorageError => 500,
        }
    }
}

} // verus!
