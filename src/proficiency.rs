//! Proficiency levels and their storage labels.

use crate::text::text_equals;
use vstd::prelude::*;

verus! {

/// How well a skill is mastered.
#[derive(Debug, Clone, Copy, PartialEq, Eq, Structural)]
pub enum Proficiency {
    /// Basic understanding and ability to use the technology
    Beginner,
    /// Good understanding and practical experience with the technology
    Intermediate,
    /// Deep understanding and extensive experience with the technology
    Advanced,
    /// Mastery of the technology with ability to teach and innovate
    Expert,
}

/// The level a stored label names, if it names one. Labels are the variant
/// names, matched exactly.
pub open spec fn parse_proficiency(label: Seq<char>) -> Option<Proficiency> {
    if label == "Beginner"@ {
        Some(Proficiency::Beginner)
    } else if label == "Intermediate"@ {
        Some(Proficiency::Intermediate)
    } else if label == "Advanced"@ {
        Some(Proficiency::Advanced)
    } else if label == "Expert"@ {
        Some(Proficiency::Expert)
    } else {
        None
    }
}

/// The level a stored label names, or `Beginner` when it names none.
pub open spec fn proficiency_or_default(label: Seq<char>) -> Proficiency {
    match parse_proficiency(label) {
        Some(p) => p,
        None => Proficiency::Beginner,
    }
}

impl Proficiency {
    /// Reads a stored label; `None` when it is not one of the four names.
    pub fn from_label(label: &str) -> (r: Option<Proficiency>)
        ensures
            r == parse_proficiency(label@),
    {
        if text_equals(label, "Beginner") {
            Some(Proficiency::Beginner)
        } else if text_equals(label, "Intermediate") {
            Some(Proficiency::Intermediate)
        } else if text_equals(label, "Advanced") {
            Some(Proficiency::Advanced)
        } else if text_equals(label, "Expert") {
            Some(Proficiency::Expert)
        } else {
            None
        }
    }

    /// Reads a stored label, falling back to the default level on a label
    /// that names no level.
    pub fn from_label_or_default(label: &str) -> (r: Proficiency)
        ensures
            r == proficiency_or_default(label@),
    {
        match Proficiency::from_label(label) {
            Some(p) => p,
            None => Proficiency::default(),
        }
    }
}

impl Default for Proficiency {
    fn default() -> (r: Proficiency)
        ensures
            r == Proficiency::Beginner,
    {
        Proficiency::Beginner
    }
}

} // verus!
