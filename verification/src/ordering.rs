//! How performance records compare: they are ordered by score, and they count
//! as equal when they are about the same word.

use crate::results::ExerciseResults;
use std::cmp::Ordering;
use vstd::prelude::*;
use vstd::std_specs::cmp::PartialEqSpecImpl;
use vstd::std_specs::cmp::PartialOrdSpecImpl;

verus! {

impl PartialEq for ExerciseResults {
    fn eq(&self, other: &Self) -> (r: bool) {
        self.word == other.word
    }
}

impl PartialEqSpecImpl for ExerciseResults {
    open spec fn obeys_eq_spec() -> bool {
        true
    }

    open spec fn eq_spec(&self, other: &Self) -> bool {
        self.word@ == other.word@
    }
}

impl Eq for ExerciseResults {

}

impl PartialOrd for ExerciseResults {
    fn partial_cmp(&self, other: &Self) -> (r: Option<Ordering>) {
        let mine = self.score();
        let theirs = other.score();
        if mine < theirs {
            Some(Ordering::Less)
        } else if mine == theirs {
            Some(Ordering::Equal)
        } else {
            Some(Ordering::Greater)
        }
    }
}

impl PartialOrdSpecImpl for ExerciseResults {
    open spec fn obeys_partial_cmp_spec() -> bool {
        true
    }

    open spec fn partial_cmp_spec(&self, other: &Self) -> Option<Ordering> {
        if self@.score() < other@.score() {
            Some(Ordering::Less)
        } else if self@.score() == other@.score() {
            Some(Ordering::Equal)
        } else {
            Some(Ordering::Greater)
        }
    }
}

} // verus!
