//! The rating attached to a program: a value object always embedded in a
//! program, with each sub-field independently optional.
use vstd::prelude::*;

verus! {

/// Mathematical image of a [`Rating`].
pub ghost struct RatingView {
    pub system: Option<Seq<char>>,
    pub value: Option<Seq<char>>,
    pub icon: Option<Seq<char>>,
}

/// A program rating, e.g. a parental guidance classification.
#[derive(Debug, PartialEq)]
pub struct Rating {
    /// The system of the rating (e.g., "MPAA", "TVPG")
    pub system: Option<String>,
    /// The value of the rating (e.g., "PG-13", "R")
    pub value: Option<String>,
    /// The icon associated with the rating, if any
    pub icon: Option<String>,
}

impl View for Rating {
    type V = RatingView;

    open spec fn view(&self) -> RatingView {
        RatingView {
            system: match self.system {
                Some(s) => Some(s@),
                None => None,
            },
            value: match self.value {
                Some(s) => Some(s@),
                None => None,
            },
            icon: match self.icon {
                Some(s) => Some(s@),
                None => None,
            },
        }
    }
}

impl Clone for Rating {
    fn clone(&self) -> (r: Self)
        ensures
            r == *self,
    {
        Rating {
            system: match &self.system {
                Some(s) => Some(s.clone()),
                None => None,
            },
            value: match &self.value {
                Some(s) => Some(s.clone()),
                None => None,
            },
            icon: match &self.icon {
                Some(s) => Some(s.clone()),
                None => None,
            },
        }
    }
}

} // verus!
