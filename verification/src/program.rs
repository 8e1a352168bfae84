//! The canonical program entity: one scheduled broadcast on one channel.
use crate::rating::{Rating, RatingView};
use crate::timestamp::Timestamp;
use vstd::prelude::*;

verus! {

/// Mathematical image of a [`Program`].
pub ghost struct ProgramView {
    pub id: int,
    pub channel_id: Seq<char>,
    pub start_time: Timestamp,
    pub end_time: Timestamp,
    pub title: Seq<char>,
    pub sub_title: Option<Seq<char>>,
    pub description: Option<Seq<char>>,
    pub categories: Option<Seq<Seq<char>>>,
    pub icon_url: Option<Seq<char>>,
    pub episode_num: Option<Seq<char>>,
    pub rating: Option<RatingView>,
}

/// A scheduled program of a channel.
#[derive(Debug, PartialEq)]
pub struct Program {
    /// The surrogate id assigned by the store on insert (0 before then)
    pub id: i32,
    /// The business key of the channel this program belongs to
    pub channel_id: String,
    /// The start of the broadcast
    pub start_time: Timestamp,
    /// The end of the broadcast
    pub end_time: Timestamp,
    /// The title of the program
    pub title: String,
    /// The subtitle of the program
    pub sub_title: Option<String>,
    /// The description of the program
    pub description: Option<String>,
    /// The categories of the program
    pub categories: Option<Vec<String>>,
    /// The URL of the program's icon
    pub icon_url: Option<String>,
    /// The episode number of the program, in a feed-system-specific shape
    pub episode_num: Option<String>,
    /// The rating of the program
    pub rating: Option<Rating>,
}

impl View for Program {
    type V = ProgramView;

    open spec fn view(&self) -> ProgramView {
        ProgramView {
            id: self.id as int,
            channel_id: self.channel_id@,
            start_time: self.start_time,
            end_time: self.end_time,
            title: self.title@,
            sub_title: match self.sub_title {
                Some(s) => Some(s@),
                None => None,
            },
            description: match self.description {
                Some(s) => Some(s@),
                None => None,
            },
            categories: match self.categories {
                Some(v) => Some(v.deep_view()),
                None => None,
            },
            icon_url: match self.icon_url {
                Some(s) => Some(s@),
                None => None,
            },
            episode_num: match self.episode_num {
                Some(s) => Some(s@),
                None => None,
            },
            rating: match self.rating {
                Some(r) => Some(r@),
                None => None,
            },
        }
    }
}

impl Clone for Program {
    fn clone(&self) -> (r: Self)
        ensures
            r@ == self@,
    {
        let r = Program {
            id: self.id,
            channel_id: self.channel_id.clone(),
            start_time: self.start_time,
            end_time: self.end_time,
            title: self.title.clone(),
            sub_title: match &self.sub_title {
                Some(s) => Some(s.clone()),
                None => None,
            },
            description: match &self.description {
                Some(s) => Some(s.clone()),
                None => None,
            },
            categories: match &self.categories {
                Some(v) => Some(v.clone()),
                None => None,
            },
            icon_url: match &self.icon_url {
                Some(s) => Some(s.clone()),
                None => None,
            },
            episode_num: match &self.episode_num {
                Some(s) => Some(s.clone()),
                None => None,
            },
            rating: match &self.rating {
                Some(x) => Some(x.clone()),
                None => None,
            },
        };
        proof {
            assert(r@ == self@) by {
                match self.categories {
                    Some(v) => {
                        assert(r.categories matches Some(w) && w.deep_view() =~~= v.deep_view());
                    },
                    None => {},
                }
            }
        }
        r
    }
}

} // verus!
