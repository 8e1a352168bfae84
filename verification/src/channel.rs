//! The canonical channel entity: one row per distinct business key in the
//! catalog.
use vstd::prelude::*;

verus! {

/// Mathematical image of a [`Channel`].
pub ghost struct ChannelView {
    pub id: int,
    pub channel_id: Seq<char>,
    pub name: Seq<char>,
    pub icon_url: Seq<char>,
}

/// A television channel of the catalog.
#[derive(Debug, PartialEq)]
pub struct Channel {
    /// The surrogate id assigned by the store on insert (0 before then)
    pub id: i32,
    /// The unique business key for the channel
    pub channel_id: String,
    /// The name of the channel
    pub name: String,
    /// The URL of the channel's icon, empty when the feed carried none
    pub icon_url: String,
}

impl View for Channel {
    type V = ChannelView;

    open spec fn view(&self) -> ChannelView {
        ChannelView {
            id: self.id as int,
            channel_id: self.channel_id@,
            name: self.name@,
            icon_url: self.icon_url@,
        }
    }
}

impl Clone for Channel {
    fn clone(&self) -> (r: Self)
        ensures
            r == *self,
    {
        Channel {
            id: self.id,
            channel_id: self.channel_id.clone(),
            name: self.name.clone(),
            icon_url: self.icon_url.clone(),
        }
    }
}

} // verus!
