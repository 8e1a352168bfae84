//! Feed-native document shapes: the structures a feed's XML text decodes
//! into, before any normalization.
use vstd::prelude::*;

verus! {

/// One whole feed document: its channels and their scheduled programs.
#[derive(Debug)]
pub struct XmlTv {
    pub channels: Vec<Channel>,
    pub programs: Vec<Program>,
}

/// A channel as a feed describes it.
#[derive(Debug)]
pub struct Channel {
    /// The feed-assigned business key (the `id` attribute)
    pub id: String,
    /// The display name element
    pub display_name: DisplayName,
    /// The icon element, when present
    pub icon: Option<Icon>,
}

/// The display name element of a channel.
#[derive(Debug)]
pub struct DisplayName {
    /// The element's text
    pub content: String,
}

/// A program as a feed describes it; timestamps are still text here.
#[derive(Debug)]
pub struct Program {
    /// The title element's text
    pub title: String,
    /// The sub-title elements' texts, when present
    pub sub_title: Option<Vec<String>>,
    /// The `start` attribute: `YYYYMMDDHHMMSS +HHMM`
    pub start: String,
    /// The `stop` attribute: `YYYYMMDDHHMMSS +HHMM`
    pub stop: String,
    /// The `channel` attribute: the owning channel's business key
    pub channel: String,
    /// The description element, when present
    pub description: Option<Description>,
    /// The category elements, when present
    pub categories: Option<Vec<Category>>,
    /// The icon elements, when present
    pub icon: Option<Vec<Icon>>,
    /// The episode number element, when present
    pub episode_number: Option<EpisodeNumber>,
    /// The rating element, when present
    pub rating: Option<Rating>,
}

/// A description element.
#[derive(Debug)]
pub struct Description {
    /// The `lang` attribute
    pub lang: String,
    /// The element's text, when present
    pub content: Option<String>,
}

/// A category element.
#[derive(Debug)]
pub struct Category {
    /// The `lang` attribute
    pub lang: String,
    /// The element's text, when present
    pub content: Option<String>,
}

/// An icon element.
#[derive(Debug)]
pub struct Icon {
    /// The `src` attribute
    pub src: String,
}

/// An episode number element.
#[derive(Debug)]
pub struct EpisodeNumber {
    /// The `system` attribute: which numbering scheme the value uses
    pub system: String,
    /// The element's text, when present
    pub content: Option<String>,
}

/// A rating element.
#[derive(Debug)]
pub struct Rating {
    /// The `system` attribute
    pub system: String,
    /// The value element, when present
    pub value: Option<RatingValue>,
    /// The icon element, when present
    pub icon: Option<Icon>,
}

/// The value element of a rating.
#[derive(Debug)]
pub struct RatingValue {
    /// The element's text, when present
    pub value: Option<String>,
}

} // verus!
