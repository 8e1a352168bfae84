//! Maps feed-native channels to canonical channel entities.
use crate::channel::{Channel as ChannelEntity, ChannelView};
use crate::models::Channel as ChannelModel;
use vstd::prelude::*;

verus! {

/// `c` is the canonical entity for the feed channel `m`: business key and
/// name pass through, a missing icon becomes the empty string, and the
/// surrogate id is left for the store to assign.
pub open spec fn converted_channel(m: ChannelModel, c: ChannelView) -> bool {
    &&& c.id == 0
    &&& c.channel_id == m.id@
    &&& c.name == m.display_name.content@
    &&& c.icon_url == match m.icon {
        Some(icon) => icon.src@,
        None => Seq::<char>::empty(),
    }
}

/// Converts one feed channel to its canonical entity.
pub fn model_to_entity(model: ChannelModel) -> (r: ChannelEntity)
    ensures
        converted_channel(model, r@),
{
    let ChannelModel { id, display_name, icon } = model;
    ChannelEntity {
        id: 0,
        channel_id: id,
        name: display_name.content,
        icon_url: match icon {
            Some(i) => i.src,
            None => String::new(),
        },
    }
}

/// Converts a whole feed's channels, in feed order, dropping none.
pub fn models_to_entities(models: Vec<ChannelModel>) -> (r: Vec<ChannelEntity>)
    ensures
        r@.len() == models@.len(),
        forall|i: int| 0 <= i < models@.len() ==> converted_channel(models@[i], #[trigger] r@[i]@),
{
    let ghost orig = models@;
    let mut rest = models;
    let mut rev: Vec<ChannelEntity> = Vec::new();
    while rest.len() > 0
        invariant
            rest@.len() + rev@.len() == orig.len(),
            rest@ == orig.take(rest@.len() as int),
            forall|j: int|
                0 <= j < rev@.len() ==> converted_channel(
                    orig[orig.len() - 1 - j],
                    #[trigger] rev@[j]@,
                ),
        decreases rest.len(),
    {
        let ghost k = rest@.len() as int;
        let m = rest.pop().unwrap();
        proof {
            assert(rest@ =~= orig.take(k - 1));
            assert(m == orig[k - 1]);
        }
        rev.push(model_to_entity(m));
    }
    let mut out: Vec<ChannelEntity> = Vec::new();
    while rev.len() > 0
        invariant
            rev@.len() + out@.len() == orig.len(),
            forall|j: int|
                0 <= j < rev@.len() ==> converted_channel(
                    orig[orig.len() - 1 - j],
                    #[trigger] rev@[j]@,
                ),
            forall|k: int|
                0 <= k < out@.len() ==> converted_channel(orig[k], #[trigger] out@[k]@),
        decreases rev.len(),
    {
        let e = rev.pop().unwrap();
        out.push(e);
    }
    out
}

} // verus!
