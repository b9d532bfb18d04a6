//! A client's subscriptions: for each channel id at most one client-chosen subscription id.
//!
//! They are kept as a vector with unique channel ids: an unsubscribe selects entries by the
//! client's id, the value, so it walks every entry in any case, and a vector gives that walk
//! an order the contracts can follow.

use vstd::prelude::*;

verus! {

/// One subscription of a client: the broker's channel id and the id the client chose for it.
#[derive(Clone, Copy, Debug, PartialEq, Eq, Structural)]
pub struct Subscription {
    pub channel_id: usize,
    pub subscription_id: u32,
}

/// The subscription id held for `channel_id`, if any (a later entry wins over an earlier one).
pub open spec fn lookup(s: Seq<Subscription>, channel_id: usize) -> Option<u32>
    decreases s.len(),
{
    if s.len() == 0 {
        None
    } else if s.last().channel_id == channel_id {
        Some(s.last().subscription_id)
    } else {
        lookup(s.drop_last(), channel_id)
    }
}

/// No channel id occurs twice.
pub open spec fn unique_channels(s: Seq<Subscription>) -> bool
    decreases s.len(),
{
    s.len() == 0 || (unique_channels(s.drop_last()) && lookup(s.drop_last(), s.last().channel_id)
        is None)
}

/// `s` without the entries for `channel_id`, in order.
pub open spec fn without_channel(s: Seq<Subscription>, channel_id: usize) -> Seq<Subscription>
    decreases s.len(),
{
    if s.len() == 0 {
        s
    } else if s.last().channel_id == channel_id {
        without_channel(s.drop_last(), channel_id)
    } else {
        without_channel(s.drop_last(), channel_id).push(s.last())
    }
}

/// `s` without the entries whose subscription id is in `ids`, in order.
pub open spec fn without_ids(s: Seq<Subscription>, ids: Seq<u32>) -> Seq<Subscription>
    decreases s.len(),
{
    if s.len() == 0 {
        s
    } else if ids.contains(s.last().subscription_id) {
        without_ids(s.drop_last(), ids)
    } else {
        without_ids(s.drop_last(), ids).push(s.last())
    }
}

/// `s` after subscribing `channel_id` under `subscription_id`.
pub open spec fn with_subscription(s: Seq<Subscription>, channel_id: usize, subscription_id: u32) -> Seq<Subscription> {
    without_channel(s, channel_id).push(Subscription { channel_id, subscription_id })
}

pub proof fn lemma_lookup_without_channel(s: Seq<Subscription>, channel_id: usize, c: usize)
    ensures
        lookup(without_channel(s, channel_id), c) == if c == channel_id {
            None
        } else {
            lookup(s, c)
        },
        unique_channels(s) ==> unique_channels(without_channel(s, channel_id)),
    decreases s.len(),
{
    if s.len() > 0 {
        lemma_lookup_without_channel(s.drop_last(), channel_id, c);
        lemma_lookup_without_channel(s.drop_last(), channel_id, s.last().channel_id);
        let w = without_channel(s.drop_last(), channel_id);
        if s.last().channel_id != channel_id {
            assert(w.push(s.last()).drop_last() =~= w);
        }
    }
}

/// After a subscribe the channel maps to the new id, every other channel keeps its entry, and
/// channel ids stay unique.
pub proof fn lemma_with_subscription(s: Seq<Subscription>, channel_id: usize, subscription_id: u32, c: usize)
    ensures
        lookup(with_subscription(s, channel_id, subscription_id), c) == if c == channel_id {
            Some(subscription_id)
        } else {
            lookup(s, c)
        },
        unique_channels(s) ==> unique_channels(with_subscription(s, channel_id, subscription_id)),
{
    let w = without_channel(s, channel_id);
    lemma_lookup_without_channel(s, channel_id, c);
    lemma_lookup_without_channel(s, channel_id, channel_id);
    assert(w.push(Subscription { channel_id, subscription_id }).drop_last() =~= w);
}

/// After an unsubscribe a channel keeps its entry exactly when that entry's id is not among
/// `ids`; channel ids stay unique.
pub proof fn lemma_lookup_without_ids(s: Seq<Subscription>, ids: Seq<u32>, c: usize)
    requires
        unique_channels(s),
    ensures
        lookup(without_ids(s, ids), c) == match lookup(s, c) {
            Some(x) => if ids.contains(x) {
                None
            } else {
                Some(x)
            },
            None => None,
        },
        unique_channels(without_ids(s, ids)),
    decreases s.len(),
{
    if s.len() > 0 {
        lemma_lookup_without_ids(s.drop_last(), ids, c);
        lemma_lookup_without_ids(s.drop_last(), ids, s.last().channel_id);
        let w = without_ids(s.drop_last(), ids);
        if !ids.contains(s.last().subscription_id) {
            assert(w.push(s.last()).drop_last() =~= w);
        }
    }
}

/// The entry for `channel_id`, if any.
pub fn find_subscription(subs: &Vec<Subscription>, channel_id: usize) -> (r: Option<u32>)
    ensures
        r == lookup(subs@, channel_id),
{
    let mut found: Option<u32> = None;
    let mut i: usize = 0;
    while i < subs.len()
        invariant
            i <= subs@.len(),
            found == lookup(subs@.subrange(0, i as int), channel_id),
        decreases subs@.len() - i,
    {
        if subs[i].channel_id == channel_id {
            found = Some(subs[i].subscription_id);
        }
        assert(subs@.subrange(0, i + 1).drop_last() =~= subs@.subrange(0, i as int));
        i = i + 1;
    }
    assert(subs@.subrange(0, subs@.len() as int) =~= subs@);
    found
}

/// Records `subscription_id` for `channel_id`, replacing any earlier entry for that channel.
pub fn set_subscription(subs: &mut Vec<Subscription>, channel_id: usize, subscription_id: u32)
    ensures
        final(subs)@ == with_subscription(old(subs)@, channel_id, subscription_id),
{
    let mut kept: Vec<Subscription> = Vec::new();
    let mut i: usize = 0;
    while i < subs.len()
        invariant
            i <= subs@.len(),
            kept@ == without_channel(subs@.subrange(0, i as int), channel_id),
        decreases subs@.len() - i,
    {
        let s = subs[i];
        if s.channel_id != channel_id {
            kept.push(s);
        }
        assert(subs@.subrange(0, i + 1).drop_last() =~= subs@.subrange(0, i as int));
        i = i + 1;
    }
    assert(subs@.subrange(0, subs@.len() as int) =~= subs@);
    kept.push(Subscription { channel_id, subscription_id });
    *subs = kept;
}

/// Whether `ids` holds `x`.
pub fn contains_id(ids: &Vec<u32>, x: u32) -> (r: bool)
    ensures
        r == ids@.contains(x),
{
    let mut i: usize = 0;
    while i < ids.len()
        invariant
            i <= ids@.len(),
            forall|j: int| 0 <= j < i ==> ids@[j] != x,
        decreases ids@.len() - i,
    {
        if ids[i] == x {
            return true;
        }
        i = i + 1;
    }
    false
}

/// Drops every entry whose subscription id is in `ids`.
pub fn remove_subscriptions(subs: &mut Vec<Subscription>, ids: &Vec<u32>)
    ensures
        final(subs)@ == without_ids(old(subs)@, ids@),
{
    let mut kept: Vec<Subscription> = Vec::new();
    let mut i: usize = 0;
    while i < subs.len()
        invariant
            i <= subs@.len(),
            kept@ == without_ids(subs@.subrange(0, i as int), ids@),
        decreases subs@.len() - i,
    {
        let s = subs[i];
        if !contains_id(ids, s.subscription_id) {
            kept.push(s);
        }
        assert(subs@.subrange(0, i + 1).drop_last() =~= subs@.subrange(0, i as int));
        i = i + 1;
    }
    assert(subs@.subrange(0, subs@.len() as int) =~= subs@);
    *subs = kept;
}

} // verus!
