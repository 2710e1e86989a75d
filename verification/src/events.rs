//! Decisions taken on gateway events: whether a member update earns a boost
//! announcement, and which fields of a channel changed in an update. The
//! host framework delivers the events and performs the sends; this module
//! owns the decisions, on plain values.

use vstd::prelude::*;

use crate::config::ConfigData;

verus! {

/// One observable difference between two states of a channel, in the order
/// the audit message reports them.
#[derive(Clone, Copy, Debug, PartialEq, Eq, Structural)]
pub enum ChannelChange {
    Name,
    Topic,
    Nsfw,
    Slowmode,
}

/// What an update event reports of a channel, reduced to plain values: the
/// name and topic as bytes, the age-restriction flag, and the slowmode
/// interval.
pub struct ChannelState {
    pub name: Vec<u8>,
    pub topic: Option<Vec<u8>>,
    pub nsfw: bool,
    pub rate_limit_per_user: Option<u64>,
}

/// The topic as an abstract value.
pub open spec fn topic_view(t: Option<Vec<u8>>) -> Option<Seq<u8>> {
    match t {
        None => None,
        Some(v) => Some(v@),
    }
}

/// The differences between two channel states, reported in the fixed order
/// name, topic, age restriction, slowmode.
pub open spec fn changes_of(before: ChannelState, after: ChannelState) -> Seq<ChannelChange> {
    let s = Seq::<ChannelChange>::empty();
    let s = if before.name@ != after.name@ {
        s.push(ChannelChange::Name)
    } else {
        s
    };
    let s = if topic_view(before.topic) != topic_view(after.topic) {
        s.push(ChannelChange::Topic)
    } else {
        s
    };
    let s = if before.nsfw != after.nsfw {
        s.push(ChannelChange::Nsfw)
    } else {
        s
    };
    if before.rate_limit_per_user != after.rate_limit_per_user {
        s.push(ChannelChange::Slowmode)
    } else {
        s
    }
}

fn bytes_eq(a: &[u8], b: &[u8]) -> (r: bool)
    ensures
        r == (a@ == b@),
{
    if a.len() != b.len() {
        return false;
    }
    let mut k: usize = 0;
    while k < a.len()
        invariant
            0 <= k <= a@.len(),
            a@.len() == b@.len(),
            forall|m: int| 0 <= m < k ==> a@[m] == b@[m],
        decreases a@.len() - k,
    {
        if a[k] != b[k] {
            return false;
        }
        k = k + 1;
    }
    proof {
        assert(a@ =~= b@);
    }
    true
}

fn topic_eq(a: &Option<Vec<u8>>, b: &Option<Vec<u8>>) -> (r: bool)
    ensures
        r == (topic_view(*a) == topic_view(*b)),
{
    match (a, b) {
        (None, None) => true,
        (Some(x), Some(y)) => bytes_eq(x.as_slice(), y.as_slice()),
        _ => false,
    }
}

fn opt_u64_eq(a: &Option<u64>, b: &Option<u64>) -> (r: bool)
    ensures
        r == (*a == *b),
{
    match (a, b) {
        (None, None) => true,
        (Some(x), Some(y)) => *x == *y,
        _ => false,
    }
}

/// The differences a channel update shows, exactly those of `changes_of`.
pub fn channel_changes(before: &ChannelState, after: &ChannelState) -> (r: Vec<ChannelChange>)
    ensures
        r@ == changes_of(*before, *after),
{
    let mut r: Vec<ChannelChange> = Vec::new();
    if !bytes_eq(before.name.as_slice(), after.name.as_slice()) {
        r.push(ChannelChange::Name);
    }
    if !topic_eq(&before.topic, &after.topic) {
        r.push(ChannelChange::Topic);
    }
    if before.nsfw != after.nsfw {
        r.push(ChannelChange::Nsfw);
    }
    if !opt_u64_eq(&before.rate_limit_per_user, &after.rate_limit_per_user) {
        r.push(ChannelChange::Slowmode);
    }
    proof {
        assert(r@ =~= changes_of(*before, *after));
    }
    r
}

/// The message that triggers the ping command: `!ping`.
pub open spec fn ping_text() -> Seq<u8> {
    seq![33u8, 112u8, 105u8, 110u8, 103u8]
}

/// The ping command's reply: `Pong!`.
pub open spec fn pong_text() -> Seq<u8> {
    seq![80u8, 111u8, 110u8, 103u8, 33u8]
}

/// The ping command: reply `Pong!` to exactly the message `!ping`, and stay
/// silent on anything else.
pub fn ping_reply(content: &[u8]) -> (r: Option<Vec<u8>>)
    ensures
        content@ == ping_text() ==> (r matches Some(v) && v@ == pong_text()),
        content@ != ping_text() ==> r is None,
{
    let mut ping: Vec<u8> = Vec::new();
    ping.push(33);
    ping.push(112);
    ping.push(105);
    ping.push(110);
    ping.push(103);
    proof {
        assert(ping@ =~= ping_text());
    }
    if bytes_eq(content, ping.as_slice()) {
        let mut pong: Vec<u8> = Vec::new();
        pong.push(80);
        pong.push(111);
        pong.push(110);
        pong.push(103);
        pong.push(33);
        proof {
            assert(pong@ =~= pong_text());
        }
        Some(pong)
    } else {
        None
    }
}

/// The boost announcement decision for a member update: the channel to
/// announce to, exactly when one is configured, the update carries a member
/// whose boost is active, and no earlier member state was available.
pub fn boost_announcement(
    config: &ConfigData,
    new_member_present: bool,
    premium_since_set: bool,
    old_available: bool,
) -> (r: Option<u64>)
    ensures
        r == (if new_member_present && premium_since_set && !old_available {
            config.boost_channel
        } else {
            None::<u64>
        }),
{
    if new_member_present && premium_since_set && !old_available {
        config.boost_channel
    } else {
        None
    }
}

} // verus!
