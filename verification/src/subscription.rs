//! The subscription registry: which session listens on which channel with
//! which parameters, and who is told when data changes.

use vstd::pervasive::VecAdditionalExecFns;
use vstd::prelude::*;

verus! {

/// A channel a client can subscribe to. The transaction and portfolio
/// channels are personal and need an authenticated session.
#[derive(Clone, Copy, PartialEq, Eq, Structural, Hash, Debug)]
pub enum SubscriptionChannel {
    Events,
    Event(i32),
    Transactions,
    Portfolio,
}

/// What `SubscriptionChannel::from_string` accepts: the three fixed names,
/// or `event:` followed by a decimal 32-bit identifier.
pub open spec fn spec_channel_from_string(s: Seq<char>) -> Option<SubscriptionChannel> {
    if s == "events"@ {
        Some(SubscriptionChannel::Events)
    } else if s == "transactions"@ {
        Some(SubscriptionChannel::Transactions)
    } else if s == "portfolio"@ {
        Some(SubscriptionChannel::Portfolio)
    } else if s.len() >= 6 && s.take(6) == "event:"@ {
        match crate::text::spec_parse_i32(s.skip(6)) {
            Some(id) => Some(SubscriptionChannel::Event(id)),
            None => None,
        }
    } else {
        None
    }
}

impl SubscriptionChannel {
    /// Read a channel name.
    pub fn from_string(s: &str) -> (r: Option<SubscriptionChannel>)
        ensures
            r == spec_channel_from_string(s@),
    {
        if crate::text::str_eq(s, "events") {
            return Some(SubscriptionChannel::Events);
        }
        if crate::text::str_eq(s, "transactions") {
            return Some(SubscriptionChannel::Transactions);
        }
        if crate::text::str_eq(s, "portfolio") {
            return Some(SubscriptionChannel::Portfolio);
        }
        let len = s.unicode_len();
        if len < 6 {
            return None;
        }
        proof {
            reveal_strlit("event:");
        }
        let prefix_ok = s.get_char(0) == 'e' && s.get_char(1) == 'v' && s.get_char(2) == 'e'
            && s.get_char(3) == 'n' && s.get_char(4) == 't' && s.get_char(5) == ':';
        if !prefix_ok {
            proof {
                assert(forall|k: int| 0 <= k < 6 ==> s@.take(6)[k] == s@[k]);
                assert(s@.take(6) != "event:"@);
            }
            return None;
        }
        proof {
            assert(s@.take(6) =~= "event:"@);
        }
        match crate::text::parse_i32_from(s, 6) {
            Some(id) => Some(SubscriptionChannel::Event(id)),
            None => None,
        }
    }

    /// Whether the channel carries personal data and so needs an
    /// authenticated session.
    pub fn requires_auth(&self) -> (r: bool)
        ensures
            r == (*self == SubscriptionChannel::Transactions || *self
                == SubscriptionChannel::Portfolio),
    {
        match self {
            SubscriptionChannel::Transactions => true,
            SubscriptionChannel::Portfolio => true,
            _ => false,
        }
    }
}

/// A serialized frame, rendered once and fanned out to many sessions.
pub struct PreSerializedMessage(pub String);

/// A session left; its subscriptions go with it.
#[derive(Clone, Copy, PartialEq, Eq, Structural, Debug)]
pub struct Disconnect {
    pub id: usize,
}

/// A session stops listening on one channel.
#[derive(Clone, Copy, PartialEq, Eq, Structural, Debug)]
pub struct Unsubscribe {
    pub id: usize,
    pub channel: SubscriptionChannel,
}

/// The events list changed; every events subscriber gets a fresh page.
#[derive(Clone, Copy, PartialEq, Eq, Structural, Debug)]
pub struct BroadcastEventsUpdate;

/// One user's transactions changed; their sessions on that channel get a
/// fresh page.
#[derive(Clone, Copy, PartialEq, Eq, Structural, Debug)]
pub struct BroadcastTransactionsUpdate {
    pub user_id: i32,
}

/// One user's portfolio changed; their sessions on that channel get a
/// fresh snapshot.
#[derive(Clone, Copy, PartialEq, Eq, Structural, Debug)]
pub struct BroadcastPortfolioUpdate {
    pub user_id: i32,
}

/// One connected session.
#[derive(Clone, Copy, PartialEq, Eq, Structural, Debug)]
pub struct SessionInfo {
    pub session_id: usize,
    pub user_id: Option<i32>,
}

/// One (session, channel) subscription with the parameters the session
/// asked with, kept as the raw text of its request.
pub struct Subscription {
    pub session_id: usize,
    pub channel: SubscriptionChannel,
    pub params: Option<String>,
}

#[derive(Clone, Copy, PartialEq, Eq, Structural, Debug)]
pub enum SubscribeError {
    AuthenticationRequired,
}

/// Sessions with this identifier removed.
pub open spec fn spec_remove_session(ss: Seq<SessionInfo>, id: usize) -> Seq<SessionInfo>
    decreases ss.len(),
{
    if ss.len() == 0 {
        ss
    } else if ss[0].session_id == id {
        spec_remove_session(ss.drop_first(), id)
    } else {
        seq![ss[0]] + spec_remove_session(ss.drop_first(), id)
    }
}

/// The first session with this identifier, if any.
pub open spec fn spec_find_session(ss: Seq<SessionInfo>, id: usize) -> Option<SessionInfo>
    decreases ss.len(),
{
    if ss.len() == 0 {
        None
    } else if ss[0].session_id == id {
        Some(ss[0])
    } else {
        spec_find_session(ss.drop_first(), id)
    }
}

/// Subscriptions with every entry of this session removed.
pub open spec fn spec_remove_session_subs(subs: Seq<Subscription>, id: usize) -> Seq<Subscription>
    decreases subs.len(),
{
    if subs.len() == 0 {
        subs
    } else if subs[0].session_id == id {
        spec_remove_session_subs(subs.drop_first(), id)
    } else {
        seq![subs[0]] + spec_remove_session_subs(subs.drop_first(), id)
    }
}

/// Subscribing a session to a channel: a fresh pair joins at the back;
/// an existing pair keeps its place, and keeps its stored parameters too
/// unless the new request carries some.
pub open spec fn spec_subscribe_subs(
    subs: Seq<Subscription>,
    id: usize,
    channel: SubscriptionChannel,
    params: Option<String>,
) -> Seq<Subscription>
    decreases subs.len(),
{
    if subs.len() == 0 {
        seq![Subscription { session_id: id, channel, params }]
    } else if subs[0].session_id == id && subs[0].channel == channel {
        if params is Some {
            subs.update(0, Subscription { session_id: id, channel, params })
        } else {
            subs
        }
    } else {
        seq![subs[0]] + spec_subscribe_subs(subs.drop_first(), id, channel, params)
    }
}

/// Subscriptions with every entry for this session and channel removed.
pub open spec fn spec_remove_sub(
    subs: Seq<Subscription>,
    id: usize,
    channel: SubscriptionChannel,
) -> Seq<Subscription>
    decreases subs.len(),
{
    if subs.len() == 0 {
        subs
    } else if subs[0].session_id == id && subs[0].channel == channel {
        spec_remove_sub(subs.drop_first(), id, channel)
    } else {
        seq![subs[0]] + spec_remove_sub(subs.drop_first(), id, channel)
    }
}

/// The sessions subscribed to a channel, in subscription order.
pub open spec fn spec_channel_sessions(subs: Seq<Subscription>, channel: SubscriptionChannel) -> Seq<
    usize,
>
    decreases subs.len(),
{
    if subs.len() == 0 {
        Seq::empty()
    } else if subs[0].channel == channel {
        seq![subs[0].session_id] + spec_channel_sessions(subs.drop_first(), channel)
    } else {
        spec_channel_sessions(subs.drop_first(), channel)
    }
}

/// The user a session authenticated as, if the session exists and did.
pub open spec fn spec_session_user(ss: Seq<SessionInfo>, id: usize) -> Option<i32> {
    match spec_find_session(ss, id) {
        Some(si) => si.user_id,
        None => None,
    }
}

/// The sessions of one user subscribed to a channel.
pub open spec fn spec_user_channel_sessions(
    subs: Seq<Subscription>,
    ss: Seq<SessionInfo>,
    user_id: i32,
    channel: SubscriptionChannel,
) -> Seq<usize>
    decreases subs.len(),
{
    if subs.len() == 0 {
        Seq::empty()
    } else if subs[0].channel == channel && spec_session_user(ss, subs[0].session_id) == Some(
        user_id,
    ) {
        seq![subs[0].session_id] + spec_user_channel_sessions(subs.drop_first(), ss, user_id,
            channel)
    } else {
        spec_user_channel_sessions(subs.drop_first(), ss, user_id, channel)
    }
}

/// The parameter text of the first subscription of this session on this
/// channel, if one exists and carries parameters.
pub open spec fn spec_sub_params(
    subs: Seq<Subscription>,
    id: usize,
    channel: SubscriptionChannel,
) -> Option<Seq<char>>
    decreases subs.len(),
{
    if subs.len() == 0 {
        None
    } else if subs[0].session_id == id && subs[0].channel == channel {
        match subs[0].params {
            Some(p) => Some(p@),
            None => None,
        }
    } else {
        spec_sub_params(subs.drop_first(), id, channel)
    }
}

/// The fan-out registry: connected sessions, their subscriptions, and the
/// counter fresh session identifiers come from.
pub struct SubscriptionRegistry {
    pub sessions: Vec<SessionInfo>,
    pub subscriptions: Vec<Subscription>,
    pub next_session_id: usize,
}

impl SubscriptionRegistry {
    /// An empty registry.
    pub fn new() -> (r: SubscriptionRegistry)
        ensures
            r.sessions@.len() == 0,
            r.subscriptions@.len() == 0,
            r.next_session_id == 1,
    {
        SubscriptionRegistry { sessions: Vec::new(), subscriptions: Vec::new(), next_session_id: 1 }
    }

    /// Register a new connection, returning its fresh session identifier.
    pub fn connect(&mut self, user_id: Option<i32>) -> (r: usize)
        requires
            old(self).next_session_id < usize::MAX,
        ensures
            r == old(self).next_session_id,
            final(self).sessions@ == old(self).sessions@.push(
                SessionInfo { session_id: r, user_id },
            ),
            final(self).subscriptions@ == old(self).subscriptions@,
            final(self).next_session_id == old(self).next_session_id + 1,
    {
        let id = self.next_session_id;
        self.next_session_id = self.next_session_id + 1;
        self.sessions.push(SessionInfo { session_id: id, user_id });
        id
    }

    /// Drop a session and everything it subscribed to.
    pub fn disconnect(&mut self, msg: Disconnect)
        ensures
            final(self).sessions@ == spec_remove_session(old(self).sessions@, msg.id),
            final(self).subscriptions@ == spec_remove_session_subs(
                old(self).subscriptions@,
                msg.id,
            ),
            final(self).next_session_id == old(self).next_session_id,
    {
        remove_session_rec(&mut self.sessions, msg.id);
        remove_session_subs_rec(&mut self.subscriptions, msg.id);
    }

    /// Subscribe a session to a channel. A fresh pair joins the registry;
    /// an existing one keeps its place and, when the request carries no
    /// parameters, its stored ones. Personal channels are refused without
    /// an authenticated user.
    pub fn subscribe(
        &mut self,
        id: usize,
        channel: SubscriptionChannel,
        user_id: Option<i32>,
        params: Option<String>,
    ) -> (r: Result<(), SubscribeError>)
        ensures
            final(self).sessions@ == old(self).sessions@,
            final(self).next_session_id == old(self).next_session_id,
            ({
                let needs_auth = channel == SubscriptionChannel::Transactions || channel
                    == SubscriptionChannel::Portfolio;
                if needs_auth && user_id is None {
                    &&& r == Err::<(), SubscribeError>(SubscribeError::AuthenticationRequired)
                    &&& final(self).subscriptions@ == old(self).subscriptions@
                } else {
                    &&& r == Ok::<(), SubscribeError>(())
                    &&& final(self).subscriptions@ == spec_subscribe_subs(
                        old(self).subscriptions@,
                        id,
                        channel,
                        params,
                    )
                }
            }),
    {
        if channel.requires_auth() && user_id.is_none() {
            return Err(SubscribeError::AuthenticationRequired);
        }
        subscribe_rec(&mut self.subscriptions, id, channel, params);
        Ok(())
    }

    /// Stop a session's subscription on one channel.
    pub fn unsubscribe(&mut self, msg: Unsubscribe)
        ensures
            final(self).sessions@ == old(self).sessions@,
            final(self).subscriptions@ == spec_remove_sub(
                old(self).subscriptions@,
                msg.id,
                msg.channel,
            ),
            final(self).next_session_id == old(self).next_session_id,
    {
        remove_sub_rec(&mut self.subscriptions, msg.id, msg.channel);
    }

    /// The sessions subscribed to a channel, in subscription order; each
    /// gets its own refresh, read with its own stored parameters.
    pub fn channel_sessions(&self, channel: SubscriptionChannel) -> (r: Vec<usize>)
        ensures
            r@ == spec_channel_sessions(self.subscriptions@, channel),
    {
        let mut out: Vec<usize> = Vec::new();
        let ghost subs = self.subscriptions@;
        proof {
            assert(subs.skip(0) =~= subs);
            assert(Seq::<usize>::empty() + spec_channel_sessions(subs, channel)
                =~= spec_channel_sessions(subs, channel));
        }
        let mut i: usize = 0;
        while i < self.subscriptions.len()
            invariant
                i <= subs.len(),
                subs == self.subscriptions@,
                out@ + spec_channel_sessions(subs.skip(i as int), channel) == spec_channel_sessions(
                    subs,
                    channel,
                ),
            decreases subs.len() - i,
        {
            proof {
                assert(subs.skip(i as int)[0] == subs[i as int]);
                assert(subs.skip(i as int).drop_first() =~= subs.skip(i as int + 1));
            }
            let sub = &self.subscriptions[i];
            if sub.channel == channel {
                let ghost out0 = out@;
                out.push(sub.session_id);
                proof {
                    assert(out@ + spec_channel_sessions(subs.skip(i as int + 1), channel) =~= out0
                        + spec_channel_sessions(subs.skip(i as int), channel));
                }
            } else {
                proof {
                    assert(out@ + spec_channel_sessions(subs.skip(i as int + 1), channel) =~= out@
                        + spec_channel_sessions(subs.skip(i as int), channel));
                }
            }
            i = i + 1;
        }
        proof {
            assert(subs.skip(subs.len() as int) =~= Seq::<Subscription>::empty());
            assert(out@ =~= spec_channel_sessions(subs, channel));
        }
        out
    }

    /// The sessions of one user subscribed to a channel.
    pub fn user_channel_sessions(&self, user_id: i32, channel: SubscriptionChannel) -> (r: Vec<
        usize,
    >)
        ensures
            r@ == spec_user_channel_sessions(self.subscriptions@, self.sessions@, user_id, channel),
    {
        let mut out: Vec<usize> = Vec::new();
        let ghost subs = self.subscriptions@;
        let ghost ss = self.sessions@;
        proof {
            assert(subs.skip(0) =~= subs);
            assert(Seq::<usize>::empty() + spec_user_channel_sessions(subs, ss, user_id, channel)
                =~= spec_user_channel_sessions(subs, ss, user_id, channel));
        }
        let mut i: usize = 0;
        while i < self.subscriptions.len()
            invariant
                i <= subs.len(),
                subs == self.subscriptions@,
                ss == self.sessions@,
                out@ + spec_user_channel_sessions(subs.skip(i as int), ss, user_id, channel)
                    == spec_user_channel_sessions(subs, ss, user_id, channel),
            decreases subs.len() - i,
        {
            proof {
                assert(subs.skip(i as int)[0] == subs[i as int]);
                assert(subs.skip(i as int).drop_first() =~= subs.skip(i as int + 1));
            }
            let sub = &self.subscriptions[i];
            let mut wanted = false;
            if sub.channel == channel {
                match self.find_session_user(sub.session_id) {
                    Some(u) => {
                        wanted = u == user_id;
                    },
                    None => {
                        wanted = false;
                    },
                }
            }
            if wanted {
                let ghost out0 = out@;
                out.push(sub.session_id);
                proof {
                    assert(out@ + spec_user_channel_sessions(subs.skip(i as int + 1), ss, user_id,
                        channel) =~= out0 + spec_user_channel_sessions(subs.skip(i as int), ss,
                        user_id, channel));
                }
            } else {
                proof {
                    assert(out@ + spec_user_channel_sessions(subs.skip(i as int + 1), ss, user_id,
                        channel) =~= out@ + spec_user_channel_sessions(subs.skip(i as int), ss,
                        user_id, channel));
                }
            }
            i = i + 1;
        }
        proof {
            assert(subs.skip(subs.len() as int) =~= Seq::<Subscription>::empty());
            assert(out@ =~= spec_user_channel_sessions(subs, ss, user_id, channel));
        }
        out
    }

    /// The user a session authenticated as, if it exists and did.
    pub fn find_session_user(&self, id: usize) -> (r: Option<i32>)
        ensures
            r == spec_session_user(self.sessions@, id),
    {
        proof {
            assert(self.sessions@.skip(0) =~= self.sessions@);
        }
        find_session_user_rec(&self.sessions, 0, id)
    }

    /// The stored parameter text of a session's subscription on a channel.
    pub fn sub_params(&self, id: usize, channel: SubscriptionChannel) -> (r: Option<String>)
        ensures
            ({
                match (r, spec_sub_params(self.subscriptions@, id, channel)) {
                    (Some(a), Some(b)) => a@ == b,
                    (None, None) => true,
                    _ => false,
                }
            }),
    {
        proof {
            assert(self.subscriptions@.skip(0) =~= self.subscriptions@);
        }
        sub_params_rec(&self.subscriptions, 0, id, channel)
    }
}

/// Remove every session with this identifier.
fn remove_session_rec(ss: &mut Vec<SessionInfo>, id: usize)
    ensures
        final(ss)@ == spec_remove_session(old(ss)@, id),
    decreases old(ss)@.len(),
{
    let ghost s0 = ss@;
    if ss.len() == 0 {
        return ;
    }
    let head = ss.remove(0);
    proof {
        assert(ss@ =~= s0.drop_first());
    }
    remove_session_rec(ss, id);
    if head.session_id != id {
        ss.insert(0, head);
        proof {
            assert(ss@ =~= spec_remove_session(s0, id));
        }
    }
}

/// Remove every subscription of this session.
fn remove_session_subs_rec(subs: &mut Vec<Subscription>, id: usize)
    ensures
        final(subs)@ == spec_remove_session_subs(old(subs)@, id),
    decreases old(subs)@.len(),
{
    let ghost s0 = subs@;
    if subs.len() == 0 {
        return ;
    }
    let keep = subs[0].session_id != id;
    let head = subs.remove(0);
    proof {
        assert(subs@ =~= s0.drop_first());
    }
    remove_session_subs_rec(subs, id);
    if keep {
        subs.insert(0, head);
        proof {
            assert(subs@ =~= spec_remove_session_subs(s0, id));
        }
    }
}

/// Apply one subscription to the entries, from the front.
fn subscribe_rec(
    subs: &mut Vec<Subscription>,
    id: usize,
    channel: SubscriptionChannel,
    params: Option<String>,
)
    ensures
        final(subs)@ == spec_subscribe_subs(old(subs)@, id, channel, params),
    decreases old(subs)@.len(),
{
    let ghost s0 = subs@;
    if subs.len() == 0 {
        subs.push(Subscription { session_id: id, channel, params });
        proof {
            assert(subs@ =~= spec_subscribe_subs(s0, id, channel, params));
        }
        return ;
    }
    if subs[0].session_id == id && subs[0].channel == channel {
        if params.is_some() {
            subs.set(0, Subscription { session_id: id, channel, params });
        }
        return ;
    }
    let head = subs.remove(0);
    proof {
        assert(subs@ =~= s0.drop_first());
    }
    subscribe_rec(subs, id, channel, params);
    subs.insert(0, head);
    proof {
        assert(subs@ =~= spec_subscribe_subs(s0, id, channel, params));
    }
}

/// Remove every subscription of this session on this channel.
fn remove_sub_rec(subs: &mut Vec<Subscription>, id: usize, channel: SubscriptionChannel)
    ensures
        final(subs)@ == spec_remove_sub(old(subs)@, id, channel),
    decreases old(subs)@.len(),
{
    let ghost s0 = subs@;
    if subs.len() == 0 {
        return ;
    }
    let keep = !(subs[0].session_id == id && subs[0].channel == channel);
    let head = subs.remove(0);
    proof {
        assert(subs@ =~= s0.drop_first());
    }
    remove_sub_rec(subs, id, channel);
    if keep {
        subs.insert(0, head);
        proof {
            assert(subs@ =~= spec_remove_sub(s0, id, channel));
        }
    }
}

/// Find a session's user from position `i` on.
fn find_session_user_rec(ss: &Vec<SessionInfo>, i: usize, id: usize) -> (r: Option<i32>)
    requires
        i <= ss@.len(),
    ensures
        r == (match spec_find_session(ss@.skip(i as int), id) {
            Some(si) => si.user_id,
            None => None,
        }),
    decreases ss@.len() - i,
{
    if i == ss.len() {
        return None;
    }
    proof {
        assert(ss@.skip(i as int)[0] == ss@[i as int]);
        assert(ss@.skip(i as int).drop_first() =~= ss@.skip(i as int + 1));
    }
    if ss[i].session_id == id {
        return ss[i].user_id;
    }
    find_session_user_rec(ss, i + 1, id)
}

/// Find a subscription's stored parameters from position `i` on.
fn sub_params_rec(
    subs: &Vec<Subscription>,
    i: usize,
    id: usize,
    channel: SubscriptionChannel,
) -> (r: Option<String>)
    requires
        i <= subs@.len(),
    ensures
        ({
            match (r, spec_sub_params(subs@.skip(i as int), id, channel)) {
                (Some(a), Some(b)) => a@ == b,
                (None, None) => true,
                _ => false,
            }
        }),
    decreases subs@.len() - i,
{
    if i == subs.len() {
        return None;
    }
    proof {
        assert(subs@.skip(i as int)[0] == subs@[i as int]);
        assert(subs@.skip(i as int).drop_first() =~= subs@.skip(i as int + 1));
    }
    if subs[i].session_id == id && subs[i].channel == channel {
        return match &subs[i].params {
            Some(p) => Some(p.clone()),
            None => None,
        };
    }
    sub_params_rec(subs, i + 1, id, channel)
}

/// How often the server pings a session, in milliseconds.
pub const HEARTBEAT_INTERVAL_MILLIS: i64 = 30_000;

/// How long a session may stay silent before it is dropped, in
/// milliseconds.
pub const CLIENT_TIMEOUT_MILLIS: i64 = 60_000;

/// Whether a session silent since `last_heartbeat` should be disconnected
/// at time `now`.
pub fn heartbeat_expired(last_heartbeat: i64, now: i64) -> (r: bool)
    ensures
        r == (now - last_heartbeat > CLIENT_TIMEOUT_MILLIS),
{
    (now as i128) - (last_heartbeat as i128) > CLIENT_TIMEOUT_MILLIS as i128
}

} // verus!
