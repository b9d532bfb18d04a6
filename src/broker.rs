//! The broker's state: advertised channels with their latched slots, connected clients with
//! their subscriptions, and the parameters. Every operation returns the frames it wants sent;
//! the caller hands them to the clients' outbound queues.

use vstd::prelude::*;
use vstd::slice::slice_to_vec;
use crate::codec::{data_frame, encode_message_data, DATA_FRAME_HEADER_LEN};
use crate::protocol::{
    ClientMessage, ClientSubscriptionMessage, IncomingFrame, OutboundFrame, ParameterValue,
    ServerChannelMessage, ServerMessage,
};
use crate::schema::SchemaDescriptor;
use crate::subscriptions::{
    find_subscription, lemma_lookup_without_ids, lemma_with_subscription, lookup,
    remove_subscriptions, set_subscription, unique_channels, with_subscription, without_ids,
    Subscription,
};

verus! {

/// The message retained by a latching channel.
#[derive(Clone, Debug, PartialEq, Eq)]
pub struct LatchedMessage {
    pub timestamp_ns: u64,
    pub data: Vec<u8>,
}

/// An advertised channel: its description, whether it latches, and its latched slot.
#[derive(Clone, Debug, PartialEq, Eq)]
pub struct ChannelEntry {
    pub info: ServerChannelMessage,
    pub is_latching: bool,
    pub latched: Option<LatchedMessage>,
}

/// A connected client and its subscriptions.
#[derive(Clone, Debug, PartialEq, Eq)]
pub struct ClientSession {
    pub id: u128,
    pub subscriptions: Vec<Subscription>,
}

/// A frame for the outbound queue of the client `client_id`.
#[derive(Clone, Debug, PartialEq, Eq)]
pub struct Delivery {
    pub client_id: u128,
    pub frame: OutboundFrame,
}

/// Why a client's frame was not handled.
#[derive(Clone, Copy, Debug, PartialEq, Eq, Structural)]
pub enum ProtocolError {
    /// Binary frames from clients are not supported.
    BinaryUnsupported,
    /// The frame is neither text, binary nor close.
    UnexpectedFrame,
}

/// The publisher's handle of one advertised channel.
#[derive(Debug)]
pub struct Channel {
    id: usize,
    topic: String,
    is_latching: bool,
}

/// The broker: channel registry, client registry and parameter store.
///
/// The registries are vectors kept in order (channels by creation, clients by connection,
/// parameters by last write), with unique keys as an invariant. A hash map would walk its
/// entries in an order nothing specifies, so the contracts could not say in which order
/// the frames of a publish go out or how the greeting lists the channels; here they do.
#[derive(Debug)]
pub struct FoxgloveWebSocket {
    next_channel_id: usize,
    channels: Vec<ChannelEntry>,
    clients: Vec<ClientSession>,
    parameters: Vec<(String, String)>,
    server_name: String,
}

/// The latched slot of `e`, as values.
pub open spec fn latched_of(e: ChannelEntry) -> Option<(u64, Seq<u8>)> {
    match e.latched {
        Some(m) => Some((m.timestamp_ns, m.data@)),
        None => None,
    }
}

/// The entry of the channel `id` among `chs`, if it is advertised.
pub open spec fn channel_of(chs: Seq<ChannelEntry>, id: usize) -> Option<ChannelEntry>
    decreases chs.len(),
{
    if chs.len() == 0 {
        None
    } else if chs.last().info.id == id {
        Some(chs.last())
    } else {
        channel_of(chs.drop_last(), id)
    }
}

/// The subscribers of the channel `id`, in client order: each client's id and its own
/// subscription id.
pub open spec fn subscribers(cs: Seq<ClientSession>, id: usize) -> Seq<(u128, u32)>
    decreases cs.len(),
{
    if cs.len() == 0 {
        Seq::empty()
    } else {
        let p = subscribers(cs.drop_last(), id);
        match lookup(cs.last().subscriptions@, id) {
            Some(s) => p.push((cs.last().id, s)),
            None => p,
        }
    }
}

/// `d` carries the binary frame `bytes` to `client`.
pub open spec fn is_data_delivery(d: Delivery, client: u128, bytes: Seq<u8>) -> bool {
    &&& d.client_id == client
    &&& (d.frame matches OutboundFrame::Data(b) && b@ == bytes)
}

/// `d` advertises the single channel `info` to `client`.
pub open spec fn is_advertise_delivery(d: Delivery, client: u128, info: ServerChannelMessage) -> bool {
    &&& d.client_id == client
    &&& (d.frame matches OutboundFrame::Control(ServerMessage::Advertise { channels })
        && channels@ == seq![info])
}

/// `d` tells `client` that the channel `id` is gone.
pub open spec fn is_unadvertise_delivery(d: Delivery, client: u128, id: usize) -> bool {
    &&& d.client_id == client
    &&& (d.frame matches OutboundFrame::Control(ServerMessage::Unadvertise { channel_ids })
        && channel_ids@ == seq![id])
}

/// The description a new channel gets.
pub open spec fn channel_info(
    id: usize,
    topic: Seq<char>,
    encoding: Seq<char>,
    schema_name: Seq<char>,
    schema: Seq<char>,
    schema_encoding: Option<Seq<char>>,
    info: ServerChannelMessage,
) -> bool {
    &&& info.id == id
    &&& info.topic@ == topic
    &&& info.encoding@ == encoding
    &&& info.schema_name@ == schema_name
    &&& info.schema@ == schema
    &&& match (info.schema_encoding, schema_encoding) {
        (Some(a), Some(b)) => a@ == b,
        (None, None) => true,
        _ => false,
    }
}

/// Only a latching channel holds a latched message, and that message fits a data frame.
pub open spec fn latch_ok(e: ChannelEntry) -> bool {
    e.latched matches Some(m) ==> (e.is_latching && m.data@.len() + DATA_FRAME_HEADER_LEN <= usize::MAX)
}

/// `new` equals `old` except for the latched slots, which `send` may change.
pub open spec fn same_but_latched(old: Seq<ChannelEntry>, new: Seq<ChannelEntry>) -> bool {
    &&& new.len() == old.len()
    &&& forall|i: int|
        0 <= i < old.len() ==> new[i].info == old[i].info && new[i].is_latching == old[i].is_latching
}


/// The index of the channel `id` in `chs`, if it is there.
fn find_channel(chs: &Vec<ChannelEntry>, id: usize) -> (r: Option<usize>)
    ensures
        match r {
            Some(i) => i < chs@.len() && chs@[i as int].info.id == id && channel_of(chs@, id) == Some(
                chs@[i as int],
            ),
            None => channel_of(chs@, id) is None && forall|j: int|
                0 <= j < chs@.len() ==> #[trigger] chs@[j].info.id != id,
        },
{
    let mut found: Option<usize> = None;
    let mut i: usize = 0;
    while i < chs.len()
        invariant
            i <= chs@.len(),
            match found {
                Some(f) => f < i && chs@[f as int].info.id == id && channel_of(
                    chs@.subrange(0, i as int),
                    id,
                ) == Some(chs@[f as int]),
                None => channel_of(chs@.subrange(0, i as int), id) is None && forall|j: int|
                    0 <= j < i ==> #[trigger] chs@[j].info.id != id,
            },
        decreases chs@.len() - i,
    {
        assert(chs@.subrange(0, i + 1).drop_last() =~= chs@.subrange(0, i as int));
        if chs[i].info.id == id {
            found = Some(i);
        }
        i = i + 1;
    }
    assert(chs@.subrange(0, chs@.len() as int) =~= chs@);
    found
}

proof fn lemma_subscribers_step(cs: Seq<ClientSession>, id: usize, k: int)
    requires
        0 <= k < cs.len(),
    ensures
        subscribers(cs.subrange(0, k + 1), id) == match lookup(cs[k].subscriptions@, id) {
            Some(s) => subscribers(cs.subrange(0, k), id).push((cs[k].id, s)),
            None => subscribers(cs.subrange(0, k), id),
        },
{
    assert(cs.subrange(0, k + 1).drop_last() =~= cs.subrange(0, k));
}


/// `ds` is one data frame per subscriber of channel `id` among `cs`, in client order, each
/// carrying that subscriber's own subscription id with `timestamp_ns` and `payload`.
pub open spec fn sent(cs: Seq<ClientSession>, id: usize, timestamp_ns: u64, payload: Seq<u8>, ds: Seq<Delivery>) -> bool {
    let subs = subscribers(cs, id);
    &&& ds.len() == subs.len()
    &&& forall|k: int|
        0 <= k < subs.len() ==> is_data_delivery(
            #[trigger] ds[k],
            subs[k].0,
            data_frame(subs[k].1, timestamp_ns, payload),
        )
}

/// `new` is `old` after a send on channel `id`: only a latching channel `id` changes, and its
/// latched slot then holds `(timestamp_ns, payload)`.
pub open spec fn latched_after_send(
    old: Seq<ChannelEntry>,
    new: Seq<ChannelEntry>,
    id: usize,
    timestamp_ns: u64,
    payload: Seq<u8>,
) -> bool {
    &&& same_but_latched(old, new)
    &&& forall|i: int|
        0 <= i < old.len() ==> latched_of(#[trigger] new[i]) == if old[i].info.id == id
            && old[i].is_latching {
            Some((timestamp_ns, payload))
        } else {
            latched_of(old[i])
        }
}


/// `new` and `r` are what creating a channel on `old` gives: `None` with nothing changed once
/// the id space is used up; else the handle of a channel with the next id, registered last,
/// not latched yet, and an `advertise` of it for every connected client, in client order.
pub open spec fn created(
    old: FoxgloveWebSocket,
    new: FoxgloveWebSocket,
    topic: Seq<char>,
    encoding: Seq<char>,
    schema_name: Seq<char>,
    schema: Seq<char>,
    schema_encoding: Option<Seq<char>>,
    is_latching: bool,
    r: Option<(Channel, Vec<Delivery>)>,
) -> bool {
    &&& r is None <==> old.next_id() == usize::MAX
    &&& r is None ==> new == old
    &&& r matches Some((ch, ds)) ==> {
        let id = old.next_id();
        let chs = new.channel_entries();
        let cs = old.sessions();
        &&& ch.spec_id() == id
        &&& forall|i: int|
            0 <= i < old.channel_entries().len() ==> #[trigger] old.channel_entries()[i].info.id < id
        &&& ch.spec_topic() == topic
        &&& ch.spec_is_latching() == is_latching
        &&& new.next_id() == id + 1
        &&& chs.len() == old.channel_entries().len() + 1
        &&& chs.drop_last() == old.channel_entries()
        &&& channel_info(id, topic, encoding, schema_name, schema, schema_encoding, chs.last().info)
        &&& chs.last().is_latching == is_latching
        &&& chs.last().latched is None
        &&& new.sessions() == cs
        &&& new.parameter_entries() == old.parameter_entries()
        &&& new.name() == old.name()
        &&& ds@.len() == cs.len()
        &&& forall|k: int|
            0 <= k < cs.len() ==> is_advertise_delivery(#[trigger] ds@[k], cs[k].id, chs.last().info)
    }
}

/// `ds` is one `unadvertise` of channel `id` per subscriber of it among `cs`, in client order.
pub open spec fn unadvertised(cs: Seq<ClientSession>, id: usize, ds: Seq<Delivery>) -> bool {
    let subs = subscribers(cs, id);
    &&& ds.len() == subs.len()
    &&& forall|k: int| 0 <= k < subs.len() ==> is_unadvertise_delivery(#[trigger] ds[k], subs[k].0, id)
}

/// `new` is `old` without the entry of channel `id`.
pub open spec fn removed_channel(old: Seq<ChannelEntry>, new: Seq<ChannelEntry>, id: usize) -> bool {
    exists|i: int| 0 <= i < old.len() && old[i].info.id == id && new == old.remove(i)
}

/// A channel id absent from every entry has no entry.
pub proof fn lemma_channel_of_absent(chs: Seq<ChannelEntry>, id: usize)
    requires
        forall|j: int| 0 <= j < chs.len() ==> #[trigger] chs[j].info.id != id,
    ensures
        channel_of(chs, id) is None,
    decreases chs.len(),
{
    if chs.len() > 0 {
        lemma_channel_of_absent(chs.drop_last(), id);
    }
}


/// The value of the parameter `name` among `ps`, if set (a later entry wins).
pub open spec fn param_lookup(ps: Seq<(String, String)>, name: Seq<char>) -> Option<Seq<char>>
    decreases ps.len(),
{
    if ps.len() == 0 {
        None
    } else if ps.last().0@ == name {
        Some(ps.last().1@)
    } else {
        param_lookup(ps.drop_last(), name)
    }
}

/// The subscriptions and the replayed latched messages (subscription id, timestamp, payload)
/// that come of handling the subscribe requests `reqs`, in order, on `subs`: a request for a
/// channel that is not advertised is skipped.
pub open spec fn subscribe_all(
    chs: Seq<ChannelEntry>,
    subs: Seq<Subscription>,
    reqs: Seq<ClientSubscriptionMessage>,
) -> (Seq<Subscription>, Seq<(u32, u64, Seq<u8>)>)
    decreases reqs.len(),
{
    if reqs.len() == 0 {
        (subs, Seq::empty())
    } else {
        let (s, f) = subscribe_all(chs, subs, reqs.drop_last());
        let q = reqs.last();
        match channel_of(chs, q.channel_id) {
            None => (s, f),
            Some(e) => (
                with_subscription(s, q.channel_id, q.id),
                match latched_of(e) {
                    Some((t, p)) => f.push((q.id, t, p)),
                    None => f,
                },
            ),
        }
    }
}

/// `fs` holds exactly the data frames of `plan`, in order.
pub open spec fn data_frames(fs: Seq<OutboundFrame>, plan: Seq<(u32, u64, Seq<u8>)>) -> bool {
    &&& fs.len() == plan.len()
    &&& forall|k: int|
        0 <= k < plan.len() ==> (#[trigger] fs[k] matches OutboundFrame::Data(b) && b@
            == data_frame(plan[k].0, plan[k].1, plan[k].2))
}

/// `new` is `old` with client `i` given the subscriptions `subs`.
pub open spec fn client_updated(old: Seq<ClientSession>, new: Seq<ClientSession>, i: int, subs: Seq<Subscription>) -> bool {
    &&& new.len() == old.len()
    &&& new[i].id == old[i].id
    &&& new[i].subscriptions@ == subs
    &&& forall|j: int| 0 <= j < old.len() && j != i ==> #[trigger] new[j] == old[j]
}

/// What a client's message does to the broker and what it sends back to that client.
pub open spec fn handled(
    old: FoxgloveWebSocket,
    new: FoxgloveWebSocket,
    client_id: u128,
    frame: IncomingFrame,
    r: Result<Vec<OutboundFrame>, ProtocolError>,
) -> bool {
    let cs = old.sessions();
    let found = exists|i: int| 0 <= i < cs.len() && cs[i].id == client_id;
    &&& new.channel_entries() == old.channel_entries()
    &&& new.next_id() == old.next_id()
    &&& new.name() == old.name()
    &&& match frame {
        IncomingFrame::Binary(_) => r == Err::<Vec<OutboundFrame>, ProtocolError>(
            ProtocolError::BinaryUnsupported,
        ) && new == old,
        IncomingFrame::Other => r == Err::<Vec<OutboundFrame>, ProtocolError>(
            ProtocolError::UnexpectedFrame,
        ) && new == old,
        IncomingFrame::Close => r matches Ok(fs) && fs@.len() == 0 && new == old,
        IncomingFrame::Text(ClientMessage::Subscribe { subscriptions }) => if !found {
            r matches Ok(fs) && fs@.len() == 0 && new == old
        } else {
            exists|i: int|
                0 <= i < cs.len() && cs[i].id == client_id && {
                    let (subs, plan) = subscribe_all(
                        old.channel_entries(),
                        cs[i].subscriptions@,
                        subscriptions@,
                    );
                    &&& client_updated(cs, new.sessions(), i, subs)
                    &&& r matches Ok(fs) && data_frames(fs@, plan)
                    &&& new.parameter_entries() == old.parameter_entries()
                }
        },
        IncomingFrame::Text(ClientMessage::Unsubscribe { subscription_ids }) => if !found {
            r matches Ok(fs) && fs@.len() == 0 && new == old
        } else {
            exists|i: int|
                0 <= i < cs.len() && cs[i].id == client_id && {
                    &&& client_updated(
                        cs,
                        new.sessions(),
                        i,
                        without_ids(cs[i].subscriptions@, subscription_ids@),
                    )
                    &&& r matches Ok(fs) && fs@.len() == 0
                    &&& new.parameter_entries() == old.parameter_entries()
                }
        },
        IncomingFrame::Text(ClientMessage::GetParameters { .. }) => r matches Ok(fs) && fs@.len()
            == 0 && new == old,
        IncomingFrame::Text(ClientMessage::SetParameters { parameters, .. }) => {
            &&& r matches Ok(fs) && fs@.len() == 0
            &&& new.sessions() == old.sessions()
            &&& forall|n: Seq<char>|
                #[trigger] param_lookup(new.parameter_entries(), n) == match param_lookup(
                    parameters@,
                    n,
                ) {
                    Some(v) => Some(v),
                    None => param_lookup(old.parameter_entries(), n),
                }
        },
    }
}


/// `ps` without the entries named `name`, in order.
pub open spec fn without_param(ps: Seq<(String, String)>, name: Seq<char>) -> Seq<(String, String)>
    decreases ps.len(),
{
    if ps.len() == 0 {
        ps
    } else if ps.last().0@ == name {
        without_param(ps.drop_last(), name)
    } else {
        without_param(ps.drop_last(), name).push(ps.last())
    }
}

/// No parameter name occurs twice.
pub open spec fn unique_names(ps: Seq<(String, String)>) -> bool
    decreases ps.len(),
{
    ps.len() == 0 || (unique_names(ps.drop_last()) && param_lookup(ps.drop_last(), ps.last().0@)
        is None)
}

proof fn lemma_without_param_unique(ps: Seq<(String, String)>, name: Seq<char>)
    requires
        unique_names(ps),
    ensures
        unique_names(without_param(ps, name)),
    decreases ps.len(),
{
    if ps.len() > 0 {
        lemma_without_param_unique(ps.drop_last(), name);
        let w = without_param(ps.drop_last(), name);
        if ps.last().0@ != name {
            lemma_without_param(ps.drop_last(), name, ps.last().0@);
            assert(w.push(ps.last()).drop_last() =~= w);
        }
    }
}

proof fn lemma_without_param(ps: Seq<(String, String)>, name: Seq<char>, n: Seq<char>)
    ensures
        param_lookup(without_param(ps, name), n) == if n == name {
            None
        } else {
            param_lookup(ps, n)
        },
    decreases ps.len(),
{
    if ps.len() > 0 {
        lemma_without_param(ps.drop_last(), name, n);
        let w = without_param(ps.drop_last(), name);
        if ps.last().0@ != name {
            assert(w.push(ps.last()).drop_last() =~= w);
        }
    }
}

/// The index of the client `id` in `cs`, if it is connected.
fn find_client(cs: &Vec<ClientSession>, id: u128) -> (r: Option<usize>)
    ensures
        match r {
            Some(i) => i < cs@.len() && cs@[i as int].id == id,
            None => forall|j: int| 0 <= j < cs@.len() ==> #[trigger] cs@[j].id != id,
        },
{
    let mut i: usize = 0;
    while i < cs.len()
        invariant
            i <= cs@.len(),
            forall|j: int| 0 <= j < i ==> #[trigger] cs@[j].id != id,
        decreases cs@.len() - i,
    {
        if cs[i].id == id {
            return Some(i);
        }
        i = i + 1;
    }
    None
}

/// The greeting a newly connected client gets, in order: server info (with the parameters
/// capability and the session id), an `advertise` of every registered channel, and the
/// current parameter values.
pub open spec fn greeting_of(server: FoxgloveWebSocket, session_id: Seq<char>, r: Seq<ServerMessage>) -> bool {
    let chs = server.channel_entries();
    let ps = server.parameter_entries();
    &&& r.len() == 3
    &&& r[0] matches ServerMessage::ServerInfo {
        name,
        capabilities,
        supported_encodings,
        metadata,
        session_id: sid,
    } && name@ == server.name() && capabilities@.len() == 1 && capabilities@[0]@ == "parameters"@
        && supported_encodings@.len() == 0 && metadata@.len() == 0 && sid@ == session_id
    &&& r[1] matches ServerMessage::Advertise { channels } && channels@.len() == chs.len() && forall|
        i: int,
    | 0 <= i < chs.len() ==> #[trigger] channels@[i] == chs[i].info
    &&& r[2] matches ServerMessage::ParameterValues { parameters, id } && id is None
        && parameters@.len() == ps.len() && forall|i: int|
        0 <= i < ps.len() ==> (#[trigger] parameters@[i]).name@ == ps[i].0@ && parameters@[i].value@
            == ps[i].1@ && parameters@[i].field_type is None
}


/// `new` and `ds` are what a send of `(timestamp_ns, payload)` on channel `id` gives on `old`:
/// one data frame per subscriber, and the latched slot replaced if the channel latches.
pub open spec fn send_result(
    old: FoxgloveWebSocket,
    new: FoxgloveWebSocket,
    id: usize,
    timestamp_ns: u64,
    payload: Seq<u8>,
    ds: Seq<Delivery>,
) -> bool {
    &&& new.sessions() == old.sessions()
    &&& new.next_id() == old.next_id()
    &&& new.parameter_entries() == old.parameter_entries()
    &&& new.name() == old.name()
    &&& sent(old.sessions(), id, timestamp_ns, payload, ds)
    &&& latched_after_send(old.channel_entries(), new.channel_entries(), id, timestamp_ns, payload)
}

/// `new` and `ds` are what unadvertising channel `id` gives on `old`: if it is registered, one
/// `unadvertise` per subscriber and the channel removed; else nothing at all.
pub open spec fn unadvertise_result(old: FoxgloveWebSocket, new: FoxgloveWebSocket, id: usize, ds: Seq<Delivery>) -> bool {
    &&& new.sessions() == old.sessions()
    &&& new.next_id() == old.next_id()
    &&& new.parameter_entries() == old.parameter_entries()
    &&& new.name() == old.name()
    &&& channel_of(new.channel_entries(), id) is None
    &&& match channel_of(old.channel_entries(), id) {
        None => ds.len() == 0 && new.channel_entries() == old.channel_entries(),
        Some(_) => unadvertised(old.sessions(), id, ds) && removed_channel(
            old.channel_entries(),
            new.channel_entries(),
            id,
        ),
    }
}

impl Channel {
    /// The broker-assigned id of this channel.
    pub fn id(&self) -> (r: usize)
        ensures
            r == self.spec_id(),
    {
        self.id
    }


    /// Sends a message to every subscriber of this channel: one data frame per subscriber,
    /// carrying that subscriber's own subscription id. If the channel latches, the message also
    /// replaces its latched slot, whether or not anyone is subscribed.
    pub fn send(&self, server: &mut FoxgloveWebSocket, timestamp_ns: u64, data: &[u8]) -> (r: Vec<Delivery>)
        requires
            old(server).wf(),
            data@.len() + DATA_FRAME_HEADER_LEN <= usize::MAX,
        ensures
            final(server).wf(),
            send_result(*old(server), *final(server), self.spec_id(), timestamp_ns, data@, r@),
    {
        let id = self.id;
        let mut ds: Vec<Delivery> = Vec::new();
        let mut k: usize = 0;
        while k < server.clients.len()
            invariant
                k <= server.clients@.len(),
                server.wf(),
                server == old(server),
                data@.len() + DATA_FRAME_HEADER_LEN <= usize::MAX,
                sent(server.clients@.subrange(0, k as int), id, timestamp_ns, data@, ds@),
            decreases server.clients@.len() - k,
        {
            proof {
                lemma_subscribers_step(server.clients@, id, k as int);
            }
            match find_subscription(&server.clients[k].subscriptions, id) {
                Some(sub) => {
                    let frame = encode_message_data(sub, timestamp_ns, data);
                    ds.push(Delivery { client_id: server.clients[k].id, frame: OutboundFrame::Data(frame) });
                },
                None => {},
            }
            k = k + 1;
        }
        assert(server.clients@.subrange(0, server.clients@.len() as int) =~= server.clients@);
        match find_channel(&server.channels, id) {
            Some(i) => {
                if server.channels[i].is_latching {
                    let ghost before = server.channels@;
                    let mut e = server.channels.remove(i);
                    e.latched = Some(LatchedMessage { timestamp_ns, data: slice_to_vec(data) });
                    server.channels.insert(i, e);
                    assert(server.channels@ =~= before.update(i as int, e));
                    assert forall|j: int| 0 <= j < before.len() && j != i implies before[j].info.id != id by {
                        if j < i {
                            assert(before[j].info.id < before[i as int].info.id);
                        } else {
                            assert(before[i as int].info.id < before[j].info.id);
                        }
                    }
                }
            },
            None => {},
        }
        ds
    }


    /// Withdraws this channel: queues an `unadvertise` of it for each current subscriber and
    /// removes it from the registry. A channel that is no longer registered is left alone and
    /// nobody is told twice.
    pub fn unadvertise(self, server: &mut FoxgloveWebSocket) -> (r: Vec<Delivery>)
        requires
            old(server).wf(),
        ensures
            final(server).wf(),
            unadvertise_result(*old(server), *final(server), self.spec_id(), r@),
    {
        let id = self.id;
        let mut ds: Vec<Delivery> = Vec::new();
        match find_channel(&server.channels, id) {
            None => {
                proof {
                    lemma_channel_of_absent(server.channels@, id);
                }
                return ds;
            },
            Some(i) => {
                let mut k: usize = 0;
                while k < server.clients.len()
                    invariant
                        k <= server.clients@.len(),
                        server == old(server),
                        unadvertised(server.clients@.subrange(0, k as int), id, ds@),
                    decreases server.clients@.len() - k,
                {
                    proof {
                        lemma_subscribers_step(server.clients@, id, k as int);
                    }
                    if find_subscription(&server.clients[k].subscriptions, id).is_some() {
                        let mut ids: Vec<usize> = Vec::new();
                        ids.push(id);
                        assert(ids@ =~= seq![id]);
                        ds.push(
                            Delivery {
                                client_id: server.clients[k].id,
                                frame: OutboundFrame::Control(ServerMessage::Unadvertise { channel_ids: ids }),
                            },
                        );
                    }
                    k = k + 1;
                }
                assert(server.clients@.subrange(0, server.clients@.len() as int) =~= server.clients@);
                let ghost before = server.channels@;
                server.channels.remove(i);
                assert forall|j: int| 0 <= j < server.channels@.len() implies #[trigger] server.channels@[j].info.id != id by {
                    if j < i {
                        assert(before[j].info.id < before[i as int].info.id);
                    } else {
                        assert(server.channels@[j] == before[j + 1]);
                        assert(before[i as int].info.id < before[j + 1].info.id);
                    }
                }
                proof {
                    lemma_channel_of_absent(server.channels@, id);
                }
                ds
            },
        }
    }

    /// The topic this channel was created with.
    pub fn topic(&self) -> (r: &str)
        ensures
            r@ == self.spec_topic(),
    {
        self.topic.as_str()
    }

    /// Whether this channel latches its last message.
    pub fn is_latching(&self) -> (r: bool)
        ensures
            r == self.spec_is_latching(),
    {
        self.is_latching
    }

    /// The spec-level topic of this channel.
    pub closed spec fn spec_topic(&self) -> Seq<char> {
        self.topic@
    }

    /// Whether, at spec level, this channel latches.
    pub closed spec fn spec_is_latching(&self) -> bool {
        self.is_latching
    }

    /// The spec-level id of this channel.
    pub closed spec fn spec_id(&self) -> usize {
        self.id
    }
}

impl FoxgloveWebSocket {
    /// The id the next channel will get.
    pub closed spec fn next_id(&self) -> usize {
        self.next_channel_id
    }

    /// The advertised channels, oldest first.
    pub closed spec fn channel_entries(&self) -> Seq<ChannelEntry> {
        self.channels@
    }

    /// The connected clients, in order of connection.
    pub closed spec fn sessions(&self) -> Seq<ClientSession> {
        self.clients@
    }

    /// The parameters, as (name, value) pairs.
    pub closed spec fn parameter_entries(&self) -> Seq<(String, String)> {
        self.parameters@
    }

    /// The name this server announces.
    pub closed spec fn name(&self) -> Seq<char> {
        self.server_name@
    }

    /// Channel ids increase along the registry and stay under the next id; latched slots are
    /// only held by latching channels and fit a data frame; client ids are distinct and each
    /// client holds at most one subscription per channel.
    pub closed spec fn wf(&self) -> bool {
        &&& forall|i: int, j: int|
            0 <= i < j < self.channels@.len() ==> self.channels@[i].info.id
                < self.channels@[j].info.id
        &&& forall|i: int|
            0 <= i < self.channels@.len() ==> self.channels@[i].info.id < self.next_channel_id
        &&& forall|i: int| 0 <= i < self.channels@.len() ==> latch_ok(#[trigger] self.channels@[i])
        &&& forall|i: int, j: int|
            0 <= i < j < self.clients@.len() ==> self.clients@[i].id != self.clients@[j].id
        &&& forall|i: int|
            0 <= i < self.clients@.len() ==> unique_channels(self.clients@[i].subscriptions@)
        &&& unique_names(self.parameters@)
    }

    /// A broker named `server_name` with no channels, clients or parameters.
    pub fn new(server_name: &str) -> (r: Self)
        ensures
            r.wf(),
            r.next_id() == 0,
            r.channel_entries().len() == 0,
            r.sessions().len() == 0,
            r.parameter_entries().len() == 0,
            r.name() == server_name@,
    {
        FoxgloveWebSocket {
            next_channel_id: 0,
            channels: Vec::new(),
            clients: Vec::new(),
            parameters: Vec::new(),
            server_name: server_name.to_owned(),
        }
    }


    /// Advertises a new channel whose schema encoding is given; see `create_publisher`.
    pub fn publish(
        &mut self,
        topic: String,
        encoding: String,
        schema_name: String,
        schema: String,
        schema_encoding: String,
        is_latching: bool,
    ) -> (r: Option<(Channel, Vec<Delivery>)>)
        requires
            old(self).wf(),
        ensures
            final(self).wf(),
            created(*old(self), *final(self), topic@, encoding@, schema_name@, schema@,
                Some(schema_encoding@), is_latching, r),
    {
        self.create_publisher(
            topic.as_str(),
            encoding.as_str(),
            schema_name.as_str(),
            SchemaDescriptor(schema),
            Some(schema_encoding.as_str()),
            is_latching,
        )
    }

    /// The messages that greet a client with session id `session_id`.
    pub fn greeting(&self, session_id: &str) -> (r: Vec<ServerMessage>)
        ensures
            greeting_of(*self, session_id@, r@),
    {
        let mut capabilities: Vec<String> = Vec::new();
        capabilities.push("parameters".to_owned());
        let info = ServerMessage::ServerInfo {
            name: self.server_name.clone(),
            capabilities,
            supported_encodings: Vec::new(),
            metadata: Vec::new(),
            session_id: session_id.to_owned(),
        };
        let mut channels: Vec<ServerChannelMessage> = Vec::new();
        let mut i: usize = 0;
        while i < self.channels.len()
            invariant
                i <= self.channels@.len(),
                channels@.len() == i,
                forall|j: int| 0 <= j < i ==> #[trigger] channels@[j] == self.channels@[j].info,
            decreases self.channels@.len() - i,
        {
            channels.push(self.channels[i].info.duplicate());
            i = i + 1;
        }
        let mut parameters: Vec<ParameterValue> = Vec::new();
        let mut j: usize = 0;
        while j < self.parameters.len()
            invariant
                j <= self.parameters@.len(),
                parameters@.len() == j,
                forall|k: int|
                    0 <= k < j ==> (#[trigger] parameters@[k]).name@ == self.parameters@[k].0@
                        && parameters@[k].value@ == self.parameters@[k].1@
                        && parameters@[k].field_type is None,
            decreases self.parameters@.len() - j,
        {
            parameters.push(ParameterValue::new(self.parameters[j].0.as_str(), self.parameters[j].1.as_str()));
            j = j + 1;
        }
        let mut r: Vec<ServerMessage> = Vec::new();
        r.push(info);
        r.push(ServerMessage::Advertise { channels });
        r.push(ServerMessage::ParameterValues { parameters, id: None });
        r
    }

    /// Registers the client `client_id` with no subscriptions; a client already registered
    /// under that id loses its subscriptions.
    pub fn add_client(&mut self, client_id: u128)
        requires
            old(self).wf(),
        ensures
            final(self).wf(),
            final(self).channel_entries() == old(self).channel_entries(),
            final(self).next_id() == old(self).next_id(),
            final(self).parameter_entries() == old(self).parameter_entries(),
            final(self).name() == old(self).name(),
            (forall|i: int| 0 <= i < old(self).sessions().len() ==> #[trigger] old(self).sessions()[i].id != client_id)
                ==> {
                let (o, n) = (old(self).sessions(), final(self).sessions());
                &&& n.len() == o.len() + 1
                &&& n.drop_last() == o
                &&& n.last().id == client_id
                &&& n.last().subscriptions@.len() == 0
            },
            forall|i: int|
                0 <= i < old(self).sessions().len() && #[trigger] old(self).sessions()[i].id == client_id
                    ==> client_updated(old(self).sessions(), final(self).sessions(), i, Seq::empty()),
    {
        match find_client(&self.clients, client_id) {
            Some(i) => {
                let ghost before = self.clients@;
                let mut session = self.clients.remove(i);
                session.subscriptions = Vec::new();
                self.clients.insert(i, session);
                assert(self.clients@ =~= before.update(i as int, session));
                assert forall|a: int, b: int| 0 <= a < b < before.len() implies before[a].id != before[b].id by {}
            },
            None => {
                let ghost before = self.clients@;
                self.clients.push(ClientSession { id: client_id, subscriptions: Vec::new() });
                assert(self.clients@.drop_last() =~= before);
            },
        }
    }

    /// Deregisters the client `client_id` and with it all its subscriptions; an unknown id is
    /// no error.
    pub fn remove_client(&mut self, client_id: u128)
        requires
            old(self).wf(),
        ensures
            final(self).wf(),
            final(self).channel_entries() == old(self).channel_entries(),
            final(self).next_id() == old(self).next_id(),
            final(self).parameter_entries() == old(self).parameter_entries(),
            final(self).name() == old(self).name(),
            forall|j: int| 0 <= j < final(self).sessions().len() ==> #[trigger] final(self).sessions()[j].id != client_id,
            (forall|i: int| 0 <= i < old(self).sessions().len() ==> #[trigger] old(self).sessions()[i].id != client_id)
                ==> final(self).sessions() == old(self).sessions(),
            forall|i: int|
                0 <= i < old(self).sessions().len() && #[trigger] old(self).sessions()[i].id == client_id
                    ==> final(self).sessions() == old(self).sessions().remove(i),
    {
        match find_client(&self.clients, client_id) {
            Some(i) => {
                let ghost before = self.clients@;
                self.clients.remove(i);
                assert forall|j: int| 0 <= j < self.clients@.len() implies #[trigger] self.clients@[j].id != client_id by {
                    if j >= i {
                        assert(self.clients@[j] == before[j + 1]);
                    }
                }
            },
            None => {},
        }
    }

    /// The value of the parameter `name`, if set.
    pub fn parameter(&self, name: &str) -> (r: Option<String>)
        ensures
            match r {
                Some(v) => param_lookup(self.parameter_entries(), name@) == Some(v@),
                None => param_lookup(self.parameter_entries(), name@) is None,
            },
    {
        let key = name.to_owned();
        let mut found: Option<String> = None;
        let mut i: usize = 0;
        while i < self.parameters.len()
            invariant
                i <= self.parameters@.len(),
                key@ == name@,
                match found {
                    Some(v) => param_lookup(self.parameters@.subrange(0, i as int), name@) == Some(v@),
                    None => param_lookup(self.parameters@.subrange(0, i as int), name@) is None,
                },
            decreases self.parameters@.len() - i,
        {
            assert(self.parameters@.subrange(0, i + 1).drop_last() =~= self.parameters@.subrange(0, i as int));
            if self.parameters[i].0 == key {
                found = Some(self.parameters[i].1.clone());
            }
            i = i + 1;
        }
        assert(self.parameters@.subrange(0, self.parameters@.len() as int) =~= self.parameters@);
        found
    }

    /// Sets the parameter `name` to `value`, replacing any earlier value.
    pub fn set_parameter(&mut self, name: &str, value: &str)
        requires
            old(self).wf(),
        ensures
            final(self).wf(),
            final(self).channel_entries() == old(self).channel_entries(),
            final(self).sessions() == old(self).sessions(),
            final(self).next_id() == old(self).next_id(),
            final(self).name() == old(self).name(),
            forall|n: Seq<char>|
                #[trigger] param_lookup(final(self).parameter_entries(), n) == if n == name@ {
                    Some(value@)
                } else {
                    param_lookup(old(self).parameter_entries(), n)
                },
    {
        let key = name.to_owned();
        let mut kept: Vec<(String, String)> = Vec::new();
        let mut i: usize = 0;
        while i < self.parameters.len()
            invariant
                i <= self.parameters@.len(),
                key@ == name@,
                kept@ == without_param(self.parameters@.subrange(0, i as int), name@),
            decreases self.parameters@.len() - i,
        {
            assert(self.parameters@.subrange(0, i + 1).drop_last() =~= self.parameters@.subrange(0, i as int));
            if !(self.parameters[i].0 == key) {
                kept.push((self.parameters[i].0.clone(), self.parameters[i].1.clone()));
            }
            i = i + 1;
        }
        assert(self.parameters@.subrange(0, self.parameters@.len() as int) =~= self.parameters@);
        let ghost w = kept@;
        kept.push((key, value.to_owned()));
        assert(kept@.drop_last() =~= w);
        proof {
            lemma_without_param_unique(self.parameters@, name@);
            lemma_without_param(self.parameters@, name@, name@);
        }
        assert forall|n: Seq<char>| #[trigger] param_lookup(kept@, n) == if n == name@ {
            Some(value@)
        } else {
            param_lookup(self.parameters@, n)
        } by {
            lemma_without_param(self.parameters@, name@, n);
        }
        self.parameters = kept;
    }


    /// Handles one frame from the client `client_id`. A subscribe records each request for an
    /// advertised channel (others are skipped) and replays that channel's latched message, if
    /// any, under the new subscription id; the replies come back in request order. An
    /// unsubscribe drops the client's subscriptions with the given ids. Parameter writes are
    /// applied in order; a parameter read is accepted and answered with nothing. A subscribe or
    /// unsubscribe from a client that is no longer registered (it raced with its disconnect)
    /// changes nothing and is no error. A close frame is no error; binary and other frames are.
    pub fn handle_client_msg(&mut self, client_id: u128, frame: &IncomingFrame) -> (r: Result<
        Vec<OutboundFrame>,
        ProtocolError,
    >)
        requires
            old(self).wf(),
        ensures
            final(self).wf(),
            handled(*old(self), *final(self), client_id, *frame, r),
    {
        match frame {
            IncomingFrame::Binary(_) => Err(ProtocolError::BinaryUnsupported),
            IncomingFrame::Other => Err(ProtocolError::UnexpectedFrame),
            IncomingFrame::Close => Ok(Vec::new()),
            IncomingFrame::Text(msg) => match msg {
                ClientMessage::Subscribe { subscriptions } => match find_client(&self.clients, client_id) {
                    None => Ok(Vec::new()),
                    Some(i) => Ok(self.subscribe_client(i, subscriptions)),
                },
                ClientMessage::Unsubscribe { subscription_ids } => match find_client(&self.clients, client_id) {
                    None => Ok(Vec::new()),
                    Some(i) => {
                        self.unsubscribe_client(i, subscription_ids);
                        Ok(Vec::new())
                    },
                },
                ClientMessage::GetParameters { .. } => Ok(Vec::new()),
                ClientMessage::SetParameters { parameters, .. } => {
                    self.set_parameters(parameters);
                    Ok(Vec::new())
                },
            },
        }
    }

    fn subscribe_client(&mut self, i: usize, reqs: &Vec<ClientSubscriptionMessage>) -> (r: Vec<OutboundFrame>)
        requires
            old(self).wf(),
            i < old(self).sessions().len(),
        ensures
            final(self).wf(),
            final(self).channel_entries() == old(self).channel_entries(),
            final(self).next_id() == old(self).next_id(),
            final(self).name() == old(self).name(),
            final(self).parameter_entries() == old(self).parameter_entries(),
            ({
                let (subs, plan) = subscribe_all(
                    old(self).channel_entries(),
                    old(self).sessions()[i as int].subscriptions@,
                    reqs@,
                );
                &&& client_updated(old(self).sessions(), final(self).sessions(), i as int, subs)
                &&& data_frames(r@, plan)
            }),
    {
        let ghost before = self.clients@;
        let ghost subs0 = self.clients@[i as int].subscriptions@;
        let mut session = self.clients.remove(i);
        let mut frames: Vec<OutboundFrame> = Vec::new();
        let mut j: usize = 0;
        while j < reqs.len()
            invariant
                j <= reqs@.len(),
                self.wf_channels(),
                self.channels@ == old(self).channels@,
                session.id == before[i as int].id,
                unique_channels(session.subscriptions@),
                session.subscriptions@ == subscribe_all(self.channels@, subs0, reqs@.subrange(0, j as int)).0,
                data_frames(frames@, subscribe_all(self.channels@, subs0, reqs@.subrange(0, j as int)).1),
            decreases reqs@.len() - j,
        {
            let q = reqs[j];
            assert(reqs@.subrange(0, j + 1).drop_last() =~= reqs@.subrange(0, j as int));
            match find_channel(&self.channels, q.channel_id) {
                None => {},
                Some(ci) => {
                    proof {
                        lemma_with_subscription(session.subscriptions@, q.channel_id, q.id, q.channel_id);
                    }
                    set_subscription(&mut session.subscriptions, q.channel_id, q.id);
                    assert(latch_ok(self.channels@[ci as int]));
                    match &self.channels[ci].latched {
                        Some(m) => {
                            let bytes = encode_message_data(q.id, m.timestamp_ns, m.data.as_slice());
                            frames.push(OutboundFrame::Data(bytes));
                        },
                        None => {},
                    }
                },
            }
            j = j + 1;
        }
        assert(reqs@.subrange(0, reqs@.len() as int) =~= reqs@);
        self.clients.insert(i, session);
        assert(self.clients@ =~= before.update(i as int, session));
        assert forall|a: int, b: int| 0 <= a < b < before.len() implies before[a].id != before[b].id by {}
        frames
    }

    fn unsubscribe_client(&mut self, i: usize, ids: &Vec<u32>)
        requires
            old(self).wf(),
            i < old(self).sessions().len(),
        ensures
            final(self).wf(),
            final(self).channel_entries() == old(self).channel_entries(),
            final(self).next_id() == old(self).next_id(),
            final(self).name() == old(self).name(),
            final(self).parameter_entries() == old(self).parameter_entries(),
            client_updated(
                old(self).sessions(),
                final(self).sessions(),
                i as int,
                without_ids(old(self).sessions()[i as int].subscriptions@, ids@),
            ),
    {
        let ghost before = self.clients@;
        let mut session = self.clients.remove(i);
        proof {
            lemma_lookup_without_ids(session.subscriptions@, ids@, 0);
        }
        remove_subscriptions(&mut session.subscriptions, ids);
        self.clients.insert(i, session);
        assert(self.clients@ =~= before.update(i as int, session));
        assert forall|a: int, b: int| 0 <= a < b < before.len() implies before[a].id != before[b].id by {}
    }

    fn set_parameters(&mut self, ps: &Vec<(String, String)>)
        requires
            old(self).wf(),
        ensures
            final(self).wf(),
            final(self).channel_entries() == old(self).channel_entries(),
            final(self).sessions() == old(self).sessions(),
            final(self).next_id() == old(self).next_id(),
            final(self).name() == old(self).name(),
            forall|n: Seq<char>|
                #[trigger] param_lookup(final(self).parameter_entries(), n) == match param_lookup(ps@, n) {
                    Some(v) => Some(v),
                    None => param_lookup(old(self).parameter_entries(), n),
                },
    {
        let mut j: usize = 0;
        while j < ps.len()
            invariant
                j <= ps@.len(),
                self.wf(),
                self.channels@ == old(self).channels@,
                self.clients@ == old(self).clients@,
                self.next_channel_id == old(self).next_channel_id,
                self.server_name@ == old(self).server_name@,
                forall|n: Seq<char>|
                    #[trigger] param_lookup(self.parameters@, n) == match param_lookup(ps@.subrange(0, j as int), n) {
                        Some(v) => Some(v),
                        None => param_lookup(old(self).parameters@, n),
                    },
            decreases ps@.len() - j,
        {
            assert(ps@.subrange(0, j + 1).drop_last() =~= ps@.subrange(0, j as int));
            self.set_parameter(ps[j].0.as_str(), ps[j].1.as_str());
            j = j + 1;
        }
        assert(ps@.subrange(0, ps@.len() as int) =~= ps@);
    }

    /// The channel part of `wf`.
    closed spec fn wf_channels(&self) -> bool {
        &&& forall|i: int, j: int|
            0 <= i < j < self.channels@.len() ==> self.channels@[i].info.id
                < self.channels@[j].info.id
        &&& forall|i: int| 0 <= i < self.channels@.len() ==> latch_ok(#[trigger] self.channels@[i])
    }

    /// Advertises a new channel: allocates the next id, registers the channel and queues an
    /// `advertise` of it for every connected client. `None`, with nothing changed, once the
    /// id space is used up.
    pub fn create_publisher(
        &mut self,
        topic: &str,
        encoding: &str,
        schema_name: &str,
        schema: SchemaDescriptor,
        schema_encoding: Option<&str>,
        is_latching: bool,
    ) -> (r: Option<(Channel, Vec<Delivery>)>)
        requires
            old(self).wf(),
        ensures
            final(self).wf(),
            created(*old(self), *final(self), topic@, encoding@, schema_name@, schema.0@,
                match schema_encoding { Some(e) => Some(e@), None => None }, is_latching, r),
    {
        if self.next_channel_id == usize::MAX {
            return None;
        }
        let id = self.next_channel_id;
        let info = ServerChannelMessage {
            id,
            topic: topic.to_owned(),
            encoding: encoding.to_owned(),
            schema_name: schema_name.to_owned(),
            schema: schema.0,
            schema_encoding: match schema_encoding {
                Some(e) => Some(e.to_owned()),
                None => None,
            },
        };
        let mut ds: Vec<Delivery> = Vec::new();
        let mut k: usize = 0;
        while k < self.clients.len()
            invariant
                k <= self.clients@.len(),
                ds@.len() == k,
                forall|j: int| 0 <= j < k ==> is_advertise_delivery(ds@[j], self.clients@[j].id, info),
            decreases self.clients@.len() - k,
        {
            let mut channels: Vec<ServerChannelMessage> = Vec::new();
            channels.push(info.duplicate());
            assert(channels@ =~= seq![info]);
            ds.push(
                Delivery {
                    client_id: self.clients[k].id,
                    frame: OutboundFrame::Control(ServerMessage::Advertise { channels }),
                },
            );
            k = k + 1;
        }
        let ghost old_channels = self.channels@;
        self.channels.push(ChannelEntry { info, is_latching, latched: None });
        self.next_channel_id = id + 1;
        assert(self.channels@.drop_last() =~= old_channels);
        Some((Channel { id, topic: topic.to_owned(), is_latching }, ds))
    }
}


/// With increasing ids, the entry found for the id of entry `i` is entry `i`.
proof fn lemma_channel_of_at(chs: Seq<ChannelEntry>, i: int)
    requires
        0 <= i < chs.len(),
        forall|a: int, b: int| 0 <= a < b < chs.len() ==> chs[a].info.id < chs[b].info.id,
    ensures
        channel_of(chs, chs[i].info.id) == Some(chs[i]),
    decreases chs.len(),
{
    if i < chs.len() - 1 {
        assert(chs[i].info.id < chs.last().info.id);
        assert(chs.drop_last()[i] == chs[i]);
        lemma_channel_of_at(chs.drop_last(), i);
    }
}

/// An entry found for `id` is one of the entries, and carries `id`.
proof fn lemma_channel_of_member(chs: Seq<ChannelEntry>, id: usize)
    ensures
        match channel_of(chs, id) {
            Some(e) => exists|i: int| 0 <= i < chs.len() && chs[i] == e && e.info.id == id,
            None => forall|j: int| 0 <= j < chs.len() ==> #[trigger] chs[j].info.id != id,
        },
    decreases chs.len(),
{
    if chs.len() > 0 {
        lemma_channel_of_member(chs.drop_last(), id);
        match channel_of(chs, id) {
            Some(e) => {
                if chs.last().info.id == id {
                    assert(chs[chs.len() - 1] == e);
                } else {
                    let i = choose|i: int| 0 <= i < chs.drop_last().len() && chs.drop_last()[i] == e && e.info.id == id;
                    assert(chs[i] == e);
                }
            },
            None => {
                assert forall|j: int| 0 <= j < chs.len() implies #[trigger] chs[j].info.id != id by {
                    if j < chs.len() - 1 {
                        assert(chs.drop_last()[j] == chs[j]);
                    }
                }
            },
        }
    }
}

/// Every subscriber listed for `id` is a client holding a subscription to `id` under that
/// subscription id.
proof fn lemma_subscribers_member(cs: Seq<ClientSession>, id: usize, k: int)
    requires
        0 <= k < subscribers(cs, id).len(),
    ensures
        exists|j: int|
            0 <= j < cs.len() && cs[j].id == subscribers(cs, id)[k].0 && lookup(
                #[trigger] cs[j].subscriptions@,
                id,
            ) == Some(subscribers(cs, id)[k].1),
    decreases cs.len(),
{
    let p = subscribers(cs.drop_last(), id);
    if k < p.len() {
        lemma_subscribers_member(cs.drop_last(), id, k);
        let j = choose|j: int|
            0 <= j < cs.drop_last().len() && cs.drop_last()[j].id == p[k].0 && lookup(
                #[trigger] cs.drop_last()[j].subscriptions@,
                id,
            ) == Some(p[k].1);
        assert(cs[j] == cs.drop_last()[j]);
    } else {
        assert(cs[cs.len() - 1] == cs.last());
    }
}

/// Channel ids are unique and increase: a channel created after another, with any other
/// operations in between that keep the next id, gets a larger id than the first and than every
/// channel registered when it is created.
pub proof fn lemma_channel_ids_increase(
    s0: FoxgloveWebSocket,
    s1: FoxgloveWebSocket,
    s2: FoxgloveWebSocket,
    s3: FoxgloveWebSocket,
    a: (Seq<char>, Seq<char>, Seq<char>, Seq<char>, Option<Seq<char>>, bool),
    b: (Seq<char>, Seq<char>, Seq<char>, Seq<char>, Option<Seq<char>>, bool),
    r1: Option<(Channel, Vec<Delivery>)>,
    r2: Option<(Channel, Vec<Delivery>)>,
)
    requires
        s0.wf(),
        s2.wf(),
        created(s0, s1, a.0, a.1, a.2, a.3, a.4, a.5, r1),
        s1.next_id() <= s2.next_id(),
        created(s2, s3, b.0, b.1, b.2, b.3, b.4, b.5, r2),
        r1 is Some,
        r2 is Some,
    ensures
        match (r1, r2) {
            (Some((c1, _)), Some((c2, _))) => c1.spec_id() < c2.spec_id() && forall|i: int|
                0 <= i < s2.channel_entries().len() ==> #[trigger] s2.channel_entries()[i].info.id
                    < c2.spec_id(),
            _ => false,
        },
{
}


/// What handling a subscribe with the single request `q` does, spelled out.
proof fn lemma_subscribe_one(
    s: FoxgloveWebSocket,
    s1: FoxgloveWebSocket,
    client_id: u128,
    frame: IncomingFrame,
    q: ClientSubscriptionMessage,
    r: Result<Vec<OutboundFrame>, ProtocolError>,
)
    requires
        s.wf(),
        exists|i: int| 0 <= i < s.sessions().len() && s.sessions()[i].id == client_id,
        frame matches IncomingFrame::Text(ClientMessage::Subscribe { subscriptions })
            && subscriptions@ == seq![q],
        channel_of(s.channel_entries(), q.channel_id) is Some,
        handled(s, s1, client_id, frame, r),
    ensures
        r matches Ok(fs) && data_frames(
            fs@,
            match latched_of(channel_of(s.channel_entries(), q.channel_id)->0) {
                Some((t, p)) => seq![(q.id, t, p)],
                None => Seq::empty(),
            },
        ),
        exists|i: int|
            0 <= i < s1.sessions().len() && s1.sessions()[i].id == client_id && lookup(
                s1.sessions()[i].subscriptions@,
                q.channel_id,
            ) == Some(q.id),
{
    let v = match frame {
        IncomingFrame::Text(ClientMessage::Subscribe { subscriptions }) => subscriptions,
        _ => arbitrary(),
    };
    assert(v@ == seq![q]);
    let chs = s.channel_entries();
    let i = choose|i: int|
        0 <= i < s.sessions().len() && s.sessions()[i].id == client_id && {
            let (subs, plan) = subscribe_all(chs, s.sessions()[i].subscriptions@, v@);
            &&& client_updated(s.sessions(), s1.sessions(), i, subs)
            &&& r matches Ok(fs) && data_frames(fs@, plan)
            &&& s1.parameter_entries() == s.parameter_entries()
        };
    let subs0 = s.sessions()[i].subscriptions@;
    assert(v@.drop_last() =~= Seq::<ClientSubscriptionMessage>::empty());
    assert(subscribe_all(chs, subs0, v@.drop_last()) == (subs0, Seq::<(u32, u64, Seq<u8>)>::empty()));
    let e = channel_of(chs, q.channel_id)->0;
    assert(subscribe_all(chs, subs0, v@).0 == with_subscription(subs0, q.channel_id, q.id));
    lemma_with_subscription(subs0, q.channel_id, q.id, q.channel_id);
    assert(s1.sessions()[i].subscriptions@ == with_subscription(subs0, q.channel_id, q.id));
    match latched_of(e) {
        Some((t, p)) => {
            assert(subscribe_all(chs, subs0, v@).1 =~= seq![(q.id, t, p)]);
        },
        None => {
            assert(subscribe_all(chs, subs0, v@).1 =~= Seq::<(u32, u64, Seq<u8>)>::empty());
        },
    }
}

/// Subscribing to a channel that holds a latched message records the subscription and answers
/// with exactly that message under the new subscription id, before anything published later.
pub proof fn lemma_latched_replayed_on_subscribe(
    s: FoxgloveWebSocket,
    s1: FoxgloveWebSocket,
    client_id: u128,
    frame: IncomingFrame,
    q: ClientSubscriptionMessage,
    r: Result<Vec<OutboundFrame>, ProtocolError>,
)
    requires
        s.wf(),
        exists|i: int| 0 <= i < s.sessions().len() && s.sessions()[i].id == client_id,
        frame matches IncomingFrame::Text(ClientMessage::Subscribe { subscriptions })
            && subscriptions@ == seq![q],
        channel_of(s.channel_entries(), q.channel_id) matches Some(e) && latched_of(e) is Some,
        handled(s, s1, client_id, frame, r),
    ensures
        r matches Ok(fs) && fs@.len() == 1 && (fs@[0] matches OutboundFrame::Data(b) && {
            let (t, p) = latched_of(channel_of(s.channel_entries(), q.channel_id)->0)->0;
            b@ == data_frame(q.id, t, p)
        }),
        exists|i: int|
            0 <= i < s1.sessions().len() && s1.sessions()[i].id == client_id && lookup(
                s1.sessions()[i].subscriptions@,
                q.channel_id,
            ) == Some(q.id),
{
    lemma_subscribe_one(s, s1, client_id, frame, q, r);
}

/// Subscribing to a channel with no latched message records the subscription and answers with
/// nothing: the client hears of the channel only at its next publish.
pub proof fn lemma_nothing_before_next_publish(
    s: FoxgloveWebSocket,
    s1: FoxgloveWebSocket,
    client_id: u128,
    frame: IncomingFrame,
    q: ClientSubscriptionMessage,
    r: Result<Vec<OutboundFrame>, ProtocolError>,
)
    requires
        s.wf(),
        exists|i: int| 0 <= i < s.sessions().len() && s.sessions()[i].id == client_id,
        frame matches IncomingFrame::Text(ClientMessage::Subscribe { subscriptions })
            && subscriptions@ == seq![q],
        channel_of(s.channel_entries(), q.channel_id) matches Some(e) && latched_of(e) is None,
        handled(s, s1, client_id, frame, r),
    ensures
        r matches Ok(fs) && fs@.len() == 0,
        exists|i: int|
            0 <= i < s1.sessions().len() && s1.sessions()[i].id == client_id && lookup(
                s1.sessions()[i].subscriptions@,
                q.channel_id,
            ) == Some(q.id),
{
    lemma_subscribe_one(s, s1, client_id, frame, q, r);
}

/// After an unsubscribe, the client keeps exactly its subscriptions whose ids were not named,
/// and no later publish on any channel reaches it under a named id.
pub proof fn lemma_unsubscribe_stops_delivery(
    s: FoxgloveWebSocket,
    s1: FoxgloveWebSocket,
    client_id: u128,
    frame: IncomingFrame,
    ids: Seq<u32>,
    r: Result<Vec<OutboundFrame>, ProtocolError>,
)
    requires
        s.wf(),
        s1.wf(),
        exists|i: int| 0 <= i < s.sessions().len() && s.sessions()[i].id == client_id,
        frame matches IncomingFrame::Text(ClientMessage::Unsubscribe { subscription_ids })
            && subscription_ids@ == ids,
        handled(s, s1, client_id, frame, r),
    ensures
        exists|i: int|
            0 <= i < s1.sessions().len() && s1.sessions()[i].id == client_id && forall|c: usize|
                #[trigger] lookup(s1.sessions()[i].subscriptions@, c) == match lookup(
                    s.sessions()[i].subscriptions@,
                    c,
                ) {
                    Some(x) => if ids.contains(x) {
                        None
                    } else {
                        Some(x)
                    },
                    None => None,
                },
        forall|c: usize, k: int|
            0 <= k < subscribers(s1.sessions(), c).len() && (#[trigger] subscribers(s1.sessions(), c)[k]).0
                == client_id ==> !ids.contains(subscribers(s1.sessions(), c)[k].1),
{
    let i = choose|i: int|
        0 <= i < s.sessions().len() && s.sessions()[i].id == client_id && {
            &&& client_updated(
                s.sessions(),
                s1.sessions(),
                i,
                without_ids(s.sessions()[i].subscriptions@, ids),
            )
            &&& r matches Ok(fs) && fs@.len() == 0
            &&& s1.parameter_entries() == s.parameter_entries()
        };
    let subs0 = s.sessions()[i].subscriptions@;
    assert(unique_channels(subs0));
    assert forall|c: usize| #[trigger] lookup(s1.sessions()[i].subscriptions@, c) == match lookup(subs0, c) {
        Some(x) => if ids.contains(x) {
            None
        } else {
            Some(x)
        },
        None => None,
    } by {
        lemma_lookup_without_ids(subs0, ids, c);
    }
    assert forall|c: usize, k: int|
        0 <= k < subscribers(s1.sessions(), c).len() && (#[trigger] subscribers(s1.sessions(), c)[k]).0
            == client_id implies !ids.contains(subscribers(s1.sessions(), c)[k].1) by {
        lemma_subscribers_member(s1.sessions(), c, k);
        let j = choose|j: int|
            0 <= j < s1.sessions().len() && s1.sessions()[j].id == subscribers(s1.sessions(), c)[k].0
                && lookup(#[trigger] s1.sessions()[j].subscriptions@, c) == Some(
                subscribers(s1.sessions(), c)[k].1,
            );
        if j != i {
            assert(s1.sessions()[j] == s.sessions()[j]);
            assert(s.sessions()[j].id != s.sessions()[i].id);
        }
        lemma_lookup_without_ids(subs0, ids, c);
    }
}

/// Unadvertising happens once: the first call on a registered channel tells each subscriber
/// once and removes the channel from every later snapshot; a second call tells nobody.
pub proof fn lemma_unadvertise_once(
    s0: FoxgloveWebSocket,
    s1: FoxgloveWebSocket,
    s2: FoxgloveWebSocket,
    id: usize,
    r1: Seq<Delivery>,
    r2: Seq<Delivery>,
)
    requires
        channel_of(s0.channel_entries(), id) is Some,
        unadvertise_result(s0, s1, id, r1),
        unadvertise_result(s1, s2, id, r2),
    ensures
        unadvertised(s0.sessions(), id, r1),
        r2.len() == 0,
        forall|i: int| 0 <= i < s1.channel_entries().len() ==> #[trigger] s1.channel_entries()[i].info.id != id,
{
    lemma_channel_of_member(s1.channel_entries(), id);
}

/// A send on a latching channel with no subscribers delivers nothing and still fills the
/// latched slot: a client that subscribes afterwards is answered with that message.
pub proof fn lemma_latch_without_subscribers(
    s0: FoxgloveWebSocket,
    s1: FoxgloveWebSocket,
    s2: FoxgloveWebSocket,
    id: usize,
    timestamp_ns: u64,
    payload: Seq<u8>,
    ds: Seq<Delivery>,
    client_id: u128,
    frame: IncomingFrame,
    sub_id: u32,
    r: Result<Vec<OutboundFrame>, ProtocolError>,
)
    requires
        s0.wf(),
        s1.wf(),
        channel_of(s0.channel_entries(), id) matches Some(e) && e.is_latching,
        subscribers(s0.sessions(), id).len() == 0,
        send_result(s0, s1, id, timestamp_ns, payload, ds),
        exists|i: int| 0 <= i < s1.sessions().len() && s1.sessions()[i].id == client_id,
        frame matches IncomingFrame::Text(ClientMessage::Subscribe { subscriptions })
            && subscriptions@ == seq![ClientSubscriptionMessage { id: sub_id, channel_id: id }],
        handled(s1, s2, client_id, frame, r),
    ensures
        ds.len() == 0,
        latched_of(channel_of(s1.channel_entries(), id)->0) == Some((timestamp_ns, payload)),
        r matches Ok(fs) && fs@.len() == 1 && (fs@[0] matches OutboundFrame::Data(b)
            && b@ == data_frame(sub_id, timestamp_ns, payload)),
{
    let chs0 = s0.channel_entries();
    let chs1 = s1.channel_entries();
    lemma_channel_of_member(chs0, id);
    let i = choose|i: int| 0 <= i < chs0.len() && chs0[i] == channel_of(chs0, id)->0 && channel_of(chs0, id)->0.info.id == id;
    assert(chs1[i].info == chs0[i].info);
    assert forall|a: int, b: int| 0 <= a < b < chs1.len() implies chs1[a].info.id < chs1[b].info.id by {
        assert(chs1[a].info == chs0[a].info);
        assert(chs1[b].info == chs0[b].info);
    }
    lemma_channel_of_at(chs1, i);
    assert(latched_of(chs1[i]) == Some((timestamp_ns, payload)));
    lemma_latched_replayed_on_subscribe(s1, s2, client_id, frame, ClientSubscriptionMessage { id: sub_id, channel_id: id }, r);
}


/// What a well-formed broker guarantees: channel ids increase along the registry and are
/// all below the next id to hand out, client ids are distinct, each client holds at most one
/// subscription per channel, and parameter names are distinct.
pub proof fn lemma_well_formed(s: FoxgloveWebSocket)
    requires
        s.wf(),
    ensures
        forall|i: int, j: int|
            0 <= i < j < s.channel_entries().len() ==> s.channel_entries()[i].info.id
                < s.channel_entries()[j].info.id,
        forall|i: int|
            0 <= i < s.channel_entries().len() ==> #[trigger] s.channel_entries()[i].info.id
                < s.next_id(),
        forall|i: int, j: int|
            0 <= i < j < s.sessions().len() ==> s.sessions()[i].id != s.sessions()[j].id,
        forall|i: int|
            0 <= i < s.sessions().len() ==> unique_channels(#[trigger] s.sessions()[i].subscriptions@),
        unique_names(s.parameter_entries()),
{
}


/// Every client subscribed to `id` is listed among its subscribers with its own id.
proof fn lemma_subscriber_listed(cs: Seq<ClientSession>, id: usize, j: int)
    requires
        0 <= j < cs.len(),
        lookup(cs[j].subscriptions@, id) is Some,
    ensures
        exists|k: int|
            0 <= k < subscribers(cs, id).len() && #[trigger] subscribers(cs, id)[k] == (
                cs[j].id,
                lookup(cs[j].subscriptions@, id)->0,
            ),
    decreases cs.len(),
{
    let p = subscribers(cs.drop_last(), id);
    if j == cs.len() - 1 {
        assert(subscribers(cs, id)[p.len() as int] == (cs[j].id, lookup(cs[j].subscriptions@, id)->0));
    } else {
        assert(cs.drop_last()[j] == cs[j]);
        lemma_subscriber_listed(cs.drop_last(), id, j);
        let k = choose|k: int|
            0 <= k < p.len() && #[trigger] p[k] == (cs[j].id, lookup(cs[j].subscriptions@, id)->0);
        assert(subscribers(cs, id)[k] == p[k]);
    }
}

/// A publish reaches each subscriber on its own: for every client subscribed to the channel
/// the send returns a delivery of the message under that client's subscription id, whatever
/// becomes of the deliveries to other clients.
pub proof fn lemma_publish_reaches_every_subscriber(
    s: FoxgloveWebSocket,
    s1: FoxgloveWebSocket,
    id: usize,
    timestamp_ns: u64,
    payload: Seq<u8>,
    ds: Seq<Delivery>,
    j: int,
)
    requires
        send_result(s, s1, id, timestamp_ns, payload, ds),
        0 <= j < s.sessions().len(),
        lookup(s.sessions()[j].subscriptions@, id) is Some,
    ensures
        exists|k: int|
            0 <= k < ds.len() && is_data_delivery(
                #[trigger] ds[k],
                s.sessions()[j].id,
                data_frame(lookup(s.sessions()[j].subscriptions@, id)->0, timestamp_ns, payload),
            ),
{
    lemma_subscriber_listed(s.sessions(), id, j);
    let subs = subscribers(s.sessions(), id);
    let k = choose|k: int|
        0 <= k < subs.len() && #[trigger] subs[k] == (
            s.sessions()[j].id,
            lookup(s.sessions()[j].subscriptions@, id)->0,
        );
    assert(is_data_delivery(ds[k], subs[k].0, data_frame(subs[k].1, timestamp_ns, payload)));
}

} // verus!
