//! The clients of a flexicast source.

use vstd::prelude::*;

use crate::bytes::copy_bytes;
use crate::bytes::same_bytes;
use crate::net::SocketAddr;
use crate::source::token::conn_id;
use crate::source::token::hmac_sha256;
use crate::source::token::mint_token;
use crate::source::token::minted_token_is_valid;
use crate::source::token::token_of;
use crate::source::token::validate_token;
use crate::source::token::validated;
use crate::source::token::CONN_ID_LEN;
use crate::source::token::MAX_INPUT_LEN;
use crate::time::since;
use crate::time::Duration;
use crate::time::Instant;

verus! {

/// How many nanoseconds a source goes on without receivers.
pub const NO_RECEIVER_NANOS: u128 = 10_000_000_000;

/// How long the source waits for packets at most, in milliseconds.
pub const RTP_READ_TIMEOUT_MILLIS: u64 = 300;

/// What a source reads in the header of a packet.
#[derive(Debug)]
pub struct PacketHeader {
    /// Whether the packet starts a connection.
    pub is_initial: bool,
    /// Whether the version of QUIC is supported.
    pub version_supported: bool,
    /// Connection identifier of the server.
    pub dcid: Vec<u8>,
    /// Address validation token, which packets that start a connection have.
    pub token: Option<Vec<u8>>,
}

/// Why a packet is dropped.
#[derive(Clone, Copy, Debug, PartialEq, Eq, Structural)]
pub enum DropReason {
    /// The packet is of no connection and does not start one.
    NotInitial,
    /// The address validation token is not valid.
    InvalidToken,
    /// The connection identifier has not the length of those of the server.
    InvalidDcid,
}

/// What to do about a packet.
#[derive(Debug)]
pub enum PacketAction {
    /// Give it to the connection of a client.
    Existing(u64),
    /// Drop it.
    Drop(DropReason),
    /// Tell the client which versions are supported.
    NegotiateVersion,
    /// Ask the client to come back with a token.
    Retry {
        /// The token.
        token: Vec<u8>,
        /// The connection identifier that the client has to use.
        scid: Vec<u8>,
    },
    /// Start a connection.
    Accept {
        /// The connection identifier that the client used first.
        odcid: Vec<u8>,
        /// The connection identifier of the server.
        scid: Vec<u8>,
    },
}

/// What a [`PacketAction`] stands for.
#[verifier::ext_equal]
pub enum ActionModel {
    /// Give it to the connection of a client.
    Existing(u64),
    /// Drop it.
    Drop(DropReason),
    /// Tell the client which versions are supported.
    NegotiateVersion,
    /// Ask the client to come back with a token, on a connection identifier.
    Retry(Seq<u8>, Seq<u8>),
    /// Start a connection, from the first identifier to that of the server.
    Accept(Seq<u8>, Seq<u8>),
}

impl View for PacketAction {
    type V = ActionModel;

    open spec fn view(&self) -> ActionModel {
        match self {
            PacketAction::Existing(id) => ActionModel::Existing(*id),
            PacketAction::Drop(r) => ActionModel::Drop(*r),
            PacketAction::NegotiateVersion => ActionModel::NegotiateVersion,
            PacketAction::Retry { token, scid } => ActionModel::Retry(token@, scid@),
            PacketAction::Accept { odcid, scid } => ActionModel::Accept(odcid@, scid@),
        }
    }
}

/// A client.
#[derive(Clone, Copy, Debug, PartialEq, Eq, Structural)]
pub struct Client {
    /// Identifier of the client.
    pub client_id: u64,
    /// Position of the channel that the client listens to.
    pub current_channel_idx: Option<usize>,
}

/// A connection identifier of a client.
#[derive(Debug)]
pub struct ClientConnId {
    /// The connection identifier.
    pub cid: Vec<u8>,
    /// Identifier of the client.
    pub client_id: u64,
}

/// The clients of a source.
#[derive(Debug)]
pub struct Clients {
    /// The clients, in the order in which they came.
    pub clients: Vec<Client>,
    /// Their connection identifiers.
    pub ids: Vec<ClientConnId>,
    /// Identifier of the next client.
    pub next_client_id: u64,
    /// How many clients listen to each channel.
    pub receivers: Vec<u64>,
}

/// What a [`Clients`] stands for.
#[verifier::ext_equal]
pub struct ClientsModel {
    /// The clients, in the order in which they came.
    pub clients: Seq<Client>,
    /// Their connection identifiers, with the client of each.
    pub ids: Seq<(Seq<u8>, u64)>,
    /// Identifier of the next client.
    pub next_client_id: u64,
    /// How many clients listen to each channel.
    pub receivers: Seq<u64>,
}

impl View for Clients {
    type V = ClientsModel;

    open spec fn view(&self) -> ClientsModel {
        ClientsModel {
            clients: self.clients@,
            ids: Seq::new(self.ids@.len(), |i: int| (self.ids@[i].cid@, self.ids@[i].client_id)),
            next_client_id: self.next_client_id,
            receivers: self.receivers@,
        }
    }
}

/// How many clients listen to a channel.
pub open spec fn listeners(clients: Seq<Client>, channel: int) -> nat
    decreases clients.len(),
{
    if clients.len() == 0 {
        0
    } else {
        listeners(clients.drop_last(), channel) + if clients.last().current_channel_idx matches Some(
            c,
        ) && c == channel {
            1nat
        } else {
            0
        }
    }
}

/// The client of a connection identifier.
pub open spec fn client_of(ids: Seq<(Seq<u8>, u64)>, cid: Seq<u8>) -> Option<u64>
    decreases ids.len(),
{
    if ids.len() == 0 {
        None
    } else if ids.last().0 == cid {
        Some(ids.last().1)
    } else {
        client_of(ids.drop_last(), cid)
    }
}

/// What to do about a packet from `src`, when `own` is the connection identifier
/// that the server chooses for it.
pub open spec fn action_for(
    ids: Seq<(Seq<u8>, u64)>,
    h: PacketHeader,
    src: SocketAddr,
    own: Seq<u8>,
) -> ActionModel {
    match client_of(ids, h.dcid@) {
        Some(id) => ActionModel::Existing(id),
        None => if !h.is_initial {
            ActionModel::Drop(DropReason::NotInitial)
        } else if !h.version_supported {
            ActionModel::NegotiateVersion
        } else if (h.token->0)@.len() == 0 {
            ActionModel::Retry(token_of(h.dcid@, src), own)
        } else {
            match validated(src, (h.token->0)@) {
                None => ActionModel::Drop(DropReason::InvalidToken),
                Some(odcid) => if h.dcid@.len() != own.len() {
                    ActionModel::Drop(DropReason::InvalidDcid)
                } else {
                    ActionModel::Accept(odcid, h.dcid@)
                },
            }
        },
    }
}

/// Whether each connection identifier occurs once.
pub open spec fn distinct_cids(ids: Seq<(Seq<u8>, u64)>) -> bool {
    forall|i: int, j: int|
        0 <= i < j < ids.len() ==> (#[trigger] ids[i]).0 != (#[trigger] ids[j]).0
}

/// All connection identifiers but one.
pub open spec fn other_than(cid: Seq<u8>) -> spec_fn((Seq<u8>, u64)) -> bool {
    |e: (Seq<u8>, u64)| e.0 != cid
}

/// Some connection identifiers when `cid` is that of the client `client_id`, whichever
/// client it was of before.
pub open spec fn with_cid(ids: Seq<(Seq<u8>, u64)>, cid: Seq<u8>, client_id: u64) -> Seq<
    (Seq<u8>, u64),
> {
    ids.filter(other_than(cid)).push((cid, client_id))
}

impl ClientsModel {
    /// Identifiers of clients are given in order, the number of listeners of each
    /// channel is known, and each connection identifier is that of one client.
    pub open spec fn wf(self) -> bool {
        &&& forall|i: int, j: int|
            0 <= i < j < self.clients.len() ==> (#[trigger] self.clients[i]).client_id < (
            #[trigger] self.clients[j]).client_id
        &&& forall|i: int|
            0 <= i < self.clients.len() ==> (#[trigger] self.clients[i]).client_id
                < self.next_client_id
        &&& forall|i: int|
            0 <= i < self.clients.len() && (
            #[trigger] self.clients[i]).current_channel_idx is Some
                ==> self.clients[i].current_channel_idx->0 < self.receivers.len()
        &&& forall|c: int|
            0 <= c < self.receivers.len() ==> #[trigger] self.receivers[c] == listeners(
                self.clients,
                c,
            )
        &&& forall|k: int|
            0 <= k < self.ids.len() ==> self.has_client((#[trigger] self.ids[k]).1)
        &&& distinct_cids(self.ids)
    }

    /// Whether there is a client with an identifier.
    pub open spec fn has_client(self, id: u64) -> bool {
        exists|i: int| 0 <= i < self.clients.len() && (#[trigger] self.clients[i]).client_id == id
    }

    /// The clients with one more connection identifier.
    pub open spec fn with_id(self, cid: Seq<u8>, client_id: u64) -> ClientsModel {
        ClientsModel { ids: with_cid(self.ids, cid, client_id), ..self }
    }

    /// The clients with a new one.
    pub open spec fn accepted(self, scid: Seq<u8>) -> ClientsModel {
        ClientsModel {
            clients: self.clients.push(
                Client { client_id: self.next_client_id, current_channel_idx: None },
            ),
            ids: with_cid(self.ids, scid, self.next_client_id),
            next_client_id: (self.next_client_id + 1) as u64,
            ..self
        }
    }

    /// How many clients listen to each channel once one goes from a channel to
    /// another.
    pub open spec fn moved_receivers(self, from: Option<usize>, to: Option<usize>) -> Seq<u64> {
        Seq::new(
            self.receivers.len(),
            |c: int|
                (self.receivers[c] - (if from matches Some(f) && f == c {
                    1int
                } else {
                    0
                }) + (if to matches Some(t) && t == c {
                    1int
                } else {
                    0
                })) as u64,
        )
    }

    /// The clients once the one at the position `i` listens to the channel `to`.
    pub open spec fn moved(self, i: int, to: Option<usize>) -> ClientsModel {
        ClientsModel {
            clients: self.clients.update(
                i,
                Client { current_channel_idx: to, ..self.clients[i] },
            ),
            receivers: self.moved_receivers(self.clients[i].current_channel_idx, to),
            ..self
        }
    }

    /// Whether no client listens to a channel.
    pub open spec fn is_idle(self) -> bool {
        forall|c: int| 0 <= c < self.receivers.len() ==> #[trigger] self.receivers[c] == 0
    }
}

impl Clients {
    /// No client, and `nb_channels` channels.
    pub fn new(nb_channels: usize) -> (c: Clients)
        ensures
            c@.wf(),
            c@ == (ClientsModel {
                clients: Seq::empty(),
                ids: Seq::empty(),
                next_client_id: 0,
                receivers: Seq::new(nb_channels as nat, |i: int| 0u64),
            }),
    {
        let mut receivers: Vec<u64> = Vec::new();
        let mut i: usize = 0;
        while i < nb_channels
            invariant
                i <= nb_channels,
                receivers@.len() == i,
                forall|k: int| 0 <= k < i ==> receivers@[k] == 0,
            decreases nb_channels - i,
        {
            receivers.push(0);
            i += 1;
        }
        let c = Clients { clients: Vec::new(), ids: Vec::new(), next_client_id: 0, receivers };
        proof {
            assert(c@.ids =~= Seq::<(Seq<u8>, u64)>::empty());
            assert(c@.receivers =~= Seq::new(nb_channels as nat, |i: int| 0u64));
        }
        c
    }

    /// The client of a connection identifier.
    pub fn find(&self, cid: &Vec<u8>) -> (r: Option<u64>)
        ensures
            r == client_of(self@.ids, cid@),
    {
        let ghost ids = self@.ids;
        let mut i: usize = self.ids.len();
        assert(ids.take(i as int) =~= ids);
        while i > 0
            invariant
                i <= self.ids@.len(),
                ids == self@.ids,
                client_of(ids, cid@) == client_of(ids.take(i as int), cid@),
            decreases i,
        {
            assert(ids.take(i as int).drop_last() =~= ids.take(i - 1));
            assert(ids.take(i as int).last() == ids[i - 1]);
            if same_bytes(&self.ids[i - 1].cid, cid) {
                return Some(self.ids[i - 1].client_id);
            }
            i -= 1;
        }
        None
    }

    /// What to do about a packet from `src`, when `own` is the connection
    /// identifier that the server chooses for it.
    pub fn classify_with(&self, h: &PacketHeader, src: &SocketAddr, own: Vec<u8>) -> (a:
        PacketAction)
        requires
            h.is_initial ==> h.token is Some,
        ensures
            a@ == action_for(self@.ids, *h, *src, own@),
    {
        if let Some(id) = self.find(&h.dcid) {
            return PacketAction::Existing(id);
        }
        if !h.is_initial {
            return PacketAction::Drop(DropReason::NotInitial);
        }
        if !h.version_supported {
            return PacketAction::NegotiateVersion;
        }
        let odcid: Option<Vec<u8>> = match &h.token {
            Some(token) => {
                if token.len() == 0 {
                    return PacketAction::Retry { token: mint_token(&h.dcid, src), scid: own };
                }
                validate_token(src, token)
            },
            None => None,
        };
        match odcid {
            None => PacketAction::Drop(DropReason::InvalidToken),
            Some(odcid) => {
                if h.dcid.len() != own.len() {
                    return PacketAction::Drop(DropReason::InvalidDcid);
                }
                PacketAction::Accept { odcid, scid: copy_bytes(&h.dcid) }
            },
        }
    }

    /// What to do about a packet from `src`. The server chooses connection
    /// identifiers with the secret `seed`.
    pub fn classify(&self, h: &PacketHeader, src: &SocketAddr, seed: &Vec<u8>) -> (a: PacketAction)
        requires
            h.is_initial ==> h.token is Some,
            seed@.len() <= MAX_INPUT_LEN,
            h.dcid@.len() <= MAX_INPUT_LEN,
        ensures
            a@ == action_for(
                self@.ids,
                *h,
                *src,
                hmac_sha256(seed@, h.dcid@).take(CONN_ID_LEN as int),
            ),
    {
        let own: Vec<u8> = conn_id(seed, &h.dcid);
        self.classify_with(h, src, own)
    }

    /// Makes `cid` the identifier of the client `client_id`.
    fn set_cid(&mut self, cid: Vec<u8>, client_id: u64)
        ensures
            final(self)@ == (ClientsModel {
                ids: with_cid(old(self)@.ids, cid@, client_id),
                ..old(self)@
            }),
    {
        let ghost m = self@;
        let ghost f = other_than(cid@);
        let mut ids: Vec<ClientConnId> = Vec::new();
        let mut i: usize = 0;
        proof {
            reveal(Seq::filter);
            assert(id_models(ids@) =~= m.ids.take(0).filter(f));
        }
        while i < self.ids.len()
            invariant
                i <= self.ids@.len(),
                id_models(self.ids@) == m.ids,
                f == other_than(cid@),
                id_models(ids@) == m.ids.take(i as int).filter(f),
            decreases self.ids@.len() - i,
        {
            proof {
                lemma_filter_ids(m.ids, f, i as int);
                assert(m.ids[i as int] == id_models(self.ids@)[i as int]);
            }
            if !same_bytes(&self.ids[i].cid, &cid) {
                let ghost before = ids@;
                let e = ClientConnId {
                    cid: copy_bytes(&self.ids[i].cid),
                    client_id: self.ids[i].client_id,
                };
                ids.push(e);
                assert(id_models(ids@) =~= id_models(before).push((e.cid@, e.client_id)));
            }
            i += 1;
        }
        assert(m.ids.take(i as int) =~= m.ids);
        let ghost kept = ids@;
        ids.push(ClientConnId { cid, client_id });
        self.ids = ids;
        proof {
            assert(self@.ids =~= id_models(kept).push((cid@, client_id)));
            assert(self@ =~= (ClientsModel { ids: with_cid(m.ids, cid@, client_id), ..m }));
        }
    }

    /// Adds a client with the connection identifier `scid`. Returns its identifier.
    pub fn accept(&mut self, scid: Vec<u8>) -> (id: u64)
        requires
            old(self)@.wf(),
            old(self)@.next_client_id < u64::MAX,
        ensures
            final(self)@.wf(),
            id == old(self)@.next_client_id,
            final(self)@ == old(self)@.accepted(scid@),
    {
        let ghost m = self@;
        let id: u64 = self.next_client_id;
        self.clients.push(Client { client_id: id, current_channel_idx: None });
        self.next_client_id += 1;
        assert(self@.ids =~= m.ids);
        let ghost cid = scid@;
        self.set_cid(scid, id);
        proof {
            assert(self@ =~= m.accepted(cid));
            assert(self@.clients.drop_last() =~= m.clients);
            lemma_with_cid(m.ids, cid, id);
            assert forall|k: int| 0 <= k < self@.ids.len() implies self@.has_client(
                (#[trigger] self@.ids[k]).1,
            ) by {
                if self@.ids[k] != (cid, id) {
                    assert(m.ids.contains(self@.ids[k]));
                    let q = choose|q: int| 0 <= q < m.ids.len() && m.ids[q] == self@.ids[k];
                    assert(m.has_client(m.ids[q].1));
                    let i = choose|i: int|
                        0 <= i < m.clients.len() && (#[trigger] m.clients[i]).client_id
                            == m.ids[q].1;
                    assert(self@.clients[i].client_id == m.ids[q].1);
                } else {
                    assert(self@.clients[m.clients.len() as int].client_id == id);
                }
            }
        }
        id
    }

    /// Adds a connection identifier of a client.
    pub fn add_cid(&mut self, cid: Vec<u8>, client_id: u64)
        requires
            old(self)@.wf(),
            old(self)@.has_client(client_id),
        ensures
            final(self)@.wf(),
            final(self)@ == old(self)@.with_id(cid@, client_id),
    {
        let ghost m = self@;
        let ghost c = cid@;
        self.set_cid(cid, client_id);
        proof {
            lemma_with_cid(m.ids, c, client_id);
            assert forall|c: int| 0 <= c < self@.receivers.len() implies #[trigger] self@.receivers[c]
                == listeners(self@.clients, c) by {
                assert(m.receivers[c] == listeners(m.clients, c));
            }
            assert forall|k: int| 0 <= k < self@.ids.len() implies self@.has_client(
                (#[trigger] self@.ids[k]).1,
            ) by {
                if self@.ids[k] != (c, client_id) {
                    assert(m.ids.contains(self@.ids[k]));
                    let q = choose|q: int| 0 <= q < m.ids.len() && m.ids[q] == self@.ids[k];
                    assert(m.has_client(m.ids[q].1));
                }
            }
        }
    }

    /// Notes that the client at the position `i` listens to the channel `active`
    /// now, or to none.
    pub fn update_receivers_counts(&mut self, i: usize, active: Option<usize>)
        requires
            old(self)@.wf(),
            i < old(self)@.clients.len(),
            active matches Some(c) ==> c < old(self)@.receivers.len(),
            old(self)@.clients.len() <= u64::MAX,
        ensures
            final(self)@.wf(),
            final(self)@ == old(self)@.moved(i as int, active),
    {
        let ghost m = self@;
        let from: Option<usize> = self.clients[i].current_channel_idx;
        proof {
            assert forall|c: int| 0 <= c < m.receivers.len() implies (#[trigger] m.receivers[c])
                <= m.clients.len() by {
                lemma_listeners_bound(m.clients, c);
            }
            if let Some(f) = from {
                lemma_listens(m.clients, i as int);
                assert(m.receivers[f as int] == listeners(m.clients, f as int));
            }
        }
        if from != active {
            if let Some(f) = from {
                self.receivers.set(f, self.receivers[f] - 1);
            }
            if let Some(t) = active {
                proof {
                    lemma_listeners_room(m.clients, i as int, t as int);
                    assert(m.receivers[t as int] == listeners(m.clients, t as int));
                }
                self.receivers.set(t, self.receivers[t] + 1);
            }
            self.clients[i].current_channel_idx = active;
        }
        proof {
            assert(self@.clients =~= m.moved(i as int, active).clients);
            assert(self@.receivers =~= m.moved(i as int, active).receivers);
            assert(self@.ids =~= m.ids);
            assert forall|c: int| 0 <= c < self@.receivers.len() implies #[trigger] self@.receivers[c]
                == listeners(self@.clients, c) by {
                assert(m.receivers[c] == listeners(m.clients, c));
                lemma_listeners_update(m.clients, i as int, active, c);
            }
            assert forall|k: int| 0 <= k < self@.ids.len() implies self@.has_client(
                (#[trigger] self@.ids[k]).1,
            ) by {
                assert(m.has_client(m.ids[k].1));
                let j = choose|j: int|
                    0 <= j < m.clients.len() && (#[trigger] m.clients[j]).client_id == m.ids[k].1;
                assert(self@.clients[j].client_id == m.ids[k].1);
            }
        }
    }

    /// Whether no client listens to a channel.
    pub fn all_gone(&self) -> (r: bool)
        ensures
            r == self@.is_idle(),
    {
        let mut i: usize = 0;
        while i < self.receivers.len()
            invariant
                i <= self.receivers@.len(),
                forall|k: int| 0 <= k < i ==> self.receivers@[k] == 0,
            decreases self.receivers@.len() - i,
        {
            if self.receivers[i] != 0 {
                assert(self@.receivers[i as int] != 0);
                return false;
            }
            i += 1;
        }
        true
    }
}

proof fn lemma_listeners_bound(clients: Seq<Client>, c: int)
    ensures
        listeners(clients, c) <= clients.len(),
    decreases clients.len(),
{
    if clients.len() > 0 {
        lemma_listeners_bound(clients.drop_last(), c);
    }
}

/// A client counts among the listeners of its channel.
proof fn lemma_listens(clients: Seq<Client>, i: int)
    requires
        0 <= i < clients.len(),
        clients[i].current_channel_idx is Some,
    ensures
        listeners(clients, clients[i].current_channel_idx->0 as int) > 0,
    decreases clients.len(),
{
    if i < clients.len() - 1 {
        assert(clients.drop_last()[i] == clients[i]);
        lemma_listens(clients.drop_last(), i);
    }
}

/// A channel that one of the clients does not listen to has room for it.
proof fn lemma_listeners_room(clients: Seq<Client>, i: int, c: int)
    requires
        0 <= i < clients.len(),
        !(clients[i].current_channel_idx matches Some(d) && d == c),
    ensures
        listeners(clients, c) < clients.len(),
    decreases clients.len(),
{
    if i < clients.len() - 1 {
        assert(clients.drop_last()[i] == clients[i]);
        lemma_listeners_room(clients.drop_last(), i, c);
    } else {
        lemma_listeners_bound(clients.drop_last(), c);
    }
}

/// A client that changes its channel changes the number of listeners of two
/// channels by one.
proof fn lemma_listeners_update(clients: Seq<Client>, i: int, to: Option<usize>, c: int)
    requires
        0 <= i < clients.len(),
    ensures
        listeners(
            clients.update(i, Client { current_channel_idx: to, ..clients[i] }),
            c,
        ) == listeners(clients, c) - (if clients[i].current_channel_idx matches Some(f) && f == c {
            1int
        } else {
            0
        }) + (if to matches Some(t) && t == c {
            1int
        } else {
            0
        }),
    decreases clients.len(),
{
    let t = clients.update(i, Client { current_channel_idx: to, ..clients[i] });
    if i < clients.len() - 1 {
        assert(t.drop_last() =~= clients.drop_last().update(
            i,
            Client { current_channel_idx: to, ..clients.drop_last()[i] },
        ));
        lemma_listeners_update(clients.drop_last(), i, to, c);
    } else {
        assert(t.drop_last() =~= clients.drop_last());
    }
}

/// The clients whose connections are not among the closed ones.
pub open spec fn open_client(closed: Seq<u64>) -> spec_fn(Client) -> bool {
    |c: Client| !closed.contains(c.client_id)
}

/// The connection identifiers of clients whose connections are not closed.
pub open spec fn open_id(closed: Seq<u64>) -> spec_fn((Seq<u8>, u64)) -> bool {
    |e: (Seq<u8>, u64)| !closed.contains(e.1)
}

impl ClientsModel {
    /// The clients once those with closed connections are gone: their connection
    /// identifiers are, and they listen to no channel.
    pub open spec fn collected(self, closed: Seq<u64>) -> ClientsModel {
        ClientsModel {
            clients: self.clients.filter(open_client(closed)),
            ids: self.ids.filter(open_id(closed)),
            receivers: Seq::new(
                self.receivers.len(),
                |c: int| listeners(self.clients.filter(open_client(closed)), c) as u64,
            ),
            ..self
        }
    }
}

/// Whether `x` is one of the items.
fn is_in(items: &Vec<u64>, x: u64) -> (r: bool)
    ensures
        r == items@.contains(x),
{
    let mut i: usize = 0;
    while i < items.len()
        invariant
            i <= items@.len(),
            forall|k: int| 0 <= k < i ==> items@[k] != x,
        decreases items@.len() - i,
    {
        if items[i] == x {
            return true;
        }
        i += 1;
    }
    false
}

proof fn lemma_filter_clients(s: Seq<Client>, f: spec_fn(Client) -> bool, i: int)
    requires
        0 <= i < s.len(),
    ensures
        s.take(i + 1).filter(f) == if f(s[i]) {
            s.take(i).filter(f).push(s[i])
        } else {
            s.take(i).filter(f)
        },
{
    reveal(Seq::filter);
    assert(s.take(i + 1).drop_last() =~= s.take(i));
}

proof fn lemma_filter_ids(s: Seq<(Seq<u8>, u64)>, f: spec_fn((Seq<u8>, u64)) -> bool, i: int)
    requires
        0 <= i < s.len(),
    ensures
        s.take(i + 1).filter(f) == if f(s[i]) {
            s.take(i).filter(f).push(s[i])
        } else {
            s.take(i).filter(f)
        },
{
    reveal(Seq::filter);
    assert(s.take(i + 1).drop_last() =~= s.take(i));
}

/// What a filter keeps stands in the sequence, in the same order.
proof fn lemma_kept_clients(s: Seq<Client>, f: spec_fn(Client) -> bool, n: int)
    requires
        0 <= n <= s.len(),
        forall|i: int, j: int|
            0 <= i < j < s.len() ==> (#[trigger] s[i]).client_id < (#[trigger] s[j]).client_id,
    ensures
        forall|i: int, j: int|
            0 <= i < j < s.take(n).filter(f).len() ==> (
            #[trigger] s.take(n).filter(f)[i]).client_id < (
            #[trigger] s.take(n).filter(f)[j]).client_id,
        forall|i: int|
            0 <= i < s.take(n).filter(f).len() ==> f(#[trigger] s.take(n).filter(f)[i])
                && exists|k: int| 0 <= k < n && s[k] == s.take(n).filter(f)[i],
        forall|k: int|
            0 <= k < n && f(#[trigger] s[k]) ==> s.take(n).filter(f).contains(s[k]),
    decreases n,
{
    if n == 0 {
        reveal(Seq::filter);
    } else {
        lemma_kept_clients(s, f, n - 1);
        lemma_filter_clients(s, f, n - 1);
        let x = s.take(n - 1).filter(f);
        let y = s.take(n).filter(f);
        assert forall|i: int| 0 <= i < y.len() implies f(#[trigger] y[i]) && exists|k: int|
            0 <= k < n && s[k] == y[i] by {
            if i < x.len() {
                assert(y[i] == x[i]);
                let k = choose|k: int| 0 <= k < n - 1 && s[k] == x[i];
                assert(s[k] == y[i]);
            } else {
                assert(s[n - 1] == y[i]);
            }
        }
        assert forall|i: int, j: int| 0 <= i < j < y.len() implies (#[trigger] y[i]).client_id < (
        #[trigger] y[j]).client_id by {
            if j < x.len() {
                assert(y[i] == x[i] && y[j] == x[j]);
            } else {
                assert(y[i] == x[i]);
                let k = choose|k: int| 0 <= k < n - 1 && s[k] == x[i];
                assert(s[k].client_id < s[n - 1].client_id);
            }
        }
        assert forall|k: int| 0 <= k < n && f(#[trigger] s[k]) implies y.contains(s[k]) by {
            if k < n - 1 {
                assert(x.contains(s[k]));
                let i = choose|i: int| 0 <= i < x.len() && x[i] == s[k];
                assert(y[i] == s[k]);
            } else {
                assert(y[y.len() - 1] == s[k]);
            }
        }
    }
}

proof fn lemma_kept_ids(s: Seq<(Seq<u8>, u64)>, f: spec_fn((Seq<u8>, u64)) -> bool, n: int)
    requires
        0 <= n <= s.len(),
    ensures
        forall|i: int|
            0 <= i < s.take(n).filter(f).len() ==> f(#[trigger] s.take(n).filter(f)[i])
                && exists|k: int| 0 <= k < n && s[k] == s.take(n).filter(f)[i],
        distinct_cids(s) ==> distinct_cids(s.take(n).filter(f)),
    decreases n,
{
    if n == 0 {
        reveal(Seq::filter);
    } else {
        lemma_kept_ids(s, f, n - 1);
        lemma_filter_ids(s, f, n - 1);
        let x = s.take(n - 1).filter(f);
        let y = s.take(n).filter(f);
        assert forall|i: int| 0 <= i < y.len() implies f(#[trigger] y[i]) && exists|k: int|
            0 <= k < n && s[k] == y[i] by {
            if i < x.len() {
                assert(y[i] == x[i]);
                let k = choose|k: int| 0 <= k < n - 1 && s[k] == x[i];
                assert(s[k] == y[i]);
            } else {
                assert(s[n - 1] == y[i]);
            }
        }
        if distinct_cids(s) {
            assert forall|i: int, j: int| 0 <= i < j < y.len() implies (#[trigger] y[i]).0 != (
            #[trigger] y[j]).0 by {
                assert(y[i] == x[i]);
                if j < x.len() {
                    assert(y[j] == x[j]);
                } else {
                    let k = choose|k: int| 0 <= k < n - 1 && s[k] == x[i];
                    assert(s[k].0 != s[n - 1].0);
                }
            }
        }
    }
}

/// One more connection identifier leaves the others as they were.
proof fn lemma_with_cid(ids: Seq<(Seq<u8>, u64)>, cid: Seq<u8>, client_id: u64)
    ensures
        distinct_cids(ids) ==> distinct_cids(with_cid(ids, cid, client_id)),
        forall|k: int|
            0 <= k < with_cid(ids, cid, client_id).len() ==> (#[trigger] with_cid(
                ids,
                cid,
                client_id,
            )[k]) == (cid, client_id) || ids.contains(with_cid(ids, cid, client_id)[k]),
{
    let f = other_than(cid);
    let kept = ids.filter(f);
    let all = with_cid(ids, cid, client_id);
    assert(ids.take(ids.len() as int) =~= ids);
    lemma_kept_ids(ids, f, ids.len() as int);
    assert forall|k: int| 0 <= k < all.len() implies (#[trigger] all[k]) == (cid, client_id)
        || ids.contains(all[k]) by {
        if k < kept.len() {
            assert(all[k] == kept[k]);
            let q = choose|q: int| 0 <= q < ids.len() && ids[q] == kept[k];
            assert(ids[q] == all[k]);
        }
    }
    if distinct_cids(ids) {
        assert forall|i: int, j: int| 0 <= i < j < all.len() implies (#[trigger] all[i]).0 != (
        #[trigger] all[j]).0 by {
            assert(all[i] == kept[i]);
            assert(f(kept[i]));
            if j < kept.len() {
                assert(all[j] == kept[j]);
            }
        }
    }
}

/// A channel loses the clients that are gone.
proof fn lemma_listeners_kept(s: Seq<Client>, f: spec_fn(Client) -> bool, i: int, c: int)
    requires
        0 <= i < s.len(),
    ensures
        listeners(s.take(i + 1).filter(f), c) == listeners(s.take(i).filter(f), c) + if f(s[i])
            && (s[i].current_channel_idx matches Some(d) && d == c) {
            1nat
        } else {
            0
        },
        listeners(s.take(i + 1), c) == listeners(s.take(i), c) + if s[i].current_channel_idx matches Some(
            d,
        ) && d == c {
            1nat
        } else {
            0
        },
{
    lemma_filter_clients(s, f, i);
    let x = s.take(i).filter(f);
    if f(s[i]) {
        assert(x.push(s[i]).drop_last() =~= x);
    }
    assert(s.take(i + 1).drop_last() =~= s.take(i));
}

impl Clients {
    /// Forgets the clients whose connections are closed, with their connection
    /// identifiers. The channels that they listened to lose a receiver each.
    #[verifier::rlimit(40)]
    pub fn collect_closed(&mut self, closed: &Vec<u64>)
        requires
            old(self)@.wf(),
        ensures
            final(self)@.wf(),
            final(self)@ == old(self)@.collected(closed@),
    {
        let ghost m = self@;
        let ghost f = open_client(closed@);
        let ghost g = open_id(closed@);
        let mut clients: Vec<Client> = Vec::new();
        let mut i: usize = 0;
        proof {
            reveal(Seq::filter);
            assert(clients@ =~= m.clients.take(0).filter(f));
            assert forall|c: int| 0 <= c < m.receivers.len() implies #[trigger] self.receivers@[c]
                == listeners(m.clients, c) - listeners(m.clients.take(0), c) + listeners(
                m.clients.take(0).filter(f),
                c,
            ) by {
                assert(m.receivers[c] == listeners(m.clients, c));
            }
        }
        while i < self.clients.len()
            invariant
                i <= self.clients@.len(),
                self.clients@ == m.clients,
                m == old(self)@,
                m.wf(),
                f == open_client(closed@),
                self.ids == old(self).ids,
                self.next_client_id == m.next_client_id,
                self.receivers@.len() == m.receivers.len(),
                clients@ == m.clients.take(i as int).filter(f),
                forall|c: int|
                    0 <= c < m.receivers.len() ==> #[trigger] self.receivers@[c] == listeners(
                        m.clients,
                        c,
                    ) - listeners(m.clients.take(i as int), c) + listeners(
                        m.clients.take(i as int).filter(f),
                        c,
                    ),
            decreases self.clients@.len() - i,
        {
            let client: Client = self.clients[i];
            let ghost before = self.receivers@;
            proof {
                lemma_filter_clients(m.clients, f, i as int);
                assert(m.clients[i as int] == client);
            }
            if is_in(closed, client.client_id) {
                if let Some(prev) = client.current_channel_idx {
                    proof {
                        lemma_listeners_kept(m.clients, f, i as int, prev as int);
                        lemma_listeners_rest(m.clients, i as int, prev as int);
                    }
                    self.receivers.set(prev, self.receivers[prev] - 1);
                }
            } else {
                clients.push(client);
            }
            proof {
                assert forall|c: int| 0 <= c < m.receivers.len() implies #[trigger] self.receivers@[c]
                    == listeners(m.clients, c) - listeners(m.clients.take(i + 1), c) + listeners(
                    m.clients.take(i + 1).filter(f),
                    c,
                ) by {
                    lemma_listeners_kept(m.clients, f, i as int, c);
                    assert(before[c] == listeners(m.clients, c) - listeners(
                        m.clients.take(i as int),
                        c,
                    ) + listeners(m.clients.take(i as int).filter(f), c));
                }
            }
            i += 1;
        }
        assert(m.clients.take(i as int) =~= m.clients);
        let mut ids: Vec<ClientConnId> = Vec::new();
        let mut j: usize = 0;
        proof {
            reveal(Seq::filter);
            assert(id_models(ids@) =~= m.ids.take(0).filter(g));
        }
        while j < self.ids.len()
            invariant
                j <= self.ids@.len(),
                id_models(self.ids@) == m.ids,
                g == open_id(closed@),
                id_models(ids@) == m.ids.take(j as int).filter(g),
            decreases self.ids@.len() - j,
        {
            proof {
                lemma_filter_ids(m.ids, g, j as int);
                assert(m.ids[j as int] == id_models(self.ids@)[j as int]);
            }
            if !is_in(closed, self.ids[j].client_id) {
                let ghost before = ids@;
                let e = ClientConnId {
                    cid: copy_bytes(&self.ids[j].cid),
                    client_id: self.ids[j].client_id,
                };
                ids.push(e);
                assert(id_models(ids@) =~= id_models(before).push((e.cid@, e.client_id)));
            }
            j += 1;
        }
        assert(m.ids.take(j as int) =~= m.ids);
        self.clients = clients;
        self.ids = ids;
        proof {
            let n = self@;
            lemma_kept_clients(m.clients, f, m.clients.len() as int);
            lemma_kept_ids(m.ids, g, m.ids.len() as int);
            assert(n.ids =~= id_models(ids@));
            assert(distinct_cids(n.ids));
            assert(n.receivers =~= m.collected(closed@).receivers);
            assert(n =~= m.collected(closed@));
            assert forall|k: int|
                0 <= k < n.clients.len() implies (#[trigger] n.clients[k]).client_id
                    < n.next_client_id by {
                let q = choose|q: int| 0 <= q < m.clients.len() && m.clients[q] == n.clients[k];
                assert(m.clients[q].client_id < m.next_client_id);
            }
            assert forall|k: int|
                0 <= k < n.clients.len() && (
                #[trigger] n.clients[k]).current_channel_idx is Some implies
                n.clients[k].current_channel_idx->0 < n.receivers.len() by {
                let q = choose|q: int| 0 <= q < m.clients.len() && m.clients[q] == n.clients[k];
                assert(m.clients[q].current_channel_idx is Some);
            }
            assert forall|k: int| 0 <= k < n.ids.len() implies n.has_client(
                (#[trigger] n.ids[k]).1,
            ) by {
                assert(g(n.ids[k]));
                let q = choose|q: int| 0 <= q < m.ids.len() && m.ids[q] == n.ids[k];
                assert(m.has_client(m.ids[q].1));
                let p = choose|p: int|
                    0 <= p < m.clients.len() && (#[trigger] m.clients[p]).client_id == m.ids[q].1;
                assert(f(m.clients[p]));
                assert(n.clients.contains(m.clients[p]));
                let r = choose|r: int| 0 <= r < n.clients.len() && n.clients[r] == m.clients[p];
                assert(n.clients[r].client_id == n.ids[k].1);
            }
        }
    }
}

/// What some connection identifiers stand for.
spec fn id_models(s: Seq<ClientConnId>) -> Seq<(Seq<u8>, u64)> {
    Seq::new(s.len(), |i: int| (s[i].cid@, s[i].client_id))
}

proof fn lemma_listeners_rest(s: Seq<Client>, i: int, c: int)
    requires
        0 <= i < s.len(),
        s[i].current_channel_idx matches Some(d) && d == c,
    ensures
        listeners(s, c) >= listeners(s.take(i), c) + 1,
    decreases s.len(),
{
    if i < s.len() - 1 {
        assert(s.drop_last().take(i) =~= s.take(i));
        assert(s.drop_last()[i] == s[i]);
        lemma_listeners_rest(s.drop_last(), i, c);
    } else {
        assert(s.drop_last() =~= s.take(i));
    }
}

/// A client that is asked to come back is accepted when it does: with the token and
/// the connection identifier that it was given, from the same address, its connection
/// starts, and the connection identifier that it used first is known.
pub proof fn retried_client_is_accepted(
    ids: Seq<(Seq<u8>, u64)>,
    first: PacketHeader,
    second: PacketHeader,
    src: SocketAddr,
    given: Seq<u8>,
    own: Seq<u8>,
)
    requires
        action_for(ids, first, src, given) matches ActionModel::Retry(token, scid)
            && second.dcid@ == scid && (second.token->0)@ == token,
        second.is_initial,
        second.version_supported,
        client_of(ids, given) is None,
        own.len() == given.len(),
    ensures
        action_for(ids, second, src, own) == ActionModel::Accept(first.dcid@, given),
{
    minted_token_is_valid(first.dcid@, src);
    assert(token_of(first.dcid@, src).len() >= 6);
}

/// A connection identifier that is given to a client is that of this client from
/// then on, and the others stay with theirs.
pub proof fn given_identifier_is_found(
    ids: Seq<(Seq<u8>, u64)>,
    cid: Seq<u8>,
    client_id: u64,
    other: Seq<u8>,
)
    ensures
        client_of(with_cid(ids, cid, client_id), other) == if other == cid {
            Some(client_id)
        } else {
            client_of(ids, other)
        },
{
    let kept = ids.filter(other_than(cid));
    assert(kept.push((cid, client_id)).drop_last() =~= kept);
    if other != cid {
        lemma_client_of_others(ids, cid, other);
    }
}

proof fn lemma_client_of_others(ids: Seq<(Seq<u8>, u64)>, cid: Seq<u8>, other: Seq<u8>)
    requires
        other != cid,
    ensures
        client_of(ids.filter(other_than(cid)), other) == client_of(ids, other),
    decreases ids.len(),
{
    let f = other_than(cid);
    reveal(Seq::filter);
    if ids.len() > 0 {
        let d = ids.drop_last();
        lemma_client_of_others(d, cid, other);
        if f(ids.last()) {
            assert(d.filter(f).push(ids.last()).drop_last() =~= d.filter(f));
        }
    }
}

proof fn lemma_client_of_none(ids: Seq<(Seq<u8>, u64)>, cid: Seq<u8>)
    requires
        forall|i: int| 0 <= i < ids.len() ==> (#[trigger] ids[i]).0 != cid,
    ensures
        client_of(ids, cid) is None,
    decreases ids.len(),
{
    if ids.len() > 0 {
        assert(ids[ids.len() - 1].0 != cid);
        assert forall|i: int| 0 <= i < ids.drop_last().len() implies (
        #[trigger] ids.drop_last()[i]).0 != cid by {
            assert(ids[i].0 != cid);
        }
        lemma_client_of_none(ids.drop_last(), cid);
    }
}

proof fn lemma_client_of_at(ids: Seq<(Seq<u8>, u64)>, k: int)
    requires
        distinct_cids(ids),
        0 <= k < ids.len(),
    ensures
        client_of(ids, ids[k].0) == Some(ids[k].1),
    decreases ids.len(),
{
    if k < ids.len() - 1 {
        assert(ids[k].0 != ids[ids.len() - 1].0);
        assert(ids.drop_last()[k] == ids[k]);
        assert forall|i: int, j: int| 0 <= i < j < ids.drop_last().len() implies (
        #[trigger] ids.drop_last()[i]).0 != (#[trigger] ids.drop_last()[j]).0 by {
            assert(ids[i].0 != ids[j].0);
        }
        lemma_client_of_at(ids.drop_last(), k);
    }
}

/// A client whose connection is closed is forgotten: its connection identifiers are
/// those of no client.
pub proof fn closed_client_is_forgotten(m: ClientsModel, cid: Seq<u8>, closed: Seq<u64>)
    requires
        m.wf(),
        client_of(m.ids, cid) matches Some(id) && closed.contains(id),
    ensures
        client_of(m.collected(closed).ids, cid) is None,
{
    let g = open_id(closed);
    let kept = m.ids.filter(g);
    assert(m.ids.take(m.ids.len() as int) =~= m.ids);
    lemma_kept_ids(m.ids, g, m.ids.len() as int);
    assert forall|i: int| 0 <= i < kept.len() implies (#[trigger] kept[i]).0 != cid by {
        assert(g(kept[i]));
        let k = choose|k: int| 0 <= k < m.ids.len() && m.ids[k] == kept[i];
        lemma_client_of_at(m.ids, k);
    }
    lemma_client_of_none(kept, cid);
}

/// Every packet with a connection identifier of a client goes to that client, as
/// long as its connection is open.
pub proof fn clients_stay_reachable(m: ClientsModel, cid: Seq<u8>, closed: Seq<u64>)
    requires
        client_of(m.ids, cid) matches Some(id) && !closed.contains(id),
    ensures
        client_of(m.collected(closed).ids, cid) == client_of(m.ids, cid),
{
    lemma_client_of_filter(m.ids, cid, closed);
}

proof fn lemma_client_of_filter(ids: Seq<(Seq<u8>, u64)>, cid: Seq<u8>, closed: Seq<u64>)
    requires
        client_of(ids, cid) matches Some(id) && !closed.contains(id),
    ensures
        client_of(ids.filter(open_id(closed)), cid) == client_of(ids, cid),
    decreases ids.len(),
{
    let f = open_id(closed);
    reveal(Seq::filter);
    if ids.len() > 0 {
        let d = ids.drop_last();
        if ids.last().0 != cid {
            lemma_client_of_filter(d, cid, closed);
        }
        if f(ids.last()) {
            assert(d.filter(f).push(ids.last()).drop_last() =~= d.filter(f));
        }
    }
}

/// Timers of a source.
#[derive(Clone, Copy, Debug, PartialEq, Eq, Structural)]
pub struct Timers {
    /// When the RTP source stopped, as long as the connections wait for it.
    pub start_rtp_timer: Option<Instant>,
    /// Whether the connections can be closed since the RTP source stopped.
    pub can_close_conn_after_rtp: bool,
    /// Since when no client listens to a channel.
    pub no_receiver_timeout: Option<Instant>,
}

/// How long after the end of the RTP source the connections are closed: five times
/// the time to live of the data.
pub fn rtp_stop_timer(expiration_timer: u64) -> (d: Duration)
    ensures
        d.nanos == 5 * (expiration_timer * 1_000_000),
{
    Duration::from_millis(expiration_timer).times(5)
}

/// How much is left of the span `stop` that started at `start`.
pub open spec fn left(stop: Duration, start: Instant, now: Instant) -> int {
    let passed = since(now.nanos as int, start.nanos as int);
    if stop.nanos >= passed {
        stop.nanos - passed
    } else {
        0
    }
}

/// The shortest of some spans.
pub open spec fn shortest(a: Option<Duration>, b: Option<Duration>) -> Option<Duration> {
    match (a, b) {
        (Some(x), Some(y)) => if x.nanos <= y.nanos {
            a
        } else {
            b
        },
        (Some(_), None) => a,
        (None, _) => b,
    }
}

/// The shortest of some spans.
fn shorter(a: Option<Duration>, b: Option<Duration>) -> (r: Option<Duration>)
    ensures
        r == shortest(a, b),
{
    match (a, b) {
        (Some(x), Some(y)) => if x.nanos <= y.nanos {
            a
        } else {
            b
        },
        (Some(_), None) => a,
        (None, _) => b,
    }
}

/// The shortest timeout of some connections.
pub open spec fn shortest_of(timeouts: Seq<Option<Duration>>) -> Option<Duration>
    decreases timeouts.len(),
{
    if timeouts.len() == 0 {
        None
    } else {
        shortest(shortest_of(timeouts.drop_last()), timeouts.last())
    }
}

impl Timers {
    /// No timer runs.
    pub fn new() -> (t: Timers)
        ensures
            t == (Timers {
                start_rtp_timer: None,
                can_close_conn_after_rtp: false,
                no_receiver_timeout: None,
            }),
    {
        Timers {
            start_rtp_timer: None,
            can_close_conn_after_rtp: false,
            no_receiver_timeout: None,
        }
    }

    /// How long to wait for packets: until the first timeout of a connection, the
    /// end of the wait after the RTP source, or 300 milliseconds.
    pub fn next_timeout(&self, timeouts: &Vec<Option<Duration>>, stop: Duration, now: Instant) -> (r:
        Duration)
        ensures
            Some(r) == shortest(
                shortest(
                    shortest_of(timeouts@),
                    match self.start_rtp_timer {
                        Some(start) => Some(Duration { nanos: left(stop, start, now) as u128 }),
                        None => None,
                    },
                ),
                Some(Duration { nanos: 300_000_000 }),
            ),
    {
        let mut best: Option<Duration> = None;
        let mut i: usize = 0;
        assert(timeouts@.take(0) =~= Seq::<Option<Duration>>::empty());
        while i < timeouts.len()
            invariant
                i <= timeouts@.len(),
                best == shortest_of(timeouts@.take(i as int)),
            decreases timeouts@.len() - i,
        {
            assert(timeouts@.take(i + 1).drop_last() =~= timeouts@.take(i as int));
            best = shorter(best, timeouts[i]);
            i += 1;
        }
        assert(timeouts@.take(i as int) =~= timeouts@);
        let rtp: Option<Duration> = match self.start_rtp_timer {
            Some(start) => Some(stop.saturating_sub(now.duration_since(start))),
            None => None,
        };
        let read: Duration = Duration::from_millis(RTP_READ_TIMEOUT_MILLIS);
        match shorter(shorter(best, rtp), Some(read)) {
            Some(d) => d,
            None => read,
        }
    }

    /// Lets the connections close once the wait after the RTP source is over.
    pub fn check_rtp(&mut self, stop: Duration, now: Instant)
        ensures
            *final(self) == match old(self).start_rtp_timer {
                Some(start) if left(stop, start, now) == 0 => Timers {
                    can_close_conn_after_rtp: true,
                    start_rtp_timer: None,
                    ..*old(self)
                },
                _ => *old(self),
            },
    {
        if let Some(start) = self.start_rtp_timer {
            if stop.saturating_sub(now.duration_since(start)).nanos == 0 {
                self.can_close_conn_after_rtp = true;
                self.start_rtp_timer = None;
            }
        }
    }

    /// Whether the source should stop, as no client listened to a channel for more
    /// than ten seconds.
    pub fn check_receivers(&mut self, idle: bool, now: Instant) -> (stop: bool)
        ensures
            stop == (idle && (old(self).no_receiver_timeout matches Some(t) && since(
                now.nanos as int,
                t.nanos as int,
            ) > NO_RECEIVER_NANOS)),
            stop ==> idle && (old(self).no_receiver_timeout matches Some(t) && now.nanos > t.nanos
                + 10_000_000_000),
            idle && (old(self).no_receiver_timeout matches Some(t) && now.nanos > t.nanos
                + 10_000_000_000) ==> stop,
            *final(self) == (Timers {
                no_receiver_timeout: if !idle {
                    None
                } else if old(self).no_receiver_timeout is None {
                    Some(now)
                } else {
                    old(self).no_receiver_timeout
                },
                ..*old(self)
            }),
    {
        if !idle {
            self.no_receiver_timeout = None;
            return false;
        }
        match self.no_receiver_timeout {
            Some(t) => now.duration_since(t).nanos > NO_RECEIVER_NANOS,
            None => {
                self.no_receiver_timeout = Some(now);
                false
            },
        }
    }
}

/// The client of a connection identifier is the one that got it last.
pub proof fn client_is_the_one_that_got_the_identifier_last(
    ids: Seq<(Seq<u8>, u64)>,
    cid: Seq<u8>,
    k: int,
)
    ensures
        0 <= k < ids.len() && ids[k].0 == cid && (forall|j: int|
            k < j < ids.len() ==> (#[trigger] ids[j]).0 != cid) ==> client_of(ids, cid) == Some(
            ids[k].1,
        ),
        (forall|j: int| 0 <= j < ids.len() ==> (#[trigger] ids[j]).0 != cid) <==> client_of(
            ids,
            cid,
        ) is None,
    decreases ids.len(),
{
    if ids.len() > 0 {
        let front = ids.drop_last();
        client_is_the_one_that_got_the_identifier_last(front, cid, k);
        assert(ids[ids.len() - 1] == ids.last());
        assert forall|j: int| 0 <= j < front.len() implies front[j] == #[trigger] ids[j] by {}
        if 0 <= k < front.len() && ids[k].0 == cid && (forall|j: int|
            k < j < ids.len() ==> (#[trigger] ids[j]).0 != cid) {
            assert(front[k] == ids[k]);
            assert forall|j: int| k < j < front.len() implies (#[trigger] front[j]).0 != cid by {
                assert(ids[j].0 != cid);
            }
        }
        if client_of(ids, cid) is None {
            assert forall|j: int| 0 <= j < ids.len() implies (#[trigger] ids[j]).0 != cid by {
                if j < front.len() {
                    assert(front[j].0 != cid);
                }
            }
        }
        if forall|j: int| 0 <= j < ids.len() ==> (#[trigger] ids[j]).0 != cid {
            assert forall|j: int| 0 <= j < front.len() implies (#[trigger] front[j]).0 != cid by {
                assert(ids[j].0 != cid);
            }
        }
    }
}

/// What becomes of a packet. One with the identifier of a client goes to this client. Any other
/// one must start a connection, in a version that is supported. Without a token the client is
/// asked to come back with one that holds its identifier. With a token, it must be one for its
/// address, and the identifier must have the length of those of the server; then a connection
/// starts, from the identifier in the token.
pub proof fn packets_are_dispatched(
    ids: Seq<(Seq<u8>, u64)>,
    h: PacketHeader,
    src: SocketAddr,
    own: Seq<u8>,
    odcid: Seq<u8>,
)
    requires
        h.is_initial ==> h.token is Some,
    ensures
        ({
            let a = action_for(ids, h, src, own);
            let known = client_of(ids, h.dcid@);
            let token = (h.token->0)@;
            let new = known is None && h.is_initial && h.version_supported;
            &&& known matches Some(id) ==> a == ActionModel::Existing(id)
            &&& known is None && !h.is_initial ==> a == ActionModel::Drop(DropReason::NotInitial)
            &&& known is None && h.is_initial && !h.version_supported ==> a
                == ActionModel::NegotiateVersion
            &&& new && token.len() == 0 ==> a == ActionModel::Retry(token_of(h.dcid@, src), own)
            &&& new && token.len() > 0 && validated(src, token) is None ==> a == ActionModel::Drop(
                DropReason::InvalidToken,
            )
            &&& new && token.len() > 0 && token == token_of(odcid, src) && h.dcid@.len()
                == own.len() ==> a == ActionModel::Accept(odcid, h.dcid@)
            &&& new && token.len() > 0 && token == token_of(odcid, src) && h.dcid@.len()
                != own.len() ==> a == ActionModel::Drop(DropReason::InvalidDcid)
        }),
{
    minted_token_is_valid(odcid, src);
}

/// The listeners of a channel are the clients whose channel it is.
pub proof fn listeners_are_counted(clients: Seq<Client>, channel: int)
    ensures
        listeners(clients, channel) == clients.filter(
            |c: Client| c.current_channel_idx is Some && c.current_channel_idx->0 == channel,
        ).len(),
    decreases clients.len(),
{
    reveal(Seq::filter);
    if clients.len() > 0 {
        listeners_are_counted(clients.drop_last(), channel);
    }
}

/// A new client is the last one, gets the next identifier and listens to no channel yet; packets
/// with its connection identifier go to it, and the others to their clients as before.
pub proof fn new_clients_get_the_next_identifier(m: ClientsModel, scid: Seq<u8>, other: Seq<u8>)
    requires
        m.next_client_id < u64::MAX,
        other != scid,
    ensures
        ({
            let after = m.accepted(scid);
            &&& after.clients.len() == m.clients.len() + 1
            &&& after.clients.drop_last() == m.clients
            &&& after.clients.last().client_id == m.next_client_id
            &&& after.clients.last().current_channel_idx is None
            &&& after.next_client_id == m.next_client_id + 1
            &&& after.receivers == m.receivers
            &&& client_of(after.ids, scid) == Some(m.next_client_id)
            &&& client_of(after.ids, other) == client_of(m.ids, other)
        }),
{
    assert(m.accepted(scid).clients.drop_last() =~= m.clients);
    given_identifier_is_found(m.ids, scid, m.next_client_id, scid);
    given_identifier_is_found(m.ids, scid, m.next_client_id, other);
}

/// A client that goes from a channel to another leaves one listener less on the one and brings
/// one more to the other; where both are the same, and for all other channels and clients,
/// nothing changes.
pub proof fn moves_change_two_counts(m: ClientsModel, i: int, to: Option<usize>, c: int, k: int)
    requires
        m.wf(),
        m.clients.len() < u64::MAX,
        0 <= i < m.clients.len(),
        0 <= c < m.receivers.len(),
        0 <= k < m.clients.len(),
    ensures
        ({
            let after = m.moved(i, to);
            let from = m.clients[i].current_channel_idx;
            let leaves = from is Some && from->0 == c;
            let comes = to is Some && to->0 == c;
            &&& after.receivers.len() == m.receivers.len()
            &&& leaves && !comes ==> after.receivers[c] + 1 == m.receivers[c]
            &&& comes && !leaves ==> after.receivers[c] == m.receivers[c] + 1
            &&& leaves == comes ==> after.receivers[c] == m.receivers[c]
            &&& after.clients.len() == m.clients.len()
            &&& after.clients[k].client_id == m.clients[k].client_id
            &&& k == i ==> after.clients[k].current_channel_idx == to
            &&& k != i ==> after.clients[k] == m.clients[k]
            &&& after.ids == m.ids
            &&& after.next_client_id == m.next_client_id
        }),
{
    assert(m.receivers[c] == listeners(m.clients, c));
    lemma_listeners_bound(m.clients, c);
    if m.clients[i].current_channel_idx is Some && m.clients[i].current_channel_idx->0 == c {
        lemma_listens(m.clients, i);
    }
}

/// Clients whose connections are closed are gone, and only these; each channel has as many
/// listeners as clients that are left listen to it.
pub proof fn only_closed_clients_are_gone(m: ClientsModel, closed: Seq<u64>, i: int, c: int)
    requires
        m.wf(),
        0 <= i < m.clients.len(),
        0 <= c < m.receivers.len(),
        m.clients.len() <= u64::MAX,
    ensures
        ({
            let after = m.collected(closed);
            &&& after.clients.contains(m.clients[i]) <==> !closed.contains(m.clients[i].client_id)
            &&& forall|k: int|
                0 <= k < after.clients.len() ==> !closed.contains(
                    (#[trigger] after.clients[k]).client_id,
                )
            &&& after.receivers.len() == m.receivers.len()
            &&& after.receivers[c] == listeners(after.clients, c)
            &&& after.next_client_id == m.next_client_id
        }),
{
    broadcast use vstd::seq_lib::group_filter_ensures;

    let f = open_client(closed);
    let after = m.collected(closed);
    if f(m.clients[i]) {
        assert(after.clients.contains(m.clients[i]));
    }
    assert forall|k: int| 0 <= k < after.clients.len() implies !closed.contains(
        (#[trigger] after.clients[k]).client_id,
    ) by {
        assert(f(after.clients[k]));
    }
    lemma_listeners_bound(after.clients, c);
}

/// A source is idle while no client listens to any of its channels.
pub proof fn idle_sources_have_no_listeners(m: ClientsModel)
    requires
        m.wf(),
    ensures
        m.is_idle() <==> forall|i: int|
            0 <= i < m.clients.len() ==> (#[trigger] m.clients[i]).current_channel_idx is None,
{
    if m.is_idle() {
        assert forall|i: int| 0 <= i < m.clients.len() implies (
        #[trigger] m.clients[i]).current_channel_idx is None by {
            if m.clients[i].current_channel_idx is Some {
                let c = m.clients[i].current_channel_idx->0 as int;
                lemma_listens(m.clients, i);
                assert(m.receivers[c] == listeners(m.clients, c));
            }
        }
    }
    if forall|i: int|
        0 <= i < m.clients.len() ==> (#[trigger] m.clients[i]).current_channel_idx is None {
        assert forall|c: int| 0 <= c < m.receivers.len() implies #[trigger] m.receivers[c] == 0 by {
            lemma_no_listeners(m.clients, c);
            assert(m.receivers[c] == listeners(m.clients, c));
        }
    }
}

proof fn lemma_no_listeners(clients: Seq<Client>, c: int)
    requires
        forall|i: int|
            0 <= i < clients.len() ==> (#[trigger] clients[i]).current_channel_idx is None,
    ensures
        listeners(clients, c) == 0,
    decreases clients.len(),
{
    if clients.len() > 0 {
        let front = clients.drop_last();
        assert forall|i: int| 0 <= i < front.len() implies (
        #[trigger] front[i]).current_channel_idx is None by {
            assert(clients[i].current_channel_idx is None);
        }
        lemma_no_listeners(front, c);
        assert(clients[clients.len() - 1].current_channel_idx is None);
    }
}

/// What is left of a span and what has passed of it make the span, until it is over.
pub proof fn spans_run_out(stop: Duration, start: Instant, now: Instant)
    ensures
        now.nanos <= start.nanos ==> left(stop, start, now) == stop.nanos,
        start.nanos <= now.nanos <= start.nanos + stop.nanos ==> left(stop, start, now) + now.nanos
            == start.nanos + stop.nanos,
        now.nanos >= start.nanos + stop.nanos ==> left(stop, start, now) == 0,
{
}

/// The shortest timeout is one of those that there are, and none of them is shorter.
pub proof fn shortest_timeout_is_one_of_them(timeouts: Seq<Option<Duration>>, i: int)
    requires
        0 <= i < timeouts.len(),
    ensures
        timeouts[i] matches Some(d) ==> shortest_of(timeouts) is Some && shortest_of(
            timeouts,
        )->0.nanos <= d.nanos,
        shortest_of(timeouts) is Some ==> timeouts.contains(shortest_of(timeouts)),
    decreases timeouts.len(),
{
    let front = timeouts.drop_last();
    let last = timeouts.len() - 1;
    assert(timeouts[last] == timeouts.last());
    if front.len() > 0 {
        shortest_timeout_is_one_of_them(
            front,
            if i < last {
                i
            } else {
                0
            },
        );
        if i < last {
            assert(front[i] == timeouts[i]);
        }
        if front.contains(shortest_of(front)) {
            let j = choose|j: int| 0 <= j < front.len() && front[j] == shortest_of(front);
            assert(timeouts[j] == shortest_of(front));
        }
    } else {
        assert(shortest_of(front) is None);
    }
}

/// The shorter of two spans is one of them, and neither is shorter.
pub proof fn shorter_span_is_one_of_two(a: Option<Duration>, b: Option<Duration>)
    ensures
        shortest(a, b) == a || shortest(a, b) == b,
        shortest(a, b) is None <==> a is None && b is None,
        a matches Some(d) ==> shortest(a, b)->0.nanos <= d.nanos,
        b matches Some(d) ==> shortest(a, b)->0.nanos <= d.nanos,
{
}

/// A connection identifier that is added is that of its client from then on; the clients, their
/// channels and the other identifiers stay.
pub proof fn added_identifiers_reach_their_client(
    m: ClientsModel,
    cid: Seq<u8>,
    client_id: u64,
    other: Seq<u8>,
)
    requires
        other != cid,
    ensures
        client_of(m.with_id(cid, client_id).ids, cid) == Some(client_id),
        client_of(m.with_id(cid, client_id).ids, other) == client_of(m.ids, other),
        m.with_id(cid, client_id).clients == m.clients,
        m.with_id(cid, client_id).receivers == m.receivers,
        m.with_id(cid, client_id).next_client_id == m.next_client_id,
{
    given_identifier_is_found(m.ids, cid, client_id, cid);
    given_identifier_is_found(m.ids, cid, client_id, other);
}

/// A source waits for packets as long as no timeout of a connection comes, the wait after the RTP
/// source goes on, and 300 milliseconds are not over; and no longer than it must.
pub proof fn waits_end_with_the_first_timeout(
    t: Timers,
    timeouts: Vec<Option<Duration>>,
    stop: Duration,
    now: Instant,
    r: Duration,
    i: int,
)
    requires
        call_ensures(Timers::next_timeout, (&t, &timeouts, stop, now), r),
        0 <= i < timeouts@.len(),
    ensures
        r.nanos <= 300_000_000,
        timeouts@[i] matches Some(d) ==> r.nanos <= d.nanos,
        t.start_rtp_timer matches Some(start) ==> (start.nanos <= now.nanos ==> now.nanos + r.nanos
            <= start.nanos + stop.nanos || r.nanos == 0),
        r.nanos == 300_000_000 || timeouts@.contains(Some(r)) || t.start_rtp_timer is Some,
{
    shortest_timeout_is_one_of_them(timeouts@, i);
    assert((Duration { nanos: r.nanos }) == r);
}

/// The connections may close once the wait after the RTP source is over, and not before; the wait
/// is five times the time to live of the data.
pub proof fn connections_close_after_the_wait(
    t: &mut Timers,
    expiration_timer: u64,
    stop: Duration,
    now: Instant,
)
    requires
        call_ensures(rtp_stop_timer, (expiration_timer,), stop),
        call_ensures(Timers::check_rtp, (t, stop, now), ()),
    ensures
        stop.nanos == expiration_timer * 5_000_000,
        ({
            let over = old(t).start_rtp_timer is Some && now.nanos >= old(t).start_rtp_timer->0.nanos
                + stop.nanos && stop.nanos > 0;
            &&& over ==> final(t).can_close_conn_after_rtp && final(t).start_rtp_timer is None
            &&& !over && stop.nanos > 0 ==> *final(t) == *old(t)
            &&& final(t).no_receiver_timeout == old(t).no_receiver_timeout
        }),
{
}

/// A source stops once no client has listened for more than ten seconds without a break.
pub proof fn sources_stop_without_listeners(t: &mut Timers, idle: bool, now: Instant, stop: bool)
    requires
        call_ensures(Timers::check_receivers, (t, idle, now), stop),
    ensures
        stop <==> idle && old(t).no_receiver_timeout is Some && now.nanos
            > old(t).no_receiver_timeout->0.nanos + 10_000_000_000,
        !idle ==> final(t).no_receiver_timeout is None,
        idle && old(t).no_receiver_timeout is None ==> final(t).no_receiver_timeout == Some(now),
        idle && old(t).no_receiver_timeout is Some ==> final(t).no_receiver_timeout
            == old(t).no_receiver_timeout,
        final(t).start_rtp_timer == old(t).start_rtp_timer,
        final(t).can_close_conn_after_rtp == old(t).can_close_conn_after_rtp,
{
}

} // verus!
