//! Announcements of flexicast channels.

use vstd::prelude::*;

use crate::bytes::same_bytes;

verus! {

/// Qualities of service of a flexicast channel: a set of flags.
#[derive(Clone, Copy, Debug, PartialEq, Eq, Structural)]
pub struct FcQos {
    /// The flags.
    pub bits: u8,
}

/// No information.
pub const QOS_NONE: u8 = 0x00;

/// Throughput oriented.
pub const QOS_THROUGHPUT: u8 = 0x01;

/// Delay oriented.
pub const QOS_DELAY: u8 = 0x02;

impl FcQos {
    /// Both throughput and delay oriented.
    pub fn throughput_and_delay() -> (q: FcQos)
        ensures
            q.bits == QOS_THROUGHPUT | QOS_DELAY,
            q.bits == 3,
    {
        assert(1u8 | 2u8 == 3u8) by (bit_vector);
        FcQos { bits: QOS_THROUGHPUT | QOS_DELAY }
    }
}

/// Algorithms that packets are protected with.
#[allow(non_camel_case_types)]
#[derive(Clone, Copy, Debug, PartialEq, Eq, Structural)]
pub enum Algorithm {
    /// AES-128 in Galois/Counter Mode.
    AES128_GCM,
    /// AES-256 in Galois/Counter Mode.
    AES256_GCM,
    /// ChaCha20 with Poly1305.
    ChaCha20_Poly1305,
}

/// Announcement of a flexicast channel.
#[derive(Debug)]
pub struct McAnnounceData {
    /// Identifier of the channel.
    pub channel_id: Vec<u8>,
    /// Whether the group address is an IPv6 address.
    pub is_ipv6_addr: bool,
    /// Whether receivers probe the flexicast path.
    pub probe_path: bool,
    /// Whether streams start anew for a receiver that joins.
    pub reset_stream_on_join: bool,
    /// Address of the source.
    pub source_ip: [u8; 4],
    /// Address of the group.
    pub group_ip: [u8; 4],
    /// Port of the group.
    pub udp_port: u16,
    /// Key with which the source signs.
    pub public_key: Option<Vec<u8>>,
    /// Time to live of the data in milliseconds.
    pub expiration_timer: u64,
    /// Whether the announcement was handled.
    pub is_processed: bool,
    /// Bitrate of the channel in bits per second, where it is fixed.
    pub bitrate: Option<u64>,
    /// Algorithm that the packets of the channel are protected with.
    pub fc_channel_algo: Option<Algorithm>,
    /// Secret of the channel.
    pub fc_channel_secret: Option<Vec<u8>>,
    /// Quality of service.
    pub qos: FcQos,
}

/// What a [`McAnnounceData`] stands for.
#[verifier::ext_equal]
pub struct AnnounceModel {
    /// Identifier of the channel.
    pub channel_id: Seq<u8>,
    /// Whether the group address is an IPv6 address.
    pub is_ipv6_addr: bool,
    /// Whether receivers probe the flexicast path.
    pub probe_path: bool,
    /// Whether streams start anew for a receiver that joins.
    pub reset_stream_on_join: bool,
    /// Address of the source.
    pub source_ip: Seq<u8>,
    /// Address of the group.
    pub group_ip: Seq<u8>,
    /// Port of the group.
    pub udp_port: u16,
    /// Key with which the source signs.
    pub public_key: Option<Seq<u8>>,
    /// Time to live of the data in milliseconds.
    pub expiration_timer: u64,
    /// Whether the announcement was handled.
    pub is_processed: bool,
    /// Bitrate of the channel in bits per second, where it is fixed.
    pub bitrate: Option<u64>,
    /// Algorithm that the packets of the channel are protected with.
    pub fc_channel_algo: Option<Algorithm>,
    /// Secret of the channel.
    pub fc_channel_secret: Option<Seq<u8>>,
    /// Quality of service.
    pub qos: FcQos,
}

/// What optional bytes stand for.
pub open spec fn optional_bytes(b: Option<Vec<u8>>) -> Option<Seq<u8>> {
    match b {
        Some(v) => Some(v@),
        None => None,
    }
}

impl View for McAnnounceData {
    type V = AnnounceModel;

    open spec fn view(&self) -> AnnounceModel {
        AnnounceModel {
            channel_id: self.channel_id@,
            is_ipv6_addr: self.is_ipv6_addr,
            probe_path: self.probe_path,
            reset_stream_on_join: self.reset_stream_on_join,
            source_ip: self.source_ip@,
            group_ip: self.group_ip@,
            udp_port: self.udp_port,
            public_key: optional_bytes(self.public_key),
            expiration_timer: self.expiration_timer,
            is_processed: self.is_processed,
            bitrate: self.bitrate,
            fc_channel_algo: self.fc_channel_algo,
            fc_channel_secret: optional_bytes(self.fc_channel_secret),
            qos: self.qos,
        }
    }
}

/// What a sequence of announcements stands for.
pub open spec fn announced(s: Seq<McAnnounceData>) -> Seq<AnnounceModel> {
    Seq::new(s.len(), |i: int| s[i]@)
}

/// Position of the first announcement of the channel `channel_id`.
pub open spec fn announce_index(s: Seq<AnnounceModel>, channel_id: Seq<u8>) -> Option<int>
    decreases s.len(),
{
    if s.len() == 0 {
        None
    } else if announce_index(s.drop_last(), channel_id) is Some {
        announce_index(s.drop_last(), channel_id)
    } else if s.last().channel_id == channel_id {
        Some(s.len() - 1)
    } else {
        None
    }
}

proof fn lemma_index_stays(s: Seq<AnnounceModel>, channel_id: Seq<u8>, n: int)
    requires
        0 <= n <= s.len(),
        announce_index(s.take(n), channel_id) is Some,
    ensures
        announce_index(s, channel_id) == announce_index(s.take(n), channel_id),
    decreases s.len() - n,
{
    if n < s.len() {
        assert(s.take(n + 1).drop_last() =~= s.take(n));
        lemma_index_stays(s, channel_id, n + 1);
    } else {
        assert(s.take(n) =~= s);
    }
}

/// A channel that is announced has a position.
pub proof fn lemma_index_found(s: Seq<AnnounceModel>, i: int)
    requires
        0 <= i < s.len(),
    ensures
        announce_index(s, s[i].channel_id) is Some,
        0 <= announce_index(s, s[i].channel_id)->0 < s.len(),
        s[announce_index(s, s[i].channel_id)->0].channel_id == s[i].channel_id,
    decreases s.len(),
{
    let id = s[i].channel_id;
    if i < s.len() - 1 {
        assert(s.drop_last()[i] == s[i]);
        lemma_index_found(s.drop_last(), i);
    } else if announce_index(s.drop_last(), id) is Some {
        lemma_index_valid(s.drop_last(), id);
    }
}

/// A position is that of an announcement of the channel.
pub proof fn lemma_index_valid(s: Seq<AnnounceModel>, channel_id: Seq<u8>)
    requires
        announce_index(s, channel_id) is Some,
    ensures
        0 <= announce_index(s, channel_id)->0 < s.len(),
        s[announce_index(s, channel_id)->0].channel_id == channel_id,
    decreases s.len(),
{
    if announce_index(s.drop_last(), channel_id) is Some {
        lemma_index_valid(s.drop_last(), channel_id);
    }
}

/// Position of the first announcement of the channel `channel_id`.
pub fn find_announce(list: &Vec<McAnnounceData>, channel_id: &Vec<u8>) -> (r: Option<usize>)
    ensures
        r is Some <==> announce_index(announced(list@), channel_id@) is Some,
        r matches Some(i) ==> i < list@.len() && announce_index(announced(list@), channel_id@)
            == Some(i as int),
{
    let ghost s = announced(list@);
    let mut i: usize = 0;
    assert(s.take(0) =~= Seq::<AnnounceModel>::empty());
    while i < list.len()
        invariant
            i <= list@.len(),
            s == announced(list@),
            announce_index(s.take(i as int), channel_id@) is None,
        decreases list@.len() - i,
    {
        assert(s.take(i + 1).drop_last() =~= s.take(i as int));
        assert(s.take(i + 1).last() == list@[i as int]@);
        if same_bytes(&list[i].channel_id, channel_id) {
            proof {
                lemma_index_stays(s, channel_id@, i + 1);
            }
            return Some(i);
        }
        i += 1;
    }
    assert(s.take(i as int) =~= s);
    None
}

/// The position of a channel is that of its first announcement, and there is one exactly if
/// it is announced.
pub proof fn announce_index_is_the_first(s: Seq<AnnounceModel>, channel_id: Seq<u8>, i: int)
    ensures
        announce_index(s, channel_id) == Some(i) <==> 0 <= i < s.len() && s[i].channel_id
            == channel_id && forall|j: int| 0 <= j < i ==> (#[trigger] s[j]).channel_id != channel_id,
        announce_index(s, channel_id) is None <==> forall|j: int|
            0 <= j < s.len() ==> (#[trigger] s[j]).channel_id != channel_id,
    decreases s.len(),
{
    if s.len() > 0 {
        let front = s.drop_last();
        announce_index_is_the_first(front, channel_id, i);
        assert(s[s.len() - 1] == s.last());
        if let Some(k) = announce_index(front, channel_id) {
            announce_index_is_the_first(front, channel_id, k);
            assert(front[k] == s[k]);
            assert forall|j: int| 0 <= j < k implies (#[trigger] s[j]).channel_id != channel_id by {
                assert(front[j] == s[j]);
            }
        } else {
            assert forall|j: int| 0 <= j < front.len() implies (#[trigger] s[j]).channel_id
                != channel_id by {
                assert(front[j] == s[j]);
            }
        }
        if announce_index(s, channel_id) == Some(i) && i < front.len() {
            assert(front[i] == s[i]);
        }
    }
}

} // verus!
