//! Wire format and per-session state of the UDP session protocol.
use vstd::prelude::*;
use std::collections::{BTreeMap, VecDeque};
use vstd::string::StringSliceAdditionalSpecFns;
use crate::primitives::{aead_open, aead_opened, aead_seal, aead_sealed, sha256, sha256_of};

verus! {

/// Length of the fixed packet header: magic, kind, sequence number, payload length.
pub const HEADER_LEN: usize = 15;
/// Largest datagram the protocol reads.
pub const MAX_PACKET_LEN: usize = 1500;
/// Largest plaintext carried by one data packet.
pub const MAX_PAYLOAD_LEN: usize = 1100;

/// The four magic bytes that open every packet: `MDU1`.
pub open spec fn magic() -> Seq<u8> {
    seq![0x4du8, 0x44u8, 0x55u8, 0x31u8]
}

/// The kind of a UDP session packet.
#[derive(Debug, Clone, Copy, PartialEq, Eq, Structural)]
pub enum PacketKind {
    Hello,
    HelloAck,
    Data,
    Ack,
    Close,
}

/// The byte that encodes each packet kind on the wire.
pub open spec fn kind_byte(kind: PacketKind) -> u8 {
    match kind {
        PacketKind::Hello => 1,
        PacketKind::HelloAck => 2,
        PacketKind::Data => 3,
        PacketKind::Ack => 4,
        PacketKind::Close => 5,
    }
}

/// The packet kind a wire byte stands for, if any.
pub open spec fn kind_of_byte(b: u8) -> Option<PacketKind> {
    if b == 1 {
        Some(PacketKind::Hello)
    } else if b == 2 {
        Some(PacketKind::HelloAck)
    } else if b == 3 {
        Some(PacketKind::Data)
    } else if b == 4 {
        Some(PacketKind::Ack)
    } else if b == 5 {
        Some(PacketKind::Close)
    } else {
        None
    }
}

/// Errors of the packet codec.
#[derive(Debug, Clone, Copy, PartialEq, Eq, Structural)]
pub enum PacketError {
    /// Shorter than a header or without the magic bytes.
    Invalid,
    /// The kind byte is not one of the five kinds.
    UnknownKind(u8),
    /// The length field disagrees with the datagram length.
    Truncated,
    /// A payload longer than a 16-bit length field can describe.
    TooLarge,
}

impl PacketKind {
    /// The wire byte of this kind.
    pub fn byte(self) -> (b: u8)
        ensures
            b == kind_byte(self),
    {
        match self {
            PacketKind::Hello => 1,
            PacketKind::HelloAck => 2,
            PacketKind::Data => 3,
            PacketKind::Ack => 4,
            PacketKind::Close => 5,
        }
    }

    /// The kind that a wire byte encodes.
    pub fn from_byte(value: u8) -> (r: Result<PacketKind, PacketError>)
        ensures
            r matches Ok(k) ==> kind_of_byte(value) == Some(k),
            r matches Err(e) ==> kind_of_byte(value) is None && e == PacketError::UnknownKind(value),
    {
        match value {
            1 => Ok(PacketKind::Hello),
            2 => Ok(PacketKind::HelloAck),
            3 => Ok(PacketKind::Data),
            4 => Ok(PacketKind::Ack),
            5 => Ok(PacketKind::Close),
            _ => Err(PacketError::UnknownKind(value)),
        }
    }

    /// The name of the kind as diagnostics print it.
    pub fn as_str(self) -> (s: &'static str)
        ensures
            s@ == kind_name(self),
    {
        match self {
            PacketKind::Hello => "hello",
            PacketKind::HelloAck => "hello_ack",
            PacketKind::Data => "data",
            PacketKind::Ack => "ack",
            PacketKind::Close => "close",
        }
    }
}

/// The diagnostic name of each packet kind.
pub open spec fn kind_name(kind: PacketKind) -> Seq<char> {
    match kind {
        PacketKind::Hello => "hello"@,
        PacketKind::HelloAck => "hello_ack"@,
        PacketKind::Data => "data"@,
        PacketKind::Ack => "ack"@,
        PacketKind::Close => "close"@,
    }
}

/// Decoding a kind's byte gives the kind back.
pub proof fn lemma_kind_byte_roundtrip(kind: PacketKind)
    ensures
        kind_of_byte(kind_byte(kind)) == Some(kind),
{
}

/// One packet of the UDP session protocol.
#[derive(Debug)]
pub struct Packet {
    pub kind: PacketKind,
    pub seq: u64,
    pub payload: Vec<u8>,
}

/// Big-endian bytes of a 64-bit number.
pub open spec fn be64(x: u64) -> Seq<u8> {
    seq![
        (x >> 56u64) as u8,
        (x >> 48u64) as u8,
        (x >> 40u64) as u8,
        (x >> 32u64) as u8,
        (x >> 24u64) as u8,
        (x >> 16u64) as u8,
        (x >> 8u64) as u8,
        x as u8,
    ]
}

/// The 64-bit number with big-endian bytes `b[at..at + 8]`.
pub open spec fn from_be64(b: Seq<u8>, at: int) -> u64 {
    ((b[at] as u64) << 56u64) | ((b[at + 1] as u64) << 48u64) | ((b[at + 2] as u64) << 40u64) | ((
    b[at + 3] as u64) << 32u64) | ((b[at + 4] as u64) << 24u64) | ((b[at + 5] as u64) << 16u64)
        | ((b[at + 6] as u64) << 8u64) | (b[at + 7] as u64)
}

/// Big-endian bytes of a 16-bit number.
pub open spec fn be16(x: u16) -> Seq<u8> {
    seq![(x >> 8u16) as u8, x as u8]
}

/// The 16-bit number with big-endian bytes `b[at..at + 2]`.
pub open spec fn from_be16(b: Seq<u8>, at: int) -> u16 {
    ((b[at] as u16) << 8u16) | (b[at + 1] as u16)
}

proof fn lemma_be64_bits(x: u64)
    ensures
        (((((x >> 56u64) as u8) as u64) << 56u64) | ((((x >> 48u64) as u8) as u64) << 48u64) | ((((x
            >> 40u64) as u8) as u64) << 40u64) | ((((x >> 32u64) as u8) as u64) << 32u64) | ((((x
            >> 24u64) as u8) as u64) << 24u64) | ((((x >> 16u64) as u8) as u64) << 16u64) | ((((x
            >> 8u64) as u8) as u64) << 8u64) | ((x as u8) as u64)) == x,
{
    assert((((((x >> 56u64) as u8) as u64) << 56u64) | ((((x >> 48u64) as u8) as u64) << 48u64) | ((((x
        >> 40u64) as u8) as u64) << 40u64) | ((((x >> 32u64) as u8) as u64) << 32u64) | ((((x
        >> 24u64) as u8) as u64) << 24u64) | ((((x >> 16u64) as u8) as u64) << 16u64) | ((((x
        >> 8u64) as u8) as u64) << 8u64) | ((x as u8) as u64)) == x) by (bit_vector);
}

/// Reading back the big-endian bytes of `x` gives `x`.
pub proof fn lemma_be64_roundtrip(x: u64, b: Seq<u8>, at: int)
    requires
        0 <= at,
        at + 8 <= b.len(),
        b.subrange(at, at + 8) == be64(x),
    ensures
        from_be64(b, at) == x,
{
    let s = b.subrange(at, at + 8);
    assert(b[at] == s[0] && b[at + 1] == s[1] && b[at + 2] == s[2] && b[at + 3] == s[3]);
    assert(b[at + 4] == s[4] && b[at + 5] == s[5] && b[at + 6] == s[6] && b[at + 7] == s[7]);
    lemma_be64_bits(x);
}

/// Reading back the big-endian bytes of `x` gives `x`.
pub proof fn lemma_be16_roundtrip(x: u16, b: Seq<u8>, at: int)
    requires
        0 <= at,
        at + 2 <= b.len(),
        b.subrange(at, at + 2) == be16(x),
    ensures
        from_be16(b, at) == x,
{
    let s = b.subrange(at, at + 2);
    assert(b[at] == s[0] && b[at + 1] == s[1]);
    assert(((((x >> 8u16) as u8) as u16) << 8u16) | ((x as u8) as u16) == x) by (bit_vector);
}

/// The bytes of a packet on the wire: magic, kind byte, sequence number, payload length, payload.
pub open spec fn packet_bytes(kind: PacketKind, seq: u64, payload: Seq<u8>) -> Seq<u8> {
    magic() + seq![kind_byte(kind)] + be64(seq) + be16(payload.len() as u16) + payload
}

/// The outcome of decoding a datagram, as kind, sequence number and payload.
pub open spec fn decode_spec(b: Seq<u8>) -> Result<(PacketKind, u64, Seq<u8>), PacketError> {
    if b.len() < HEADER_LEN || b.take(4) != magic() {
        Err(PacketError::Invalid)
    } else if kind_of_byte(b[4]) is None {
        Err(PacketError::UnknownKind(b[4]))
    } else if b.len() != HEADER_LEN + from_be16(b, 13) {
        Err(PacketError::Truncated)
    } else {
        Ok((kind_of_byte(b[4]).unwrap(), from_be64(b, 5), b.skip(HEADER_LEN as int)))
    }
}

fn push_be64(out: &mut Vec<u8>, x: u64)
    ensures
        final(out)@ == old(out)@ + be64(x),
{
    out.push((x >> 56u64) as u8);
    out.push((x >> 48u64) as u8);
    out.push((x >> 40u64) as u8);
    out.push((x >> 32u64) as u8);
    out.push((x >> 24u64) as u8);
    out.push((x >> 16u64) as u8);
    out.push((x >> 8u64) as u8);
    out.push(x as u8);
    assert(out@ =~= old(out)@ + be64(x));
}

/// Appends `t` to `v`.
pub fn extend_bytes(v: &mut Vec<u8>, t: &[u8])
    ensures
        final(v)@ == old(v)@ + t@,
{
    let ghost v0 = v@;
    let mut i: usize = 0;
    while i < t.len()
        invariant
            i <= t.len(),
            v@ == v0 + t@.take(i as int),
        decreases t.len() - i,
    {
        v.push(t[i]);
        assert(t@.take(i + 1) =~= t@.take(i as int).push(t@[i as int]));
        i = i + 1;
    }
    assert(t@.take(t@.len() as int) =~= t@);
}

/// The bytes `v[lo..hi]`.
pub fn slice_bytes(v: &[u8], lo: usize, hi: usize) -> (r: Vec<u8>)
    requires
        lo <= hi <= v.len(),
    ensures
        r@ == v@.subrange(lo as int, hi as int),
{
    let mut r: Vec<u8> = Vec::new();
    let mut i = lo;
    while i < hi
        invariant
            lo <= i <= hi <= v.len(),
            r@ == v@.subrange(lo as int, i as int),
        decreases hi - i,
    {
        r.push(v[i]);
        assert(v@.subrange(lo as int, i + 1) =~= v@.subrange(lo as int, i as int).push(v@[i as int]));
        i = i + 1;
    }
    r
}

/// Encodes a packet for the wire; a payload over 65535 bytes is refused.
pub fn encode_packet(packet: &Packet) -> (r: Result<Vec<u8>, PacketError>)
    ensures
        packet.payload@.len() > u16::MAX ==> r == Err::<Vec<u8>, PacketError>(PacketError::TooLarge),
        packet.payload@.len() <= u16::MAX ==> (r matches Ok(bytes) && bytes@ == packet_bytes(
            packet.kind,
            packet.seq,
            packet.payload@,
        )),
{
    if packet.payload.len() > 65535 {
        return Err(PacketError::TooLarge);
    }
    let mut out: Vec<u8> = Vec::new();
    out.push(0x4d);
    out.push(0x44);
    out.push(0x55);
    out.push(0x31);
    out.push(packet.kind.byte());
    push_be64(&mut out, packet.seq);
    let len = packet.payload.len() as u16;
    out.push((len >> 8u16) as u8);
    out.push(len as u8);
    extend_bytes(&mut out, &packet.payload);
    assert(out@ =~= packet_bytes(packet.kind, packet.seq, packet.payload@));
    Ok(out)
}

/// Decodes a datagram into a packet.
pub fn decode_packet(bytes: &[u8]) -> (r: Result<Packet, PacketError>)
    ensures
        r matches Ok(p) ==> decode_spec(bytes@) == Ok::<(PacketKind, u64, Seq<u8>), PacketError>((p.kind, p.seq, p.payload@)),
        r matches Err(e) ==> decode_spec(bytes@) == Err::<(PacketKind, u64, Seq<u8>), PacketError>(e),
{
    if bytes.len() < HEADER_LEN || bytes[0] != 0x4d || bytes[1] != 0x44 || bytes[2] != 0x55
        || bytes[3] != 0x31 {
        proof {
            if bytes@.len() >= HEADER_LEN {
                assert(bytes@.take(4) != magic()) by {
                    if bytes@.take(4) == magic() {
                        assert(bytes@.take(4)[0] == bytes@[0]);
                        assert(bytes@.take(4)[1] == bytes@[1]);
                        assert(bytes@.take(4)[2] == bytes@[2]);
                        assert(bytes@.take(4)[3] == bytes@[3]);
                    }
                }
            }
        }
        return Err(PacketError::Invalid);
    }
    assert(bytes@.take(4) =~= magic());
    let kind = match PacketKind::from_byte(bytes[4]) {
        Ok(k) => k,
        Err(e) => {
            return Err(e);
        },
    };
    let seq: u64 = ((bytes[5] as u64) << 56u64) | ((bytes[6] as u64) << 48u64) | ((
    bytes[7] as u64) << 40u64) | ((bytes[8] as u64) << 32u64) | ((bytes[9] as u64) << 24u64) | ((
    bytes[10] as u64) << 16u64) | ((bytes[11] as u64) << 8u64) | (bytes[12] as u64);
    let len: u16 = ((bytes[13] as u16) << 8u16) | (bytes[14] as u16);
    if bytes.len() != HEADER_LEN + len as usize {
        return Err(PacketError::Truncated);
    }
    let payload = slice_bytes(bytes, HEADER_LEN, bytes.len());
    assert(payload@ =~= bytes@.skip(HEADER_LEN as int));
    Ok(Packet { kind, seq, payload })
}

/// Decoding the encoding of a packet gives the packet back.
pub proof fn lemma_packet_roundtrip(kind: PacketKind, seq: u64, payload: Seq<u8>)
    requires
        payload.len() <= u16::MAX,
    ensures
        decode_spec(packet_bytes(kind, seq, payload)) == Ok::<(PacketKind, u64, Seq<u8>), PacketError>((kind, seq, payload)),
{
    let b = packet_bytes(kind, seq, payload);
    assert(b.take(4) =~= magic());
    assert(b[4] == kind_byte(kind));
    assert(b.subrange(5, 13) =~= be64(seq));
    lemma_be64_roundtrip(seq, b, 5);
    assert(b.subrange(13, 15) =~= be16(payload.len() as u16));
    lemma_be16_roundtrip(payload.len() as u16, b, 13);
    assert(b.skip(HEADER_LEN as int) =~= payload);
}

/// Which side of a session sends: the client or the node.
#[derive(Debug, Clone, Copy, PartialEq, Eq, Structural)]
pub enum Direction {
    ClientToNode,
    NodeToClient,
}

/// The byte that marks each direction in a nonce.
pub open spec fn direction_byte(d: Direction) -> u8 {
    match d {
        Direction::ClientToNode => 0,
        Direction::NodeToClient => 1,
    }
}

/// The other direction.
pub open spec fn peer_direction(d: Direction) -> Direction {
    match d {
        Direction::ClientToNode => Direction::NodeToClient,
        Direction::NodeToClient => Direction::ClientToNode,
    }
}

impl Direction {
    /// The nonce byte of this direction.
    pub fn byte(self) -> (b: u8)
        ensures
            b == direction_byte(self),
    {
        match self {
            Direction::ClientToNode => 0,
            Direction::NodeToClient => 1,
        }
    }

    /// The direction the peer sends in.
    pub fn peer(self) -> (d: Direction)
        ensures
            d == peer_direction(self),
    {
        match self {
            Direction::ClientToNode => Direction::NodeToClient,
            Direction::NodeToClient => Direction::ClientToNode,
        }
    }
}

/// The peer of the peer is the direction itself, and no direction is its own peer.
pub proof fn lemma_peer_involution(d: Direction)
    ensures
        peer_direction(peer_direction(d)) == d,
        peer_direction(d) != d,
        direction_byte(peer_direction(d)) != direction_byte(d),
{
}

/// The 12-byte AEAD nonce of a data packet: direction byte, three zero bytes, sequence number.
pub open spec fn nonce_spec(d: Direction, seq: u64) -> Seq<u8> {
    seq![direction_byte(d), 0u8, 0u8, 0u8] + be64(seq)
}

/// The nonce for the packet with sequence number `seq` sent in direction `direction`.
pub fn nonce_bytes(direction: Direction, seq: u64) -> (n: Vec<u8>)
    ensures
        n@ == nonce_spec(direction, seq),
        n@.len() == 12,
{
    let mut n: Vec<u8> = Vec::new();
    n.push(direction.byte());
    n.push(0);
    n.push(0);
    n.push(0);
    push_be64(&mut n, seq);
    assert(n@ =~= nonce_spec(direction, seq));
    n
}

/// Nonces never repeat: distinct (direction, sequence number) pairs give distinct nonces.
pub proof fn lemma_nonce_unique(d1: Direction, s1: u64, d2: Direction, s2: u64)
    requires
        d1 != d2 || s1 != s2,
    ensures
        nonce_spec(d1, s1) != nonce_spec(d2, s2),
{
    if nonce_spec(d1, s1) == nonce_spec(d2, s2) {
        let n = nonce_spec(d1, s1);
        assert(n[0] == direction_byte(d1));
        assert(nonce_spec(d2, s2)[0] == direction_byte(d2));
        assert(n.subrange(4, 12) =~= be64(s1));
        assert(nonce_spec(d2, s2).subrange(4, 12) =~= be64(s2));
        lemma_be64_roundtrip(s1, n, 4);
        lemma_be64_roundtrip(s2, n, 4);
    }
}


/// The bytes of the first payloads received for sequence numbers `0..n`, in order.
pub open spec fn stream_upto(received: Map<u64, Seq<u8>>, n: nat) -> Seq<u8>
    decreases n,
{
    if n == 0 {
        seq![]
    } else {
        stream_upto(received, (n - 1) as nat) + received[(n - 1) as u64]
    }
}

/// Sequence numbers are ordered as the standard library's ordered maps expect of their keys.
proof fn lemma_sequence_numbers_ordered()
    ensures
        vstd::laws_cmp::obeys_cmp::<u64>(),
{
    broadcast use vstd::laws_cmp::group_laws_cmp;
}

/// Receive-side state of a session: the reassembly of data packets into an ordered byte stream.
pub struct SessionState {
    /// Sequence number of the next data packet this side sends.
    pub send_seq: u64,
    /// Sequence number of the next data packet expected in order.
    pub recv_seq: u64,
    /// In-order bytes not yet handed to a reader.
    pub pending_read: VecDeque<u8>,
    /// Data packets that arrived ahead of `recv_seq`, by sequence number.
    pub pending_packets: BTreeMap<u64, Vec<u8>>,
    /// The first payload received for each sequence number.
    pub received: Ghost<Map<u64, Seq<u8>>>,
    /// The bytes already handed to readers.
    pub consumed: Ghost<Seq<u8>>,
}

impl SessionState {
    /// The reassembly invariant: everything below `recv_seq` arrived and was delivered in order,
    /// `recv_seq` itself has not arrived, and exactly the later arrivals wait in `pending_packets`.
    pub open spec fn wf(&self) -> bool {
        &&& forall|k: u64| k < self.recv_seq ==> #[trigger] self.received@.contains_key(k)
        &&& !self.received@.contains_key(self.recv_seq)
        &&& self.pending_ok(self.recv_seq)
        &&& forall|k: u64|
            #![trigger self.received@.contains_key(k)]
            self.received@.contains_key(k) && k > self.recv_seq ==> self.pending_packets@.contains_key(k)
        &&& self.consumed@ + self.pending_read@ == stream_upto(self.received@, self.recv_seq as nat)
    }

    /// Every buffered packet lies at or after `from`, below `u64::MAX`, with its first payload.
    pub open spec fn pending_ok(&self, from: u64) -> bool {
        forall|k: u64|
            #[trigger] self.pending_packets@.contains_key(k) ==> {
                &&& k >= from
                &&& k < u64::MAX
                &&& self.received@.contains_key(k)
                &&& self.received@[k] == self.pending_packets@[k]@
            }
    }

    /// A fresh session: nothing sent, nothing received.
    pub fn new() -> (s: SessionState)
        ensures
            s.wf(),
            s.send_seq == 0,
            s.recv_seq == 0,
            s.received@ == Map::<u64, Seq<u8>>::empty(),
            s.consumed@ == Seq::<u8>::empty(),
            s.pending_read@ == Seq::<u8>::empty(),
    {
        SessionState {
            send_seq: 0,
            recv_seq: 0,
            pending_read: VecDeque::new(),
            pending_packets: BTreeMap::new(),
            received: Ghost(Map::empty()),
            consumed: Ghost(Seq::empty()),
        }
    }

    /// Takes in the plaintext of data packet `seq`. A packet below `recv_seq` or already buffered
    /// changes nothing; a later one is buffered; the expected one is delivered together with every
    /// buffered packet that now follows it without a gap.
    pub fn handle_data(&mut self, seq: u64, plaintext: Vec<u8>)
        requires
            old(self).wf(),
            seq < u64::MAX,
        ensures
            final(self).wf(),
            final(self).received@ == (if old(self).received@.contains_key(seq) {
                old(self).received@
            } else {
                old(self).received@.insert(seq, plaintext@)
            }),
            final(self).recv_seq >= old(self).recv_seq,
            final(self).consumed@ == old(self).consumed@,
            final(self).send_seq == old(self).send_seq,
    {
        broadcast use vstd::std_specs::btree::group_btree_axioms;
        proof {
            lemma_sequence_numbers_ordered();
        }
        if seq < self.recv_seq {
            return;
        }
        if seq > self.recv_seq {
            if self.pending_packets.contains_key(&seq) {
                assert(self.received@.contains_key(seq));
            } else {
                assert(!self.received@.contains_key(seq));
                let ghost pv = plaintext@;
                self.pending_packets.insert(seq, plaintext);
                self.received = Ghost(self.received@.insert(seq, pv));
                proof {
                    assert forall|k: u64| k < self.recv_seq implies #[trigger] self.received@.contains_key(k) by {
                        assert(old(self).received@.contains_key(k));
                    }
                    lemma_stream_upto_frame(old(self).received@, self.received@, self.recv_seq as nat);
                }
            }
            return;
        }
        // seq == recv_seq: deliver it and the run of buffered packets behind it.
        let ghost pv = plaintext@;
        extend_deque(&mut self.pending_read, &plaintext);
        self.received = Ghost(self.received@.insert(seq, pv));
        proof {
            lemma_stream_upto_frame(old(self).received@, self.received@, self.recv_seq as nat);
            assert(stream_upto(self.received@, (self.recv_seq + 1) as nat) == stream_upto(self.received@, self.recv_seq as nat) + pv);
        }
        self.recv_seq = self.recv_seq + 1;
        proof {
            assert(self.consumed@ + self.pending_read@ =~= stream_upto(self.received@, self.recv_seq as nat));
            assert forall|k: u64| k < self.recv_seq implies #[trigger] self.received@.contains_key(k) by {
                if k != seq {
                    assert(old(self).received@.contains_key(k));
                }
            }
            assert forall|k: u64|
                #![trigger self.received@.contains_key(k)]
                self.received@.contains_key(k) && k >= self.recv_seq implies self.pending_packets@.contains_key(k) by {
                assert(k != seq);
                assert(old(self).received@.contains_key(k));
            }
        }
        loop
            invariant_except_break
                forall|k: u64| k < self.recv_seq ==> #[trigger] self.received@.contains_key(k),
                self.pending_ok(self.recv_seq),
                forall|k: u64|
                    #![trigger self.received@.contains_key(k)]
                    self.received@.contains_key(k) && k >= self.recv_seq ==> self.pending_packets@.contains_key(k),
                self.consumed@ + self.pending_read@ == stream_upto(self.received@, self.recv_seq as nat),
                self.received@ == old(self).received@.insert(seq, pv),
                self.recv_seq > old(self).recv_seq,
                self.consumed@ == old(self).consumed@,
                self.send_seq == old(self).send_seq,
            ensures
                self.wf(),
                self.received@ == old(self).received@.insert(seq, pv),
                self.recv_seq > old(self).recv_seq,
                self.consumed@ == old(self).consumed@,
                self.send_seq == old(self).send_seq,
            decreases self.pending_packets@.dom().len(),
        {
            let ghost old_pending = self.pending_packets@;
            let ghost old_recv = self.recv_seq;
            match self.pending_packets.remove(&self.recv_seq) {
                None => {
                    proof {
                        assert(!self.received@.contains_key(self.recv_seq));
                        assert forall|k: u64| #[trigger] self.pending_packets@.contains_key(k) implies k > self.recv_seq by {}
                    }
                    break;
                },
                Some(payload) => {
                    assert(old_pending.contains_key(old_recv));
                    assert(self.pending_packets@ == old_pending.remove(old_recv));
                    assert(self.received@[old_recv] == payload@);
                    proof {
                        vstd::std_specs::btree::axiom_btree_map_view_finite_dom(self.pending_packets);
                        assert(old_pending.dom().finite());
                        assert(self.pending_packets@.dom() =~= old_pending.dom().remove(old_recv));
                    }
                    extend_deque(&mut self.pending_read, &payload);
                    proof {
                        assert(stream_upto(self.received@, (old_recv + 1) as nat) == stream_upto(self.received@, old_recv as nat) + self.received@[old_recv]);
                    }
                    self.recv_seq = self.recv_seq + 1;
                    proof {
                        assert(self.consumed@ + self.pending_read@ =~= stream_upto(self.received@, self.recv_seq as nat));
                        assert forall|k: u64| k < self.recv_seq implies #[trigger] self.received@.contains_key(k) by {
                            if k < old_recv {
                            } else {
                                assert(k == old_recv);
                            }
                        }
                        assert forall|k: u64|
                            #![trigger self.received@.contains_key(k)]
                            self.received@.contains_key(k) && k >= self.recv_seq implies self.pending_packets@.contains_key(k) by {
                            assert(old_pending.contains_key(k));
                        }
                    }
                },
            }
        }
    }
}

/// `stream_upto` reads only the sequence numbers below `n`.
pub proof fn lemma_stream_upto_frame(a: Map<u64, Seq<u8>>, b: Map<u64, Seq<u8>>, n: nat)
    requires
        n <= u64::MAX + 1,
        forall|k: u64| k < n ==> #[trigger] a.contains_key(k) && b.contains_key(k) && a[k] == b[k],
    ensures
        stream_upto(a, n) == stream_upto(b, n),
    decreases n,
{
    if n > 0 {
        assert forall|k: u64| k < n - 1 implies #[trigger] a.contains_key(k) && b.contains_key(k) && a[k] == b[k] by {
            assert(k < n);
        }
        lemma_stream_upto_frame(a, b, (n - 1) as nat);
        assert(a.contains_key((n - 1) as u64));
        assert(a[(n - 1) as u64] == b[(n - 1) as u64]);
    }
}


/// The 32-byte session key both sides derive from the session token: its SHA-256 digest.
pub fn session_key(token: &str) -> (k: Vec<u8>)
    ensures
        k@ == sha256_of(token.spec_bytes()),
        k@.len() == 32,
{
    sha256(token.as_bytes())
}

/// The receiving side could not authenticate a data packet.
#[derive(Debug, Clone, Copy, PartialEq, Eq, Structural)]
pub enum DecryptError {
    Failed,
}

/// Copies the first `min(buffer.len(), pending.len())` pending bytes into `buffer` and removes
/// them from `pending`; returns how many were copied.
pub fn drain_pending(pending: &mut VecDeque<u8>, buffer: &mut [u8]) -> (n: usize)
    ensures
        n == if old(buffer)@.len() < old(pending)@.len() {
            old(buffer)@.len()
        } else {
            old(pending)@.len()
        },
        final(buffer)@.len() == old(buffer)@.len(),
        final(buffer)@.take(n as int) == old(pending)@.take(n as int),
        final(buffer)@.skip(n as int) == old(buffer)@.skip(n as int),
        final(pending)@ == old(pending)@.skip(n as int),
{
    let size = if buffer.len() < pending.len() {
        buffer.len()
    } else {
        pending.len()
    };
    let mut i: usize = 0;
    while i < size
        invariant
            size <= buffer.len(),
            size <= pending@.len(),
            pending@ == old(pending)@,
            i <= size,
            buffer@.len() == old(buffer)@.len(),
            forall|k: int| 0 <= k < i ==> buffer@[k] == pending@[k],
            forall|k: int| i <= k < buffer@.len() ==> buffer@[k] == old(buffer)@[k],
        decreases size - i,
    {
        buffer[i] = pending[i];
        i = i + 1;
    }
    assert(buffer@.take(size as int) =~= old(pending)@.take(size as int));
    assert(buffer@.skip(size as int) =~= old(buffer)@.skip(size as int));
    let mut j: usize = 0;
    assert(old(pending)@.skip(0) =~= old(pending)@);
    while j < size
        invariant
            j <= size,
            size <= old(pending)@.len(),
            pending@ == old(pending)@.skip(j as int),
        decreases size - j,
    {
        pending.pop_front();
        assert(pending@ =~= old(pending)@.skip(j + 1));
        j = j + 1;
    }
    size
}

/// Appends the bytes of `t` behind those of `v`.
pub fn extend_deque(v: &mut VecDeque<u8>, t: &[u8])
    ensures
        final(v)@ == old(v)@ + t@,
{
    let ghost v0 = v@;
    let mut i: usize = 0;
    while i < t.len()
        invariant
            i <= t.len(),
            v@ == v0 + t@.take(i as int),
        decreases t.len() - i,
    {
        v.push_back(t[i]);
        assert(t@.take(i + 1) =~= t@.take(i as int).push(t@[i as int]));
        i = i + 1;
    }
    assert(t@.take(t@.len() as int) =~= t@);
}

impl SessionState {
    /// Hands buffered in-order bytes to a reader: as many as fit in `buffer`.
    pub fn read_into(&mut self, buffer: &mut [u8]) -> (n: usize)
        requires
            old(self).wf(),
        ensures
            final(self).wf(),
            n == if old(buffer)@.len() < old(self).pending_read@.len() {
                old(buffer)@.len()
            } else {
                old(self).pending_read@.len()
            },
            final(buffer)@.len() == old(buffer)@.len(),
            final(buffer)@.take(n as int) == old(self).pending_read@.take(n as int),
            final(buffer)@.skip(n as int) == old(buffer)@.skip(n as int),
            final(self).consumed@ == old(self).consumed@ + old(self).pending_read@.take(n as int),
            final(self).pending_read@ == old(self).pending_read@.skip(n as int),
            final(self).received@ == old(self).received@,
            final(self).recv_seq == old(self).recv_seq,
            final(self).send_seq == old(self).send_seq,
    {
        let ghost before = self.pending_read@;
        let n = drain_pending(&mut self.pending_read, buffer);
        self.consumed = Ghost(self.consumed@ + before.take(n as int));
        assert(before =~= before.take(n as int) + before.skip(n as int));
        assert(self.consumed@ + self.pending_read@ =~= old(self).consumed@ + before);
        assert(self.pending_packets@ == old(self).pending_packets@);
        assert(self.received@ == old(self).received@);
        n
    }

    /// Authenticates a data packet sent by the peer (whose direction is the peer of `direction`)
    /// and takes in its plaintext as `handle_data` does.
    pub fn receive_data(&mut self, key: &[u8], direction: Direction, packet: &Packet) -> (r: Result<(), DecryptError>)
        requires
            old(self).wf(),
            key@.len() == 32,
            packet.seq < u64::MAX,
        ensures
            final(self).wf(),
            r is Err <==> aead_opened(key@, nonce_spec(peer_direction(direction), packet.seq), packet.payload@) is None,
            r is Err ==> *final(self) == *old(self),
            r is Ok ==> {
                let p = aead_opened(key@, nonce_spec(peer_direction(direction), packet.seq), packet.payload@).unwrap();
                &&& final(self).received@ == (if old(self).received@.contains_key(packet.seq) {
                        old(self).received@
                    } else {
                        old(self).received@.insert(packet.seq, p)
                    })
                &&& final(self).consumed@ == old(self).consumed@
                &&& final(self).send_seq == old(self).send_seq
                &&& final(self).recv_seq >= old(self).recv_seq
            },
            forall|p: Seq<u8>|
                #[trigger] aead_sealed(key@, nonce_spec(peer_direction(direction), packet.seq), p) == Some(packet.payload@)
                    ==> r is Ok && final(self).received@.contains_key(packet.seq) && (!old(self).received@.contains_key(packet.seq)
                        ==> final(self).received@[packet.seq] == p),
    {
        let nonce = nonce_bytes(direction.peer(), packet.seq);
        match aead_open(key, &nonce, &packet.payload) {
            Some(plaintext) => {
                self.handle_data(packet.seq, plaintext);
                Ok(())
            },
            None => Err(DecryptError::Failed),
        }
    }

    /// The data packet carrying the first `min(bytes.len(), MAX_PAYLOAD_LEN)` bytes of `bytes`,
    /// sealed under `key` with the nonce of `direction` and the next send sequence number.
    pub fn data_packet(&self, key: &[u8], direction: Direction, bytes: &[u8]) -> (r: (Packet, usize))
        requires
            key@.len() == 32,
        ensures
            r.1 == if bytes@.len() < MAX_PAYLOAD_LEN { bytes@.len() } else { MAX_PAYLOAD_LEN as nat },
            r.0.kind == PacketKind::Data,
            r.0.seq == self.send_seq,
            aead_sealed(key@, nonce_spec(direction, self.send_seq), bytes@.take(r.1 as int)) == Some(r.0.payload@),
    {
        let len = if bytes.len() < MAX_PAYLOAD_LEN {
            bytes.len()
        } else {
            MAX_PAYLOAD_LEN
        };
        let chunk = slice_bytes(bytes, 0, len);
        assert(chunk@ =~= bytes@.take(len as int));
        let nonce = nonce_bytes(direction, self.send_seq);
        let sealed = aead_seal(key, &nonce, &chunk);
        let payload = match sealed {
            Some(c) => c,
            None => Vec::new(),
        };
        (Packet { kind: PacketKind::Data, seq: self.send_seq, payload }, len)
    }

    /// Records that the data packet with the current send sequence number was acknowledged.
    pub fn mark_sent(&mut self)
        requires
            old(self).wf(),
            old(self).send_seq < u64::MAX,
        ensures
            final(self).wf(),
            final(self).send_seq == old(self).send_seq + 1,
            final(self).recv_seq == old(self).recv_seq,
            final(self).received@ == old(self).received@,
            final(self).consumed@ == old(self).consumed@,
            final(self).pending_read@ == old(self).pending_read@,
    {
        self.send_seq = self.send_seq + 1;
    }
}

/// The key under which the listener remembers a session handshake.
pub struct SessionHandshakeKey {
    pub peer_addr: String,
    pub token: String,
    pub service_id: String,
}

/// The plain value of a handshake key.
pub open spec fn handshake_key_view(k: SessionHandshakeKey) -> (Seq<char>, Seq<char>, Seq<char>) {
    (k.peer_addr@, k.token@, k.service_id@)
}

/// How long a handshake is remembered, in nanoseconds (30 seconds).
pub const DUPLICATE_HANDSHAKE_WINDOW_NANOS: u64 = 30_000_000_000;
/// How many handshakes are remembered at most.
pub const MAX_RECENT_HANDSHAKES: usize = 256;

/// More than the window has passed since `seen` (time never runs backwards: a later `seen` counts as zero).
pub open spec fn handshake_expired(seen: u64, now: u64) -> bool {
    now > seen && now - seen > DUPLICATE_HANDSHAKE_WINDOW_NANOS
}

/// The log with its expired entries removed from the front.
pub open spec fn prune_front(r: Seq<(SessionHandshakeKey, u64)>, now: u64) -> Seq<(SessionHandshakeKey, u64)>
    decreases r.len(),
{
    if r.len() > 0 && handshake_expired(r[0].1, now) {
        prune_front(r.drop_first(), now)
    } else {
        r
    }
}

/// The log holds `key`.
pub open spec fn log_has(r: Seq<(SessionHandshakeKey, u64)>, key: SessionHandshakeKey) -> bool {
    exists|i: int| 0 <= i < r.len() && handshake_key_view(#[trigger] r[i].0) == handshake_key_view(key)
}

/// The most recent `MAX_RECENT_HANDSHAKES` entries.
pub open spec fn cap_log(r: Seq<(SessionHandshakeKey, u64)>) -> Seq<(SessionHandshakeKey, u64)> {
    if r.len() > MAX_RECENT_HANDSHAKES {
        r.skip(r.len() - MAX_RECENT_HANDSHAKES)
    } else {
        r
    }
}

/// A well-kept log: no key twice, at most `MAX_RECENT_HANDSHAKES` entries.
pub open spec fn handshake_log_ok(r: Seq<(SessionHandshakeKey, u64)>) -> bool {
    &&& r.len() <= MAX_RECENT_HANDSHAKES
    &&& forall|i: int, j: int|
        0 <= i < j < r.len() ==> handshake_key_view(#[trigger] r[i].0) != handshake_key_view(#[trigger] r[j].0)
}

fn same_string(a: &String, b: &String) -> (r: bool)
    ensures
        r == (a@ == b@),
{
    a.eq(b)
}

fn same_key(a: &SessionHandshakeKey, b: &SessionHandshakeKey) -> (r: bool)
    ensures
        r == (handshake_key_view(*a) == handshake_key_view(*b)),
{
    same_string(&a.peer_addr, &b.peer_addr) && same_string(&a.token, &b.token) && same_string(&a.service_id, &b.service_id)
}

/// Remembers a session handshake and says whether it was seen within the window: expired entries
/// are dropped from the front of the log, a key already present is a duplicate, and a new key is
/// appended with the time, the oldest entries giving way beyond `MAX_RECENT_HANDSHAKES`.
pub fn is_duplicate_handshake(recent: &mut VecDeque<(SessionHandshakeKey, u64)>, key: SessionHandshakeKey, now: u64) -> (dup: bool)
    ensures
        dup == log_has(prune_front(old(recent)@, now), key),
        dup ==> final(recent)@ == prune_front(old(recent)@, now),
        !dup ==> final(recent)@ == cap_log(prune_front(old(recent)@, now).push((key, now))),
        handshake_log_ok(old(recent)@) ==> handshake_log_ok(final(recent)@),
{
    let mut removed: usize = 0;
    let ghost r0 = old(recent)@;
    let n0 = recent.len();
    while recent.len() > 0 && now > recent[0].1 && now - recent[0].1 > DUPLICATE_HANDSHAKE_WINDOW_NANOS
        invariant
            removed <= r0.len(),
            r0.len() == n0,
            recent@.len() == r0.len() - removed,
            recent@ == r0.skip(removed as int),
            prune_front(r0, now) == prune_front(recent@, now),
        decreases recent@.len(),
    {
        let ghost before = recent@;
        recent.pop_front();
        assert(recent@ =~= before.drop_first());
        assert(recent@ =~= r0.skip(removed + 1));
        removed = removed + 1;
    }
    assert(prune_front(recent@, now) == recent@);
    let ghost pruned = recent@;
    proof {
        if handshake_log_ok(r0) {
            assert(pruned.len() <= r0.len());
            assert forall|i: int, j: int| 0 <= i < j < pruned.len() implies handshake_key_view(#[trigger] pruned[i].0)
                != handshake_key_view(#[trigger] pruned[j].0) by {
                assert(pruned[i] == r0[i + removed]);
                assert(pruned[j] == r0[j + removed]);
            }
        }
    }
    let mut i: usize = 0;
    while i < recent.len()
        invariant
            recent@ == pruned,
            pruned == prune_front(old(recent)@, now),
            handshake_log_ok(old(recent)@) ==> handshake_log_ok(pruned),
            i <= recent@.len(),
            forall|k: int| 0 <= k < i ==> handshake_key_view(#[trigger] recent@[k].0) != handshake_key_view(key),
        decreases recent@.len() - i,
    {
        if same_key(&recent[i].0, &key) {
            assert(handshake_key_view(pruned[i as int].0) == handshake_key_view(key));
            return true;
        }
        i = i + 1;
    }
    recent.push_back((key, now));
    let ghost pushed = recent@;
    assert(pushed.skip(0) =~= pushed);
    while recent.len() > MAX_RECENT_HANDSHAKES
        invariant
            recent@.len() <= pushed.len(),
            recent@.len() < pushed.len() ==> recent@.len() >= MAX_RECENT_HANDSHAKES,
            pushed.len() > MAX_RECENT_HANDSHAKES ==> recent@.len() >= MAX_RECENT_HANDSHAKES,
            recent@ == pushed.skip(pushed.len() - recent@.len()),
        decreases recent@.len(),
    {
        let ghost before = recent@;
        recent.pop_front();
        assert(recent@ =~= before.drop_first());
        assert(recent@ =~= pushed.skip(pushed.len() - recent@.len()));
    }
    proof {
        if pushed.len() > MAX_RECENT_HANDSHAKES {
            assert(recent@.len() == MAX_RECENT_HANDSHAKES);
        } else {
            assert(recent@.len() == pushed.len());
            assert(recent@ =~= pushed);
        }
        assert(recent@ == cap_log(pushed));
        if handshake_log_ok(r0) {
            let off = pushed.len() - recent@.len();
            assert forall|a: int, b: int| 0 <= a < b < recent@.len() implies handshake_key_view(#[trigger] recent@[a].0)
                != handshake_key_view(#[trigger] recent@[b].0) by {
                assert(recent@[a] == pushed[a + off]);
                assert(recent@[b] == pushed[b + off]);
                if b + off == pruned.len() {
                    assert(pushed[b + off].0 == key);
                }
            }
        }
    }
    false
}


/// A UDP endpoint: the IP address octets (4 for IPv4, 16 for IPv6) and the port.
pub struct PeerAddr {
    pub ip: Vec<u8>,
    pub port: u16,
}

/// The plain value of an endpoint.
pub open spec fn addr_view(a: PeerAddr) -> (Seq<u8>, u16) {
    (a.ip@, a.port)
}

/// Equality of two byte sequences.
pub(crate) fn same_bytes(a: &[u8], b: &[u8]) -> (r: bool)
    ensures
        r == (a@ == b@),
{
    if a.len() != b.len() {
        return false;
    }
    let mut i: usize = 0;
    while i < a.len()
        invariant
            a.len() == b.len(),
            i <= a.len(),
            forall|k: int| 0 <= k < i ==> a@[k] == b@[k],
        decreases a.len() - i,
    {
        if a[i] != b[i] {
            return false;
        }
        i = i + 1;
    }
    assert(a@ =~= b@);
    true
}

/// Some known peer endpoint shares the IP address of `a`.
pub open spec fn known_ip(peers: Seq<PeerAddr>, a: PeerAddr) -> bool {
    exists|i: int| 0 <= i < peers.len() && (#[trigger] peers[i]).ip@ == a.ip@
}

/// Some known peer endpoint is `a` itself.
pub open spec fn known_addr(peers: Seq<PeerAddr>, a: PeerAddr) -> bool {
    exists|i: int| 0 <= i < peers.len() && addr_view(#[trigger] peers[i]) == addr_view(a)
}

fn has_ip(peers: &Vec<PeerAddr>, a: &PeerAddr) -> (r: bool)
    ensures
        r == known_ip(peers@, *a),
{
    let mut i: usize = 0;
    while i < peers.len()
        invariant
            i <= peers@.len(),
            forall|k: int| 0 <= k < i ==> (#[trigger] peers@[k]).ip@ != a.ip@,
        decreases peers@.len() - i,
    {
        if same_bytes(&peers[i].ip, &a.ip) {
            return true;
        }
        i = i + 1;
    }
    false
}

fn has_addr(peers: &Vec<PeerAddr>, a: &PeerAddr) -> (r: bool)
    ensures
        r == known_addr(peers@, *a),
{
    let mut i: usize = 0;
    while i < peers.len()
        invariant
            i <= peers@.len(),
            forall|k: int| 0 <= k < i ==> addr_view(#[trigger] peers@[k]) != addr_view(*a),
        decreases peers@.len() - i,
    {
        if peers[i].port == a.port && same_bytes(&peers[i].ip, &a.ip) {
            return true;
        }
        i = i + 1;
    }
    false
}

/// The packet acknowledges the hello (kind `HelloAck`, sequence number 0).
pub open spec fn is_first_hello_ack(response: Option<&Packet>) -> bool {
    match response {
        Some(p) => p.kind == PacketKind::HelloAck && p.seq == 0,
        None => false,
    }
}

/// The datagram decodes to a packet acknowledging the hello.
pub open spec fn decodes_to_first_hello_ack(b: Seq<u8>) -> bool {
    match decode_spec(b) {
        Ok(d) => d.0 == PacketKind::HelloAck && d.1 == 0,
        Err(_) => false,
    }
}

/// A datagram answers the handshake: it comes from the IP address of a known peer endpoint (any
/// port, so a peer-reflexive source counts) and decodes as a `HelloAck` with sequence number 0.
pub fn is_handshake_ack_from_peer(peer_addrs: &Vec<PeerAddr>, packet_addr: &PeerAddr, response: Option<&Packet>) -> (r: bool)
    ensures
        r == (known_ip(peer_addrs@, *packet_addr) && is_first_hello_ack(response)),
{
    if !has_ip(peer_addrs, packet_addr) {
        return false;
    }
    match response {
        Some(p) => p.kind == PacketKind::HelloAck && p.seq == 0,
        None => false,
    }
}

/// A punch from a new port of a known peer IP address: the endpoint is added to the handshake
/// targets. Returns whether it was added.
pub fn record_peer_reflexive_candidate(peer_addrs: &mut Vec<PeerAddr>, packet_addr: PeerAddr, is_punch: bool) -> (added: bool)
    ensures
        added == (known_ip(old(peer_addrs)@, packet_addr) && !known_addr(old(peer_addrs)@, packet_addr) && is_punch),
        added ==> final(peer_addrs)@ == old(peer_addrs)@.push(packet_addr),
        !added ==> final(peer_addrs)@ == old(peer_addrs)@,
{
    if !has_ip(peer_addrs, &packet_addr) || has_addr(peer_addrs, &packet_addr) {
        return false;
    }
    if !is_punch {
        return false;
    }
    peer_addrs.push(packet_addr);
    true
}

/// What the client handshake does with one received datagram.
#[derive(Debug, Clone, Copy, PartialEq, Eq, Structural)]
pub enum HandshakeStep {
    /// The handshake is answered; the session talks to the datagram's source.
    Accept,
    /// The source became a new handshake target; send the next burst at once.
    NewTarget,
    /// Nothing to do; keep waiting.
    Wait,
}

/// The client side of the handshake: one decision per datagram received while waiting for the ack.
/// `is_punch` says whether the datagram is a rendezvous `Punch` message.
pub fn handshake_step(peer_addrs: &mut Vec<PeerAddr>, addr: PeerAddr, datagram: &[u8], is_punch: bool) -> (step: HandshakeStep)
    ensures
        step == HandshakeStep::Accept <==> (known_ip(old(peer_addrs)@, addr) && decodes_to_first_hello_ack(datagram@)),
        step == HandshakeStep::NewTarget <==> (step != HandshakeStep::Accept && known_ip(old(peer_addrs)@, addr) && !known_addr(old(peer_addrs)@, addr) && is_punch),
        step == HandshakeStep::NewTarget ==> final(peer_addrs)@ == old(peer_addrs)@.push(addr),
        step != HandshakeStep::NewTarget ==> final(peer_addrs)@ == old(peer_addrs)@,
{
    let decoded = decode_packet(datagram);
    let response = match &decoded {
        Ok(p) => Some(p),
        Err(_) => None,
    };
    if is_handshake_ack_from_peer(peer_addrs, &addr, response) {
        return HandshakeStep::Accept;
    }
    if record_peer_reflexive_candidate(peer_addrs, addr, is_punch) {
        HandshakeStep::NewTarget
    } else {
        HandshakeStep::Wait
    }
}

/// What the listener does with one received datagram.
#[derive(Debug)]
pub enum ListenerEvent {
    /// Not a session packet: hand it to the rendezvous handler.
    Rendezvous,
    /// A session packet for an active session: route it to that session.
    Route(Packet),
    /// A non-hello session packet from a source with no active session: drop it.
    Drop,
    /// A session hello: acknowledge it and, unless it is a duplicate, open a session.
    Hello(Packet),
}

/// Classifies a datagram received by the listener from `peer`, given the active sessions' peers.
pub fn classify_datagram(active: &Vec<PeerAddr>, peer: &PeerAddr, datagram: &[u8]) -> (e: ListenerEvent)
    ensures
        decode_spec(datagram@) is Err ==> e is Rendezvous,
        decode_spec(datagram@) matches Ok(d) ==> match e {
            ListenerEvent::Hello(p) => d.0 == PacketKind::Hello && (p.kind, p.seq, p.payload@) == d,
            ListenerEvent::Route(p) => d.0 != PacketKind::Hello && known_addr(active@, *peer) && (p.kind, p.seq, p.payload@) == d,
            ListenerEvent::Drop => d.0 != PacketKind::Hello && !known_addr(active@, *peer),
            ListenerEvent::Rendezvous => false,
        },
{
    match decode_packet(datagram) {
        Err(_) => ListenerEvent::Rendezvous,
        Ok(p) => {
            if p.kind != PacketKind::Hello {
                if has_addr(active, peer) {
                    ListenerEvent::Route(p)
                } else {
                    ListenerEvent::Drop
                }
            } else {
                ListenerEvent::Hello(p)
            }
        },
    }
}

/// Packets waiting for a session, oldest first.
pub struct PacketInbox {
    pub packets: VecDeque<Packet>,
}

/// `kind` is one of `kinds`.
pub open spec fn kind_in(kind: PacketKind, kinds: Seq<PacketKind>) -> bool {
    exists|i: int| 0 <= i < kinds.len() && kinds[i] == kind
}

fn kind_listed(kind: PacketKind, kinds: &[PacketKind]) -> (r: bool)
    ensures
        r == kind_in(kind, kinds@),
{
    let mut i: usize = 0;
    while i < kinds.len()
        invariant
            i <= kinds@.len(),
            forall|k: int| 0 <= k < i ==> kinds@[k] != kind,
        decreases kinds@.len() - i,
    {
        if kinds[i] == kind {
            return true;
        }
        i = i + 1;
    }
    false
}

impl PacketInbox {
    /// An empty inbox.
    pub fn new() -> (b: PacketInbox)
        ensures
            b.packets@.len() == 0,
    {
        PacketInbox { packets: VecDeque::new() }
    }

    /// Queues a packet behind the others.
    pub fn push(&mut self, packet: Packet)
        ensures
            final(self).packets@ == old(self).packets@.push(packet),
    {
        self.packets.push_back(packet);
    }

    /// Removes and returns the oldest packet whose kind is one of `kinds`.
    pub fn recv_matching(&mut self, kinds: &[PacketKind]) -> (r: Option<Packet>)
        ensures
            r matches Some(p) ==> exists|i: int|
                0 <= i < old(self).packets@.len() && old(self).packets@[i] == p && kind_in(p.kind, kinds@)
                && (forall|k: int| 0 <= k < i ==> !kind_in(#[trigger] old(self).packets@[k].kind, kinds@))
                && final(self).packets@ == old(self).packets@.remove(i),
            r is None ==> final(self).packets@ == old(self).packets@ && forall|k: int|
                0 <= k < old(self).packets@.len() ==> !kind_in(#[trigger] old(self).packets@[k].kind, kinds@),
    {
        let mut i: usize = 0;
        while i < self.packets.len()
            invariant
                self.packets@ == old(self).packets@,
                i <= self.packets@.len(),
                forall|k: int| 0 <= k < i ==> !kind_in(#[trigger] self.packets@[k].kind, kinds@),
            decreases self.packets@.len() - i,
        {
            if kind_listed(self.packets[i].kind, kinds) {
                return self.packets.remove(i);
            }
            i = i + 1;
        }
        None
    }
}

/// What a session end does with a packet from its peer while it waits, either for the ack of
/// its data packet `awaited` (`Some`) or for data to read (`None`).
#[derive(Debug, Clone, Copy, PartialEq, Eq, Structural)]
pub enum StreamStep {
    /// The awaited ack: the write is done.
    Acked,
    /// A data packet: take it in (and acknowledge it).
    Deliver,
    /// The peer closed the session.
    Closed,
    /// Anything else: keep waiting.
    Ignore,
}

/// The step for a packet of kind `kind` and sequence number `seq` (see `StreamStep`).
pub open spec fn stream_step_spec(awaited: Option<u64>, kind: PacketKind, seq: u64) -> StreamStep {
    match kind {
        PacketKind::Ack => if awaited == Some(seq) { StreamStep::Acked } else { StreamStep::Ignore },
        PacketKind::Data => StreamStep::Deliver,
        PacketKind::Close => StreamStep::Closed,
        _ => StreamStep::Ignore,
    }
}

/// Decides what to do with a packet while waiting (see `stream_step_spec`).
pub fn stream_step(awaited: Option<u64>, packet: &Packet) -> (s: StreamStep)
    ensures
        s == stream_step_spec(awaited, packet.kind, packet.seq),
{
    match packet.kind {
        PacketKind::Ack => match awaited {
            Some(seq) => if seq == packet.seq { StreamStep::Acked } else { StreamStep::Ignore },
            None => StreamStep::Ignore,
        },
        PacketKind::Data => StreamStep::Deliver,
        PacketKind::Close => StreamStep::Closed,
        _ => StreamStep::Ignore,
    }
}

/// How many times a data packet is sent before a write gives up waiting for its ack.
pub const WRITE_ATTEMPTS: usize = 5;

/// How many copies an acknowledgement burst (and a punch burst) sends.
pub const BURST_PACKETS: usize = 5;

/// How waiting for the ack of a sent data packet ended.
#[derive(Debug, Clone, Copy, PartialEq, Eq, Structural)]
pub enum AckWait {
    /// The ack came.
    Acked,
    /// The wait ran out (the socket read timed out or would block).
    TimedOut,
    /// Any other error, or the peer closed the session.
    Failed,
}

/// What a writer does after the `attempt`th send of a data packet (counting from 1).
#[derive(Debug, Clone, Copy, PartialEq, Eq, Structural)]
pub enum WriteNext {
    /// The packet was acknowledged: the write is done.
    Done,
    /// The wait ran out with sends left: send the packet again.
    Resend,
    /// The wait ran out on the last send: the write fails with that timeout.
    GiveUp,
    /// Another error: the write fails with it at once.
    Fail,
}

/// The resend policy: only a wait that ran out is retried, up to `WRITE_ATTEMPTS` sends in all.
pub fn write_next(attempt: usize, outcome: AckWait) -> (r: WriteNext)
    ensures
        r == match outcome {
            AckWait::Acked => WriteNext::Done,
            AckWait::Failed => WriteNext::Fail,
            AckWait::TimedOut => if attempt < WRITE_ATTEMPTS { WriteNext::Resend } else { WriteNext::GiveUp },
        },
{
    match outcome {
        AckWait::Acked => WriteNext::Done,
        AckWait::Failed => WriteNext::Fail,
        AckWait::TimedOut => if attempt < WRITE_ATTEMPTS { WriteNext::Resend } else { WriteNext::GiveUp },
    }
}

/// Whether a burst pauses after its `index`th packet (counting from 0): after every packet but
/// the last of the `BURST_PACKETS`.
pub fn burst_pause_after(index: usize) -> (r: bool)
    ensures
        r == (index + 1 < BURST_PACKETS),
{
    index < BURST_PACKETS - 1
}

/// How many bytes one data packet carries out of a write of `len` bytes.
pub fn write_chunk_len(len: usize) -> (n: usize)
    ensures
        n == if len < MAX_PAYLOAD_LEN { len } else { MAX_PAYLOAD_LEN },
{
    if len < MAX_PAYLOAD_LEN {
        len
    } else {
        MAX_PAYLOAD_LEN
    }
}


/// How a waiting session end reacts, for every awaited ack and every packet: a `Close` always
/// ends the wait, as closed; a data packet is always delivered; an ack ends a write's wait exactly
/// when it carries the awaited sequence number, and a reader never takes an ack as its end; a
/// hello or hello-ack never changes anything.
pub proof fn lemma_stream_step_reactions(awaited: Option<u64>, kind: PacketKind, seq: u64)
    ensures
        kind == PacketKind::Close ==> stream_step_spec(awaited, kind, seq) == StreamStep::Closed,
        kind == PacketKind::Data ==> stream_step_spec(awaited, kind, seq) == StreamStep::Deliver,
        kind == PacketKind::Ack ==> (stream_step_spec(awaited, kind, seq) == StreamStep::Acked <==> awaited == Some(seq)),
        kind == PacketKind::Ack && awaited != Some(seq) ==> stream_step_spec(awaited, kind, seq) == StreamStep::Ignore,
        (kind == PacketKind::Hello || kind == PacketKind::HelloAck) ==> stream_step_spec(awaited, kind, seq) == StreamStep::Ignore,
        stream_step_spec(awaited, kind, seq) == StreamStep::Closed ==> kind == PacketKind::Close,
{
}

} // verus!
