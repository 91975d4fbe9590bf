use crate::ids::ActorId;
use crate::wire::{
    be4, be4_value, copy_range, le_bytes, le_value, lemma_be4_round_trip, lemma_le_bytes_len, lemma_le_round_trip,
    lemma_pow256_values, pow256,
    read_be4, read_le, write_be4, write_le,
};
use vstd::prelude::*;
use vstd::slice::slice_subrange;

verus! {

/// Datagram size at which a broadcast is fragmented: a 1420-byte MTU less the
/// IPv6 and UDP headers.
pub const FRAGMENTS_AT: usize = 1420 - 40 - 8;

/// Room for a message in one datagram, after its one-byte type tag.
pub const EFFECTIVE_CAP: usize = FRAGMENTS_AT - 1;

/// Size of one broadcast sent over the reliable path.
pub const HTTP_BROADCAST_SIZE: usize = 64 * 1024;

/// Room for a message in one reliable broadcast, after its type tag.
pub const EFFECTIVE_HTTP_BROADCAST_SIZE: usize = HTTP_BROADCAST_SIZE - 1;

/// The largest frame body (payload and checksum) that is written or read.
pub const MAX_FRAME_LEN: usize = 8388608;

/// One change record, carried as opaque bytes.
#[derive(Clone, Debug, PartialEq, Eq)]
pub struct Change {
    pub data: Vec<u8>,
}

/// A message between nodes, tagged by protocol version.
#[derive(Clone, Debug, PartialEq, Eq)]
pub enum Message {
    V1(MessageV1),
}

/// The messages of the first protocol version.
#[derive(Clone, Debug, PartialEq, Eq)]
pub enum MessageV1 {
    /// The changeset of one version of one actor.
    Change { actor_id: ActorId, version: i64, changeset: Vec<Change> },
}

/// What the write path hands to the broadcaster.
#[derive(Clone, Debug, PartialEq, Eq)]
pub enum BroadcastInput {
    Rebroadcast(Message),
    AddBroadcast(Message),
}

/// Why a message could not be encoded.
#[derive(Clone, Copy, Debug, PartialEq, Eq, Structural)]
pub enum MessageEncodeError {
    /// The frame body would exceed [`MAX_FRAME_LEN`].
    FrameTooLarge,
}

/// Why a frame did not yield a message.
#[derive(Clone, Copy, Debug, PartialEq, Eq, Structural)]
pub enum MessageDecodeError {
    /// The payload is not the encoding of a message.
    Decode,
    /// The checksum carried by the frame (first) differs from the one
    /// computed over its payload (second).
    Corrupted(u32, u32),
    /// The length prefix announces a body above [`MAX_FRAME_LEN`].
    FrameTooLarge(u32),
}

/// The content of a [`Message`].
pub ghost struct MessageView {
    pub actor: u128,
    pub version: i64,
    pub changeset: Seq<Seq<u8>>,
}

/// The bytes of each change record.
pub open spec fn changes_view(cs: Seq<Change>) -> Seq<Seq<u8>> {
    cs.map_values(|c: Change| c.data@)
}

impl View for Message {
    type V = MessageView;

    open spec fn view(&self) -> MessageView {
        match self {
            Message::V1(MessageV1::Change { actor_id, version, changeset }) => MessageView {
                actor: actor_id.0,
                version: *version,
                changeset: changes_view(changeset@),
            },
        }
    }
}

/// CRC-32 (IEEE) of the given bytes.
pub uninterp spec fn crc32_of(data: Seq<u8>) -> u32;

/// Relies on `crc32fast::hash`: the CRC-32 (IEEE) of the bytes, which
/// depends on them alone.
#[verifier::external_body]
fn crc32(data: &[u8]) -> (r: u32)
    ensures
        r == crc32_of(data@),
{
    crc32fast::hash(data)
}

/// One change record on the wire: its length in four little-endian bytes,
/// then its bytes.
pub open spec fn change_bytes(c: Seq<u8>) -> Seq<u8> {
    le_bytes(c.len(), 4) + c
}

/// The change records one after the other.
pub open spec fn changes_bytes(cs: Seq<Seq<u8>>) -> Seq<u8>
    decreases cs.len(),
{
    if cs.len() == 0 {
        Seq::empty()
    } else {
        change_bytes(cs[0]) + changes_bytes(cs.skip(1))
    }
}

/// The payload of a message: the variant tag and the record count in four
/// little-endian bytes each, the actor in sixteen and the version in eight,
/// then the records.
pub open spec fn payload_of(m: MessageView) -> Seq<u8> {
    header_of(m) + changes_bytes(m.changeset)
}

/// The fixed-size head of a payload.
pub open spec fn header_of(m: MessageView) -> Seq<u8> {
    le_bytes(0, 4) + le_bytes(m.actor as nat, 16) + le_bytes((m.version as u64) as nat, 8)
        + le_bytes(m.changeset.len(), 4)
}

/// A frame: the length of what follows in four big-endian bytes, the
/// payload, and the CRC-32 of the payload in four big-endian bytes.
pub open spec fn frame_of(p: Seq<u8>) -> Seq<u8> {
    be4((p.len() + 4) as u32) + p + be4(crc32_of(p))
}

/// Whether every count and length of `m` fits in four bytes.
pub open spec fn counts_fit(m: MessageView) -> bool {
    &&& m.changeset.len() < pow256(4)
    &&& forall|i: int| 0 <= i < m.changeset.len() ==> #[trigger] m.changeset[i].len() < pow256(4)
}

/// Reads `n` change records that take up the whole of `b`.
pub open spec fn parse_changes(b: Seq<u8>, n: nat) -> Option<Seq<Seq<u8>>>
    decreases n,
{
    if n == 0 {
        if b.len() == 0 {
            Some(Seq::empty())
        } else {
            None
        }
    } else if b.len() < 4 {
        None
    } else {
        let l = le_value(b.subrange(0, 4)) as int;
        if b.len() - 4 < l {
            None
        } else {
            match parse_changes(b.skip(4 + l), (n - 1) as nat) {
                Some(rest) => Some(seq![b.subrange(4, 4 + l)] + rest),
                None => None,
            }
        }
    }
}

/// `acc` followed by the records of `r`, if there are any.
pub open spec fn prepend(acc: Seq<Seq<u8>>, r: Option<Seq<Seq<u8>>>) -> Option<Seq<Seq<u8>>> {
    match r {
        Some(rest) => Some(acc + rest),
        None => None,
    }
}

/// The message whose payload is exactly `b`, if there is one.
pub open spec fn parse_payload(b: Seq<u8>) -> Option<MessageView> {
    if b.len() < 32 || le_value(b.subrange(0, 4)) != 0 {
        None
    } else {
        match parse_changes(b.skip(32), le_value(b.subrange(28, 32))) {
            Some(cs) => Some(
                MessageView {
                    actor: le_value(b.subrange(4, 20)) as u128,
                    version: (le_value(b.subrange(20, 28)) as u64) as i64,
                    changeset: cs,
                },
            ),
            None => None,
        }
    }
}

/// The message that a frame body (payload and checksum) holds, or why
/// there is none.
pub open spec fn unframe(b: Seq<u8>) -> Result<MessageView, MessageDecodeError> {
    if b.len() < 4 {
        Err(MessageDecodeError::Decode)
    } else {
        let p = b.subrange(0, b.len() - 4);
        let got = be4_value(b[b.len() - 4], b[b.len() - 3], b[b.len() - 2], b[b.len() - 1]);
        if got != crc32_of(p) {
            Err(MessageDecodeError::Corrupted(got, crc32_of(p)))
        } else {
            match parse_payload(p) {
                Some(m) => Ok(m),
                None => Err(MessageDecodeError::Decode),
            }
        }
    }
}

/// What reading one frame from the front of `b` leaves in the buffer, and
/// the outcome: nothing yet while the frame is incomplete.
pub open spec fn decode_step(b: Seq<u8>) -> (Seq<u8>, Result<Option<MessageView>, MessageDecodeError>) {
    if b.len() < 4 {
        (b, Ok(None))
    } else {
        let n = be4_value(b[0], b[1], b[2], b[3]);
        if n > MAX_FRAME_LEN {
            (b, Err(MessageDecodeError::FrameTooLarge(n)))
        } else if b.len() < 4 + n {
            (b, Ok(None))
        } else {
            (
                b.skip(4 + n),
                match unframe(b.subrange(4, 4 + n)) {
                    Ok(m) => Ok(Some(m)),
                    Err(e) => Err(e),
                },
            )
        }
    }
}

proof fn lemma_changes_bytes_step(cs: Seq<Seq<u8>>, i: int)
    requires
        0 <= i < cs.len(),
    ensures
        changes_bytes(cs.skip(i)) == change_bytes(cs[i]) + changes_bytes(cs.skip(i + 1)),
{
    assert(cs.skip(i).skip(1) =~= cs.skip(i + 1));
}

proof fn lemma_changes_bytes_bound(cs: Seq<Seq<u8>>)
    ensures
        changes_bytes(cs).len() >= 4 * cs.len(),
        forall|i: int| 0 <= i < cs.len() ==> #[trigger] cs[i].len() <= changes_bytes(cs).len(),
    decreases cs.len(),
{
    if cs.len() > 0 {
        lemma_changes_bytes_bound(cs.skip(1));
        lemma_le_bytes_len(cs[0].len(), 4);
        assert forall|i: int| 0 <= i < cs.len() implies #[trigger] cs[i].len() <= changes_bytes(cs).len() by {
            if i > 0 {
                assert(cs[i] == cs.skip(1)[i - 1]);
            }
        }
    }
}

proof fn lemma_parse_changes_round_trip(cs: Seq<Seq<u8>>)
    requires
        forall|i: int| 0 <= i < cs.len() ==> #[trigger] cs[i].len() < pow256(4),
    ensures
        parse_changes(changes_bytes(cs), cs.len()) == Some(cs),
    decreases cs.len(),
{
    if cs.len() == 0 {
    } else {
        let b = changes_bytes(cs);
        let c = cs[0];
        assert forall|i: int| 0 <= i < cs.skip(1).len() implies #[trigger] cs.skip(1)[i].len() < pow256(4) by {
            assert(cs.skip(1)[i] == cs[i + 1]);
        }
        lemma_parse_changes_round_trip(cs.skip(1));
        lemma_le_round_trip(c.len(), 4);
        assert(b.subrange(0, 4) =~= le_bytes(c.len(), 4));
        assert(b.subrange(4, 4 + c.len() as int) =~= c);
        assert(b.skip(4 + c.len() as int) =~= changes_bytes(cs.skip(1)));
        assert(seq![c] + cs.skip(1) =~= cs);
    }
}

proof fn lemma_parse_payload_round_trip(m: MessageView)
    requires
        counts_fit(m),
    ensures
        parse_payload(payload_of(m)) == Some(m),
{
    let b = payload_of(m);
    lemma_pow256_values();
    lemma_le_round_trip(0, 4);
    lemma_le_round_trip(m.actor as nat, 16);
    lemma_le_round_trip((m.version as u64) as nat, 8);
    lemma_le_round_trip(m.changeset.len(), 4);
    lemma_parse_changes_round_trip(m.changeset);
    assert(b.subrange(0, 4) =~= le_bytes(0, 4));
    assert(b.subrange(4, 20) =~= le_bytes(m.actor as nat, 16));
    assert(b.subrange(20, 28) =~= le_bytes((m.version as u64) as nat, 8));
    assert(b.subrange(28, 32) =~= le_bytes(m.changeset.len(), 4));
    assert(b.skip(32) =~= changes_bytes(m.changeset));
    let v = m.version;
    assert(((v as u64) as i64) == v) by (bit_vector);
}

/// Decoding gives back what was encoded: a buffer that starts with the
/// frame of an encodable message yields that message and keeps what
/// followed the frame.
pub proof fn lemma_frame_round_trip(m: MessageView, rest: Seq<u8>)
    requires
        payload_of(m).len() + 4 <= MAX_FRAME_LEN,
    ensures
        decode_step(frame_of(payload_of(m)) + rest).0 == rest,
        decode_step(frame_of(payload_of(m)) + rest).1 is Ok,
        decode_step(frame_of(payload_of(m)) + rest).1->Ok_0 == Some(m),
{
    let p = payload_of(m);
    let b = frame_of(p) + rest;
    let n = (p.len() + 4) as u32;
    lemma_changes_bytes_bound(m.changeset);
    lemma_le_bytes_len(0, 4);
    lemma_le_bytes_len(m.actor as nat, 16);
    lemma_le_bytes_len((m.version as u64) as nat, 8);
    lemma_le_bytes_len(m.changeset.len(), 4);
    lemma_pow256_values();
    assert(counts_fit(m));
    lemma_parse_payload_round_trip(m);
    lemma_be4_round_trip(n);
    lemma_be4_round_trip(crc32_of(p));
    assert(b[0] == be4(n)[0] && b[1] == be4(n)[1] && b[2] == be4(n)[2] && b[3] == be4(n)[3]);
    let body = b.subrange(4, 4 + n);
    assert(body =~= p + be4(crc32_of(p)));
    assert(body.subrange(0, body.len() - 4) =~= p);
    assert(b.skip(4 + n) =~= rest);
}

impl Message {
    /// The length of the payload, where the frame stays within
    /// [`MAX_FRAME_LEN`].
    fn payload_len(&self) -> (r: Option<usize>)
        ensures
            match r {
                Some(n) => n == payload_of(self@).len() && n + 4 <= MAX_FRAME_LEN && counts_fit(self@),
                None => payload_of(self@).len() + 4 > MAX_FRAME_LEN,
            },
    {
        let changeset = match self {
            Message::V1(MessageV1::Change { changeset, .. }) => changeset,
        };
        let ghost cs = self@.changeset;
        proof {
            lemma_le_bytes_len(0, 4);
            lemma_le_bytes_len(self@.actor as nat, 16);
            lemma_le_bytes_len((self@.version as u64) as nat, 8);
            lemma_le_bytes_len(cs.len(), 4);
            lemma_pow256_values();
            assert(cs.skip(0) =~= cs);
        }
        let mut total: usize = 32;
        let mut i: usize = 0;
        while i < changeset.len()
            invariant
                cs == changes_view(changeset@),
                i <= changeset@.len(),
                total <= MAX_FRAME_LEN,
                total + changes_bytes(cs.skip(i as int)).len() == payload_of(self@).len(),
                4 * i <= total,
                forall|j: int| 0 <= j < i ==> #[trigger] cs[j].len() <= total,
            decreases changeset@.len() - i,
        {
            proof {
                lemma_changes_bytes_step(cs, i as int);
                lemma_le_bytes_len(cs[i as int].len(), 4);
            }
            let n = changeset[i].data.len();
            if n > MAX_FRAME_LEN - total || 4 > MAX_FRAME_LEN - total - n {
                return None;
            }
            total = total + 4 + n;
            i = i + 1;
        }
        if total > MAX_FRAME_LEN - 4 {
            return None;
        }
        proof {
            assert(cs.skip(cs.len() as int) =~= Seq::<Seq<u8>>::empty());
        }
        Some(total)
    }

    /// Appends the frame of the message to `buf`: its length, its payload
    /// and the CRC-32 of the payload. Fails, leaving `buf` as it was, where
    /// the frame body would exceed [`MAX_FRAME_LEN`].
    pub fn encode(&self, buf: &mut Vec<u8>) -> (r: Result<(), MessageEncodeError>)
        ensures
            payload_of(self@).len() + 4 <= MAX_FRAME_LEN ==> r is Ok && final(buf)@ == old(buf)@ + frame_of(payload_of(self@)),
            payload_of(self@).len() + 4 > MAX_FRAME_LEN ==> r == Err::<(), MessageEncodeError>(MessageEncodeError::FrameTooLarge) && final(buf)@ == old(buf)@,
    {
        match self.payload_len() {
            None => Err(MessageEncodeError::FrameTooLarge),
            Some(n) => {
                let mut payload: Vec<u8> = Vec::new();
                self.write_payload(&mut payload);
                let crc = crc32(payload.as_slice());
                let ghost start = buf@;
                write_be4(buf, (n + 4) as u32);
                buf.append(&mut payload);
                write_be4(buf, crc);
                assert(buf@ =~= start + frame_of(payload_of(self@)));
                Ok(())
            },
        }
    }

    /// The message whose payload is exactly `slice`.
    pub fn from_slice(slice: &[u8]) -> (r: Result<Message, MessageDecodeError>)
        ensures
            r matches Ok(m) ==> parse_payload(slice@) == Some(m@),
            r matches Err(e) ==> parse_payload(slice@) is None && e == MessageDecodeError::Decode,
    {
        let len = slice.len();
        if len < 32 {
            return Err(MessageDecodeError::Decode);
        }
        let tag = read_le(slice, 0, 4);
        if tag != 0 {
            return Err(MessageDecodeError::Decode);
        }
        let actor = read_le(slice, 4, 16);
        let raw_version = read_le(slice, 20, 8);
        let version_bits: u64 = #[verifier::truncate] (raw_version as u64);
        let version: i64 = #[verifier::truncate] (version_bits as i64);
        let count = read_le(slice, 28, 4);
        let ghost b = slice@;
        let ghost total = parse_changes(b.skip(32), count as nat);
        let mut changes: Vec<Change> = Vec::new();
        let mut pos: usize = 32;
        let mut i: u128 = 0;
        while i < count
            invariant
                len == b.len(),
                b == slice@,
                32 <= pos <= len,
                i <= count,
                total == parse_changes(b.skip(32), count as nat),
                le_value(b.subrange(0, 4)) == 0,
                count as nat == le_value(b.subrange(28, 32)),
                actor as nat == le_value(b.subrange(4, 20)),
                version == (le_value(b.subrange(20, 28)) as u64) as i64,
                total == prepend(changes_view(changes@), parse_changes(b.skip(pos as int), (count - i) as nat)),
            decreases count - i,
        {
            let ghost rest = b.skip(pos as int);
            let ghost acc = changes_view(changes@);
            if len - pos < 4 {
                assert(parse_changes(rest, (count - i) as nat) is None);
                return Err(MessageDecodeError::Decode);
            }
            let l = read_le(slice, pos, 4);
            assert(rest.subrange(0, 4) =~= b.subrange(pos as int, pos + 4));
            if ((len - pos - 4) as u128) < l {
                assert(parse_changes(rest, (count - i) as nat) is None);
                return Err(MessageDecodeError::Decode);
            }
            let l = l as usize;
            let data = copy_range(slice, pos + 4, pos + 4 + l);
            assert(rest.subrange(4, 4 + l) =~= data@);
            assert(rest.skip(4 + l) =~= b.skip(pos + 4 + l));
            changes.push(Change { data });
            assert(changes_view(changes@) =~= acc + seq![data@]);
            pos = pos + 4 + l;
            i = i + 1;
            proof {
                let next = parse_changes(b.skip(pos as int), (count - i) as nat);
                match next {
                    Some(tail) => {
                        assert(acc + (seq![data@] + tail) =~= (acc + seq![data@]) + tail);
                    },
                    None => {},
                }
            }
        }
        if pos != len {
            return Err(MessageDecodeError::Decode);
        }
        proof {
            assert(b.skip(pos as int) =~= Seq::<u8>::empty());
            assert(changes_view(changes@) + Seq::<Seq<u8>>::empty() =~= changes_view(changes@));
        }
        Ok(Message::V1(MessageV1::Change { actor_id: ActorId(actor), version, changeset: changes }))
    }

    /// The message held by one frame body: the payload followed by its
    /// CRC-32 in four big-endian bytes.
    pub fn from_buf(buf: &[u8]) -> (r: Result<Message, MessageDecodeError>)
        ensures
            r matches Ok(m) ==> unframe(buf@) is Ok && unframe(buf@)->Ok_0 == m@,
            r matches Err(e) ==> unframe(buf@) is Err && unframe(buf@)->Err_0 == e,
    {
        let len = buf.len();
        if len < 4 {
            return Err(MessageDecodeError::Decode);
        }
        let payload = slice_subrange(buf, 0, len - 4);
        let got = read_be4(buf, len - 4);
        let expected = crc32(payload);
        if got != expected {
            return Err(MessageDecodeError::Corrupted(got, expected));
        }
        match Message::from_slice(payload) {
            Ok(m) => Ok(m),
            Err(e) => Err(e),
        }
    }

    /// Takes one frame from the front of `buf` and reads its message.
    /// Returns `None`, leaving `buf` as it was, while the frame is not all
    /// there; a frame that is all there leaves `buf` whatever its outcome.
    pub fn decode(buf: &mut Vec<u8>) -> (r: Result<Option<Message>, MessageDecodeError>)
        ensures
            final(buf)@ == decode_step(old(buf)@).0,
            r matches Ok(Some(m)) ==> decode_step(old(buf)@).1 is Ok && decode_step(old(buf)@).1->Ok_0 == Some(m@),
            r matches Ok(None) ==> decode_step(old(buf)@).1 is Ok && decode_step(old(buf)@).1->Ok_0 is None,
            r matches Err(e) ==> decode_step(old(buf)@).1 is Err && decode_step(old(buf)@).1->Err_0 == e,
    {
        let len = buf.len();
        if len < 4 {
            return Ok(None);
        }
        let n = read_be4(buf.as_slice(), 0);
        if n as usize > MAX_FRAME_LEN {
            return Err(MessageDecodeError::FrameTooLarge(n));
        }
        let size = n as usize;
        if len - 4 < size {
            return Ok(None);
        }
        let frame = copy_range(buf.as_slice(), 4, 4 + size);
        let rest = copy_range(buf.as_slice(), 4 + size, len);
        assert(rest@ =~= old(buf)@.skip(4 + size));
        *buf = rest;
        match Message::from_buf(frame.as_slice()) {
            Ok(m) => Ok(Some(m)),
            Err(e) => Err(e),
        }
    }

    /// Appends the payload of the message to `out`.
    fn write_payload(&self, out: &mut Vec<u8>)
        requires
            counts_fit(self@),
        ensures
            final(out)@ == old(out)@ + payload_of(self@),
    {
        let (actor_id, version, changeset) = match self {
            Message::V1(MessageV1::Change { actor_id, version, changeset }) => (actor_id, version, changeset),
        };
        let ghost cs = self@.changeset;
        proof {
            lemma_pow256_values();
            assert(cs.skip(0) =~= cs);
        }
        write_le(out, 0, 4);
        write_le(out, actor_id.0, 16);
        write_le(out, (*version as u64) as u128, 8);
        write_le(out, changeset.len() as u128, 4);
        let ghost head = out@;
        assert(head =~= old(out)@ + header_of(self@));
        let mut i: usize = 0;
        while i < changeset.len()
            invariant
                cs == changes_view(changeset@),
                cs == self@.changeset,
                counts_fit(self@),
                i <= changeset@.len(),
                out@ + changes_bytes(cs.skip(i as int)) == head + changes_bytes(cs),
            decreases changeset@.len() - i,
        {
            proof {
                lemma_changes_bytes_step(cs, i as int);
            }
            let ghost before = out@;
            let data = &changeset[i].data;
            assert(data@ == cs[i as int]);
            assert(cs[i as int].len() < pow256(4));
            write_le(out, data.len() as u128, 4);
            let mut copy = data.clone();
            out.append(&mut copy);
            assert(out@ + changes_bytes(cs.skip(i + 1)) =~= before + changes_bytes(cs.skip(i as int)));
            i = i + 1;
        }
        proof {
            assert(cs.skip(cs.len() as int) =~= Seq::<Seq<u8>>::empty());
            assert(out@ + Seq::<u8>::empty() =~= out@);
            assert(out@ =~= old(out)@ + payload_of(self@));
        }
    }
}

} // verus!
