//! The laws the codec obeys, each stated over the specification model and
//! proved once and for all: encode/decode round trip, chunk invariance of
//! the streaming decoder, in-order delivery of concatenated frames, and
//! recovery after a frame with a bad checksum.

use vstd::prelude::*;
use crate::decoder::is_idle;
use crate::decoder::model_wf;
use crate::decoder::run_out;
use crate::decoder::run_state;
use crate::decoder::step_out;
use crate::decoder::step_state;
use crate::decoder::lemma_run_snoc;
use crate::decoder::DecoderModel;
use crate::encoder::frame_bytes;
use crate::encoder::frame_head;
use crate::packet::be16;
use crate::packet::checksum_len;
use crate::packet::frame_ok;
use crate::packet::parse_model;
use crate::packet::xor_all;
use crate::packet::PacketModel;

verus! {

/// A big-endian 16-bit value is recovered from its two wire bytes.
pub proof fn lemma_be16_split(x: u16)
    by (bit_vector)
    ensures
        be16((x >> 8) as u8, (x & 0xFF) as u8) == x,
{
}

/// Round trip: a frame produced by the encoder decodes, and the decoded
/// packet reproduces the encoded vendor id, command id, payload and flags,
/// with the acknowledgement bit and status byte read off the command id
/// and payload.
pub proof fn lemma_round_trip(vendor_id: u16, command_id: u16, payload: Seq<u8>, flags: u8)
    requires
        payload.len() <= 254,
    ensures
        frame_ok(frame_bytes(vendor_id, command_id, payload, flags)),
        parse_model(frame_bytes(vendor_id, command_id, payload, flags)) == (PacketModel {
            vendor_id,
            command_id,
            command: command_id & 0x7FFF,
            ack: command_id & 0x8000 != 0,
            flags,
            payload,
            status: if command_id & 0x8000 != 0 && payload.len() > 0 {
                Some(payload[0])
            } else {
                None
            },
        }),
{
    let head = frame_head(vendor_id, command_id, payload, flags);
    let d = frame_bytes(vendor_id, command_id, payload, flags);
    assert(head.len() == 8 + payload.len());
    assert(forall|i: int| 0 <= i < head.len() ==> d[i] == head[i]);
    assert(d[3] == payload.len() as u8);
    assert((payload.len() as u8) as int == payload.len() as int);
    assert(d.len() == 8 + (d[3] as int) + checksum_len(d[2]));
    if flags & 1 != 0 {
        assert(d.drop_last() =~= head);
        assert(d.last() == xor_all(head));
    }
    assert(frame_ok(d));
    lemma_be16_split(vendor_id);
    lemma_be16_split(command_id);
    assert(d.subrange(8, 8 + (d[3] as int)) =~= payload);
    assert(parse_model(d).payload == payload);
}

/// Chunk invariance: feeding `a` then `b` leaves the decoder in the same
/// state, and emits the same packets in the same order, as feeding the
/// concatenation `a + b` in one call. Hence how a byte stream is cut into
/// chunks never changes what is decoded.
pub proof fn lemma_run_append(s: DecoderModel, a: Seq<u8>, b: Seq<u8>)
    ensures
        run_state(s, a + b) == run_state(run_state(s, a), b),
        run_out(s, a + b) == run_out(s, a) + run_out(run_state(s, a), b),
    decreases a.len(),
{
    if a.len() == 0 {
        assert(a + b =~= b);
        assert(run_out(s, a) + run_out(run_state(s, a), b) =~= run_out(s, b));
    } else {
        assert((a + b).first() == a.first());
        assert((a + b).drop_first() =~= a.drop_first() + b);
        lemma_run_append(step_state(s, a.first()), a.drop_first(), b);
        assert(run_out(s, a) + run_out(run_state(s, a), b) =~= step_out(s, a.first()) + (run_out(
            step_state(s, a.first()),
            a.drop_first(),
        ) + run_out(run_state(s, a), b)));
    }
}

/// The decoder state after feeding each chunk of `chunks` in its own call.
pub open spec fn run_chunks_state(s: DecoderModel, chunks: Seq<Seq<u8>>) -> DecoderModel
    decreases chunks.len(),
{
    if chunks.len() == 0 {
        s
    } else {
        run_chunks_state(run_state(s, chunks.first()), chunks.drop_first())
    }
}

/// All packets emitted while feeding each chunk of `chunks` in its own
/// call, in order.
pub open spec fn run_chunks_out(s: DecoderModel, chunks: Seq<Seq<u8>>) -> Seq<PacketModel>
    decreases chunks.len(),
{
    if chunks.len() == 0 {
        Seq::empty()
    } else {
        run_out(s, chunks.first()) + run_chunks_out(run_state(s, chunks.first()), chunks.drop_first())
    }
}

/// Chunk invariance for any number of calls: feeding a byte stream one
/// chunk at a time, however it is cut (down to single bytes), leaves the
/// decoder in the same state and emits the same packets in the same order
/// as feeding the whole stream in one call.
pub proof fn lemma_chunk_invariance(s: DecoderModel, chunks: Seq<Seq<u8>>)
    ensures
        run_chunks_state(s, chunks) == run_state(s, chunks.flatten()),
        run_chunks_out(s, chunks) == run_out(s, chunks.flatten()),
    decreases chunks.len(),
{
    if chunks.len() == 0 {
        assert(chunks.flatten() == Seq::<u8>::empty());
    } else {
        let first = chunks.first();
        let rest = chunks.drop_first();
        assert(chunks.flatten() == first + rest.flatten());
        lemma_run_append(s, first, rest.flatten());
        lemma_chunk_invariance(run_state(s, first), rest);
    }
}

/// Whether `d` has the shape of exactly one frame: it opens with the sync
/// byte and is exactly as long as its header, declared payload length and
/// checksum-byte-if-present demand.
pub open spec fn frame_shaped(d: Seq<u8>) -> bool {
    &&& d.len() == 8 + (d[3] as int) + checksum_len(d[2])
    &&& d[0] == 0xFF
}

/// Encoded frames are frame shaped.
pub proof fn lemma_frame_bytes_shaped(vendor_id: u16, command_id: u16, payload: Seq<u8>, flags: u8)
    requires
        payload.len() <= 254,
    ensures
        frame_shaped(frame_bytes(vendor_id, command_id, payload, flags)),
{
    let head = frame_head(vendor_id, command_id, payload, flags);
    let d = frame_bytes(vendor_id, command_id, payload, flags);
    assert(forall|i: int| 0 <= i < head.len() ==> d[i] == head[i]);
    assert((payload.len() as u8) as int == payload.len() as int);
}

/// While one frame is being staged, no packet is emitted and the staged
/// prefix grows byte for byte.
proof fn lemma_feed_frame_prefix(s: DecoderModel, d: Seq<u8>, k: int)
    requires
        model_wf(s),
        is_idle(s),
        frame_shaped(d),
        1 <= k < d.len(),
    ensures
        run_state(s, d.take(k)) == (DecoderModel {
            staged: d.take(k),
            expected: if k <= 3 {
                s.expected
            } else {
                d.len() as int
            },
            flags: if k <= 2 {
                s.flags
            } else {
                d[2]
            },
        }),
        run_out(s, d.take(k)) == Seq::<PacketModel>::empty(),
    decreases k,
{
    if k == 1 {
        lemma_run_snoc(s, d.take(0), d[0]);
        assert(d.take(0) =~= Seq::<u8>::empty());
        assert(d.take(0).push(d[0]) =~= d.take(1));
        assert(run_state(s, d.take(0)) == s);
        assert(run_out(s, d.take(0)) == Seq::<PacketModel>::empty());
        assert(step_state(s, d[0]).staged =~= d.take(1));
        assert(run_out(s, d.take(1)) =~= Seq::<PacketModel>::empty());
        assert(run_state(s, d.take(1)) =~= (DecoderModel {
            staged: d.take(1),
            expected: s.expected,
            flags: s.flags,
        }));
    } else {
        lemma_feed_frame_prefix(s, d, k - 1);
        lemma_run_snoc(s, d.take(k - 1), d[k - 1]);
        assert(d.take(k - 1).push(d[k - 1]) =~= d.take(k));
        let mid = run_state(s, d.take(k - 1));
        assert(mid.staged.len() == k - 1);
        assert(step_state(mid, d[k - 1]).staged =~= d.take(k));
        assert(run_state(s, d.take(k)) =~= (DecoderModel {
            staged: d.take(k),
            expected: if k <= 3 {
                s.expected
            } else {
                d.len() as int
            },
            flags: if k <= 2 {
                s.flags
            } else {
                d[2]
            },
        }));
        assert(run_out(s, d.take(k)) =~= Seq::<PacketModel>::empty());
    }
}

/// Feeding exactly one frame-shaped byte sequence to an idle decoder
/// leaves it idle again, and emits exactly the frame's packet when the
/// frame decodes, and nothing when it does not (a bad checksum never
/// desynchronizes the stream).
pub proof fn lemma_feed_frame(s: DecoderModel, d: Seq<u8>)
    requires
        model_wf(s),
        is_idle(s),
        frame_shaped(d),
    ensures
        is_idle(run_state(s, d)),
        model_wf(run_state(s, d)),
        run_out(s, d) == if frame_ok(d) {
            seq![parse_model(d)]
        } else {
            Seq::<PacketModel>::empty()
        },
{
    let n = d.len() as int;
    assert(n >= 8);
    lemma_feed_frame_prefix(s, d, n - 1);
    lemma_run_snoc(s, d.take(n - 1), d[n - 1]);
    assert(d.take(n - 1).push(d[n - 1]) =~= d.take(n));
    assert(d.take(n) =~= d);
    let mid = run_state(s, d.take(n - 1));
    assert(mid.staged.len() == n - 1);
    assert(mid.staged.push(d[n - 1]) =~= d);
    assert(is_idle(step_state(mid, d[n - 1])));
    if frame_ok(d) {
        assert(run_out(s, d) =~= seq![parse_model(d)]);
    } else {
        assert(run_out(s, d) =~= Seq::<PacketModel>::empty());
    }
}

/// In-order delivery: feeding the concatenation of any number of valid
/// frames to an idle decoder emits exactly one packet per frame, in the
/// order the frames appear.
pub proof fn lemma_feed_frames(s: DecoderModel, frames: Seq<Seq<u8>>)
    requires
        model_wf(s),
        is_idle(s),
        forall|i: int| 0 <= i < frames.len() ==> frame_shaped(#[trigger] frames[i]),
        forall|i: int| 0 <= i < frames.len() ==> frame_ok(#[trigger] frames[i]),
    ensures
        is_idle(run_state(s, frames.flatten())),
        model_wf(run_state(s, frames.flatten())),
        run_out(s, frames.flatten()) == frames.map_values(|d: Seq<u8>| parse_model(d)),
    decreases frames.len(),
{
    let outs = frames.map_values(|d: Seq<u8>| parse_model(d));
    if frames.len() == 0 {
        assert(frames.flatten() == Seq::<u8>::empty());
        assert(run_out(s, frames.flatten()) =~= outs);
    } else {
        let first = frames.first();
        let rest = frames.drop_first();
        assert(frames.flatten() == first + rest.flatten());
        lemma_run_append(s, first, rest.flatten());
        lemma_feed_frame(s, first);
        let s1 = run_state(s, first);
        lemma_feed_frames(s1, rest);
        assert(run_out(s, frames.flatten()) =~= seq![parse_model(first)] + rest.map_values(
            |d: Seq<u8>| parse_model(d),
        ));
        assert(outs =~= seq![parse_model(first)] + rest.map_values(|d: Seq<u8>| parse_model(d)));
    }
}

/// A frame whose checksum flag is set but whose final byte is not the
/// exclusive-or of the bytes before it emits no packet, and the frames
/// after it are decoded as if it had never been sent.
pub proof fn lemma_corrupt_checksum_recovery(s: DecoderModel, bad: Seq<u8>, good: Seq<u8>)
    requires
        model_wf(s),
        is_idle(s),
        frame_shaped(bad),
        bad[2] & 1 != 0,
        bad.last() != xor_all(bad.drop_last()),
        frame_shaped(good),
        frame_ok(good),
    ensures
        is_idle(run_state(s, bad + good)),
        run_out(s, bad + good) == seq![parse_model(good)],
{
    assert(!frame_ok(bad));
    lemma_run_append(s, bad, good);
    lemma_feed_frame(s, bad);
    let s1 = run_state(s, bad);
    lemma_feed_frame(s1, good);
    assert(run_out(s, bad + good) =~= seq![parse_model(good)]);
}

/// A sync byte inside a payload is ordinary data: the encoded frame of a
/// payload containing `0xFF` still decodes to exactly that payload, with
/// the `0xFF` preserved at its position.
pub proof fn lemma_sync_byte_in_payload(
    s: DecoderModel,
    vendor_id: u16,
    command_id: u16,
    payload: Seq<u8>,
    flags: u8,
    j: int,
)
    requires
        model_wf(s),
        is_idle(s),
        payload.len() <= 254,
        0 <= j < payload.len(),
        payload[j] == 0xFF,
    ensures
        run_out(s, frame_bytes(vendor_id, command_id, payload, flags)) == seq![
            parse_model(frame_bytes(vendor_id, command_id, payload, flags)),
        ],
        parse_model(frame_bytes(vendor_id, command_id, payload, flags)).payload == payload,
        parse_model(frame_bytes(vendor_id, command_id, payload, flags)).payload[j] == 0xFF,
{
    lemma_round_trip(vendor_id, command_id, payload, flags);
    lemma_frame_bytes_shaped(vendor_id, command_id, payload, flags);
    lemma_feed_frame(s, frame_bytes(vendor_id, command_id, payload, flags));
}

} // verus!
