//! The streaming frame decoder: a byte-at-a-time state machine that
//! accumulates arbitrarily chunked input into a staging buffer, recognizes
//! frame boundaries from the self-describing length field, and emits every
//! packet whose frame completes and decodes.
//!
//! The behaviour of the state machine is captured by the specification
//! functions [`step_state`] / [`step_out`] (one input byte) and
//! [`run_state`] / [`run_out`] (a whole chunk); [`GaiaParser::push_bytes`]
//! is proved to follow them exactly.

use vstd::prelude::*;
use crate::packet::checksum_len;
use crate::packet::frame_ok;
use crate::packet::parse_gaia_packet;
use crate::packet::parse_model;
use crate::packet::GaiaPacketEvent;
use crate::packet::PacketModel;

verus! {

/// Capacity of the staging buffer: enough for the largest possible frame
/// (8 header bytes, up to 254 payload bytes, up to 1 checksum byte),
/// rounded up.
pub const BUFFER_CAPACITY: usize = 270;

/// The value `expected` holds while the length byte of the current frame
/// has not arrived yet: larger than any staged prefix it is compared to.
pub const LENGTH_UNKNOWN: usize = 254;

/// The mathematical state of the decoder: the bytes staged so far for the
/// frame in progress (empty while scanning for a sync byte), the total
/// frame length once the length byte has arrived, and the flags byte
/// staged so far.
#[verifier::ext_equal]
pub struct DecoderModel {
    /// Bytes of the frame in progress, in arrival order.
    pub staged: Seq<u8>,
    /// Total length the current frame will have, once known.
    pub expected: int,
    /// Flags byte of the frame in progress, once staged.
    pub flags: u8,
}

/// States from which the decoder accepts a new frame: nothing is staged.
pub open spec fn is_idle(s: DecoderModel) -> bool {
    s.staged.len() == 0
}

/// Well-formedness of a decoder state: the staging buffer is within
/// capacity, and `expected` is never below the minimum frame length, so
/// a stale value can never cut a fresh frame short.
pub open spec fn model_wf(s: DecoderModel) -> bool {
    &&& s.staged.len() <= BUFFER_CAPACITY
    &&& s.expected >= 8
}

/// The decoder state after consuming one byte `b` in state `s`.
///
/// While a frame is staged and fits the buffer, the byte is appended: the
/// third staged byte is remembered as the flags byte, the fourth fixes the
/// total frame length (aborting the frame if that length cannot be
/// represented), and a frame that reaches its total length is emitted and
/// the state reset. While idle, only a sync byte (`0xFF`) starts a frame.
pub open spec fn step_state(s: DecoderModel, b: u8) -> DecoderModel {
    if s.staged.len() > 0 && s.staged.len() < BUFFER_CAPACITY {
        if s.staged.len() == 3 && (b as int) + 8 + checksum_len(s.flags) > BUFFER_CAPACITY {
            DecoderModel { staged: Seq::empty(), expected: LENGTH_UNKNOWN as int, flags: s.flags }
        } else {
            let staged = s.staged.push(b);
            let flags = if s.staged.len() == 2 {
                b
            } else {
                s.flags
            };
            let expected = if s.staged.len() == 3 {
                (b as int) + 8 + checksum_len(s.flags)
            } else {
                s.expected
            };
            if staged.len() == expected {
                DecoderModel { staged: Seq::empty(), expected: LENGTH_UNKNOWN as int, flags }
            } else {
                DecoderModel { staged, expected, flags }
            }
        }
    } else if b == 0xFF {
        DecoderModel { staged: seq![0xFFu8], expected: s.expected, flags: s.flags }
    } else {
        s
    }
}

/// The packets emitted while consuming one byte `b` in state `s`: one
/// packet exactly when the byte completes a frame that decodes.
pub open spec fn step_out(s: DecoderModel, b: u8) -> Seq<PacketModel> {
    if s.staged.len() > 0 && s.staged.len() < BUFFER_CAPACITY {
        if s.staged.len() == 3 && (b as int) + 8 + checksum_len(s.flags) > BUFFER_CAPACITY {
            Seq::empty()
        } else {
            let staged = s.staged.push(b);
            let expected = if s.staged.len() == 3 {
                (b as int) + 8 + checksum_len(s.flags)
            } else {
                s.expected
            };
            if staged.len() == expected && frame_ok(staged) {
                seq![parse_model(staged)]
            } else {
                Seq::empty()
            }
        }
    } else {
        Seq::empty()
    }
}

/// The decoder state after consuming the bytes `bs`, in order, in state `s`.
pub open spec fn run_state(s: DecoderModel, bs: Seq<u8>) -> DecoderModel
    decreases bs.len(),
{
    if bs.len() == 0 {
        s
    } else {
        run_state(step_state(s, bs.first()), bs.drop_first())
    }
}

/// The packets emitted while consuming the bytes `bs`, in order, in state
/// `s`: the packets of every frame that completes and decodes, in the
/// order the frames complete.
pub open spec fn run_out(s: DecoderModel, bs: Seq<u8>) -> Seq<PacketModel>
    decreases bs.len(),
{
    if bs.len() == 0 {
        Seq::empty()
    } else {
        step_out(s, bs.first()) + run_out(step_state(s, bs.first()), bs.drop_first())
    }
}

/// The models of a sequence of decoded packets.
pub open spec fn views_of(ps: Seq<GaiaPacketEvent>) -> Seq<PacketModel> {
    ps.map_values(|p: GaiaPacketEvent| p@)
}

/// One byte of input extends a run by one step.
pub proof fn lemma_run_snoc(s: DecoderModel, bs: Seq<u8>, b: u8)
    ensures
        run_state(s, bs.push(b)) == step_state(run_state(s, bs), b),
        run_out(s, bs.push(b)) == run_out(s, bs) + step_out(run_state(s, bs), b),
    decreases bs.len(),
{
    if bs.len() == 0 {
        reveal_with_fuel(run_state, 2);
        reveal_with_fuel(run_out, 2);
        assert(bs.push(b).first() == b);
        assert(bs.push(b).drop_first() =~= Seq::<u8>::empty());
        assert(run_state(s, bs.push(b)) == step_state(s, b));
        assert(run_out(s, bs.push(b)) =~= run_out(s, bs) + step_out(run_state(s, bs), b));
    } else {
        assert(bs.push(b).first() == bs.first());
        assert(bs.push(b).drop_first() =~= bs.drop_first().push(b));
        lemma_run_snoc(step_state(s, bs.first()), bs.drop_first(), b);
        assert(run_out(s, bs.push(b)) =~= run_out(s, bs) + step_out(run_state(s, bs), b));
    }
}

/// One step preserves well-formedness.
pub proof fn lemma_step_wf(s: DecoderModel, b: u8)
    requires
        model_wf(s),
    ensures
        model_wf(step_state(s, b)),
{
}

/// A run preserves well-formedness.
pub proof fn lemma_run_wf(s: DecoderModel, bs: Seq<u8>)
    requires
        model_wf(s),
    ensures
        model_wf(run_state(s, bs)),
    decreases bs.len(),
{
    if bs.len() > 0 {
        lemma_step_wf(s, bs.first());
        lemma_run_wf(step_state(s, bs.first()), bs.drop_first());
    }
}

/// The streaming decoder for one byte stream. It owns the staging buffer
/// for the frame in progress and must be fed the stream's bytes in order;
/// each independent stream needs its own instance.
pub struct GaiaParser {
    packet: [u8; BUFFER_CAPACITY],
    packet_length: usize,
    expected: usize,
    flags: u8,
}

impl View for GaiaParser {
    type V = DecoderModel;

    closed spec fn view(&self) -> DecoderModel {
        DecoderModel {
            staged: self.packet@.take(self.packet_length as int),
            expected: self.expected as int,
            flags: self.flags,
        }
    }
}

impl GaiaParser {
    /// Validity of the decoder's own representation.
    pub closed spec fn wf(&self) -> bool {
        &&& self.packet_length <= BUFFER_CAPACITY
        &&& self.expected >= 8
    }

    /// A fresh decoder: idle, scanning for a sync byte.
    pub fn new() -> (parser: Self)
        ensures
            parser.wf(),
            is_idle(parser@),
            model_wf(parser@),
            parser@ == (DecoderModel {
                staged: Seq::<u8>::empty(),
                expected: LENGTH_UNKNOWN as int,
                flags: 0,
            }),
    {
        let parser = Self {
            packet: [0u8; BUFFER_CAPACITY],
            packet_length: 0,
            expected: LENGTH_UNKNOWN,
            flags: 0,
        };
        proof {
            assert(parser@.staged =~= Seq::<u8>::empty());
        }
        parser
    }

    /// Consumes one chunk of the byte stream and returns the packets of
    /// every frame that completed and decoded within it, in order. The
    /// chunk may cut frames anywhere; an unfinished frame stays staged
    /// for the next call.
    pub fn push_bytes(&mut self, data: &[u8]) -> (r: Vec<GaiaPacketEvent>)
        requires
            old(self).wf(),
        ensures
            final(self).wf(),
            final(self)@ == run_state(old(self)@, data@),
            views_of(r@) == run_out(old(self)@, data@),
    {
        let ghost s0 = self@;
        let mut packets: Vec<GaiaPacketEvent> = Vec::new();
        proof {
            assert(data@.take(0) =~= Seq::<u8>::empty());
            assert(views_of(packets@) =~= run_out(s0, data@.take(0)));
        }
        let mut i: usize = 0;
        while i < data.len()
            invariant
                i <= data@.len(),
                self.wf(),
                self@ == run_state(s0, data@.take(i as int)),
                views_of(packets@) == run_out(s0, data@.take(i as int)),
            decreases data@.len() - i,
        {
            let byte = data[i];
            let ghost pre = self@;
            proof {
                lemma_run_snoc(s0, data@.take(i as int), byte);
                assert(data@.take(i as int).push(byte) =~= data@.take(i + 1));
                assert(pre.staged.len() == self.packet_length);
            }
            if self.packet_length > 0 && self.packet_length < BUFFER_CAPACITY {
                self.packet[self.packet_length] = byte;
                proof {
                    assert(self.packet@.take(self.packet_length + 1) =~= pre.staged.push(byte));
                }
                if self.packet_length == 2 {
                    self.flags = byte;
                } else if self.packet_length == 3 {
                    let payload_length = byte as usize;
                    let check_len: usize = if (self.flags & 1) != 0 {
                        1
                    } else {
                        0
                    };
                    self.expected = payload_length + 8 + check_len;
                    if self.expected > BUFFER_CAPACITY {
                        self.packet_length = 0;
                        self.expected = LENGTH_UNKNOWN;
                        proof {
                            assert(self@.staged =~= Seq::<u8>::empty());
                            assert(self@ =~= step_state(pre, byte));
                            assert(views_of(packets@) =~= run_out(s0, data@.take(i + 1)));
                        }
                        i = i + 1;
                        continue;
                    }
                }
                self.packet_length = self.packet_length + 1;
                if self.packet_length == self.expected {
                    proof {
                        assert(self@.staged == pre.staged.push(byte));
                    }
                    let complete = parse_gaia_packet(&self.packet[0..self.packet_length]);
                    if let Some(packet) = complete {
                        packets.push(packet);
                        proof {
                            assert(views_of(packets@) =~= views_of(packets@.drop_last()).push(
                                packet@,
                            ));
                        }
                    }
                    self.packet_length = 0;
                    self.expected = LENGTH_UNKNOWN;
                    proof {
                        assert(self@.staged =~= Seq::<u8>::empty());
                        assert(self@ =~= step_state(pre, byte));
                        assert(views_of(packets@) =~= run_out(s0, data@.take(i + 1)));
                    }
                } else {
                    proof {
                        assert(self@.staged == pre.staged.push(byte));
                        assert(self@ =~= step_state(pre, byte));
                        assert(views_of(packets@) =~= run_out(s0, data@.take(i + 1)));
                    }
                }
            } else if byte == 0xFF {
                self.packet[0] = 0xFF;
                self.packet_length = 1;
                proof {
                    assert(self@.staged =~= seq![0xFFu8]);
                    assert(self@ =~= step_state(pre, byte));
                    assert(views_of(packets@) =~= run_out(s0, data@.take(i + 1)));
                }
            } else {
                proof {
                    assert(self@ =~= step_state(pre, byte));
                    assert(views_of(packets@) =~= run_out(s0, data@.take(i + 1)));
                }
            }
            i = i + 1;
        }
        proof {
            assert(data@.take(data@.len() as int) =~= data@);
        }
        packets
    }
}

} // verus!
