use vstd::prelude::*;

use crate::frame::{Payload, FRAME_LEN};

verus! {

/// Line level while the carrier is on.
pub const HIGH: u32 = 1;

/// Line level while the carrier is off.
pub const LOW: u32 = 0;

/// Nominal durations of the protocol, in microseconds.
pub const HDR_MARK: u64 = 3400;
pub const HDR_SPACE: u64 = 1750;
pub const BIT_MARK: u64 = 340;
pub const ONE_SPACE: u64 = 1300;
pub const ZERO_SPACE: u64 = 420;
pub const RPT_MARK: u64 = 440;
pub const RPT_SPACE: u64 = 17100;

/// Number of pulses for one byte: a mark and a space for each bit.
pub const PULSES_PER_BYTE: usize = 16;

/// Number of pulses in a whole transmission: two copies of header and
/// frame, with the repeat marker between them.
pub const TRAIN_LEN: usize = 582;

/// One level held on the line for a nominal time.
#[derive(Clone, Copy, Debug, PartialEq, Eq, Structural)]
pub struct Pulse {
    pub level: u32,
    pub micros: u64,
}

pub open spec fn mark(d: u64) -> Pulse {
    Pulse { level: HIGH, micros: d }
}

pub open spec fn space(d: u64) -> Pulse {
    Pulse { level: LOW, micros: d }
}

/// Bit `i` of `b`, counting from the least significant.
pub open spec fn bit_of(b: u8, i: int) -> bool {
    (b >> (i as u8)) & 1u8 == 1u8
}

/// The space that follows the mark of one bit.
pub open spec fn bit_space(one: bool) -> Pulse {
    space(if one { ONE_SPACE } else { ZERO_SPACE })
}

/// The pulses of one byte, least significant bit first.
pub open spec fn byte_pulses(b: u8) -> Seq<Pulse> {
    Seq::new(
        PULSES_PER_BYTE as nat,
        |j: int| if j % 2 == 0 { mark(BIT_MARK) } else { bit_space(bit_of(b, j / 2)) },
    )
}

/// The pulses of a run of bytes, in order.
pub open spec fn frame_pulses(s: Seq<u8>) -> Seq<Pulse>
    decreases s.len(),
{
    if s.len() == 0 {
        Seq::empty()
    } else {
        frame_pulses(s.drop_last()) + byte_pulses(s.last())
    }
}

pub open spec fn header() -> Seq<Pulse> {
    seq![mark(HDR_MARK), space(HDR_SPACE)]
}

pub open spec fn repeat_marker() -> Seq<Pulse> {
    seq![mark(RPT_MARK), space(RPT_SPACE)]
}

/// One copy of a frame on the line: the header, then the frame's bits.
pub open spec fn frame_copy(s: Seq<u8>) -> Seq<Pulse> {
    header() + frame_pulses(s)
}

/// The whole transmission of a frame: it is sent twice, with the repeat
/// marker between the two copies.
pub open spec fn waveform(s: Seq<u8>) -> Seq<Pulse> {
    frame_copy(s) + repeat_marker() + frame_copy(s)
}

/// The pulses of a run of bytes are sixteen per byte, each byte's in its
/// own slot.
pub proof fn lemma_frame_pulses_index(s: Seq<u8>)
    ensures
        frame_pulses(s).len() == PULSES_PER_BYTE * s.len(),
        forall|p: int|
            0 <= p < PULSES_PER_BYTE * s.len() ==> #[trigger] frame_pulses(s)[p]
                == byte_pulses(s[p / 16])[p % 16],
    decreases s.len(),
{
    if s.len() > 0 {
        let t = s.drop_last();
        lemma_frame_pulses_index(t);
        assert forall|p: int| 0 <= p < PULSES_PER_BYTE * s.len() implies #[trigger] frame_pulses(s)[p]
            == byte_pulses(s[p / 16])[p % 16] by {
            let n = t.len() as int;
            if p < 16 * n {
                assert(p / 16 < n) by (nonlinear_arith)
                    requires 0 <= p < 16 * n;
                assert(t[p / 16] == s[p / 16]);
            } else {
                assert(p / 16 == n && p % 16 == p - 16 * n) by (nonlinear_arith)
                    requires 16 * n <= p < 16 * n + 16;
            }
        }
    }
}

/// Appends the pulses of one byte.
pub fn push_byte(out: &mut Vec<Pulse>, byte: u8)
    ensures
        final(out)@ == old(out)@ + byte_pulses(byte),
{
    let ghost start = out@;
    let mut i: u8 = 0;
    while i < 8
        invariant
            i <= 8,
            out@.len() == start.len() + 2 * i,
            out@.subrange(0, start.len() as int) == start,
            forall|j: int| 0 <= j < 2 * i ==> out@[start.len() + j] == byte_pulses(byte)[j],
        decreases 8 - i,
    {
        out.push(Pulse { level: HIGH, micros: BIT_MARK });
        let one = (byte >> i) & 1 == 1;
        let gap = if one { ONE_SPACE } else { ZERO_SPACE };
        out.push(Pulse { level: LOW, micros: gap });
        proof {
            assert((2 * i as int) % 2 == 0 && (2 * i as int) / 2 == i as int);
            assert((2 * i as int + 1) % 2 == 1 && (2 * i as int + 1) / 2 == i as int);
        }
        i = i + 1;
        assert(out@.subrange(0, start.len() as int) =~= start);
    }
    assert(out@ =~= start + byte_pulses(byte));
}

/// Appends the pulses of a run of bytes, in order.
pub fn push_frame(out: &mut Vec<Pulse>, msg: &[u8])
    ensures
        final(out)@ == old(out)@ + frame_pulses(msg@),
{
    let ghost start = out@;
    let mut i: usize = 0;
    while i < msg.len()
        invariant
            i <= msg@.len(),
            out@ == start + frame_pulses(msg@.subrange(0, i as int)),
        decreases msg@.len() - i,
    {
        push_byte(out, msg[i]);
        proof {
            let prev = msg@.subrange(0, i as int);
            let next = msg@.subrange(0, i + 1);
            assert(next.drop_last() =~= prev);
            assert(start + frame_pulses(prev) + byte_pulses(msg@[i as int])
                =~= start + frame_pulses(next));
        }
        i = i + 1;
    }
    assert(msg@.subrange(0, i as int) =~= msg@);
}

/// Appends one copy of a frame: header, then its bits.
fn push_copy(out: &mut Vec<Pulse>, msg: &[u8])
    ensures
        final(out)@ == old(out)@ + frame_copy(msg@),
{
    let ghost start = out@;
    out.push(Pulse { level: HIGH, micros: HDR_MARK });
    out.push(Pulse { level: LOW, micros: HDR_SPACE });
    assert(out@ =~= start + header());
    push_frame(out, msg);
    assert(out@ =~= start + frame_copy(msg@));
}

/// The pulses that carry a payload, in the order they go on the line.
pub fn pulse_train(payload: &Payload) -> (r: Vec<Pulse>)
    ensures
        r@ == waveform(payload@),
{
    let msg = payload.as_bytes();
    let mut out: Vec<Pulse> = Vec::new();
    push_copy(&mut out, msg);
    out.push(Pulse { level: HIGH, micros: RPT_MARK });
    out.push(Pulse { level: LOW, micros: RPT_SPACE });
    assert(out@ =~= frame_copy(msg@) + repeat_marker());
    push_copy(&mut out, msg);
    out
}

/// Shape of a transmission of a frame: a header, a mark and a space for
/// each of the 144 bits (least significant bit of each byte first, a long
/// space for a one and a short one for a zero), the repeat marker, then the
/// header and the same 144 bit pairs again: 291 mark and space pairs.
pub proof fn lemma_waveform_shape(s: Seq<u8>)
    requires
        s.len() == FRAME_LEN,
    ensures
        waveform(s).len() == TRAIN_LEN,
        waveform(s)[0] == mark(HDR_MARK),
        waveform(s)[1] == space(HDR_SPACE),
        forall|p: int|
            2 <= p < 290 ==> #[trigger] waveform(s)[p] == if (p - 2) % 2 == 0 {
                mark(BIT_MARK)
            } else {
                bit_space(bit_of(s[(p - 2) / 16], ((p - 2) % 16) / 2))
            },
        waveform(s)[290] == mark(RPT_MARK),
        waveform(s)[291] == space(RPT_SPACE),
        forall|p: int| 292 <= p < TRAIN_LEN ==> #[trigger] waveform(s)[p] == waveform(s)[p - 292],
        forall|p: int| 0 <= p < TRAIN_LEN ==> (#[trigger] waveform(s)[p]).level == if p % 2 == 0 {
            HIGH
        } else {
            LOW
        },
{
    lemma_frame_pulses_index(s);
    let w = waveform(s);
    let c = frame_copy(s);
    assert(c.len() == 290);
    assert forall|p: int| 2 <= p < 290 implies #[trigger] w[p] == if (p - 2) % 2 == 0 {
        mark(BIT_MARK)
    } else {
        bit_space(bit_of(s[(p - 2) / 16], ((p - 2) % 16) / 2))
    } by {
        assert(w[p] == frame_pulses(s)[p - 2]);
        assert(((p - 2) % 16) % 2 == (p - 2) % 2);
    }
    assert forall|p: int| 292 <= p < TRAIN_LEN implies #[trigger] w[p] == w[p - 292] by {
        assert(w[p] == c[p - 292]);
    }
    assert forall|p: int| 0 <= p < TRAIN_LEN implies (#[trigger] w[p]).level == if p % 2 == 0 {
        HIGH
    } else {
        LOW
    } by {
        let q = if p >= 292 { p - 292 } else { p };
        if 2 <= q < 290 {
            assert(((q - 2) % 16) % 2 == (q - 2) % 2);
            assert(w[q] == frame_pulses(s)[q - 2]);
        }
        if p >= 292 {
            assert(w[p] == c[q]);
        }
    }
}

/// The two copies of the frame within one transmission are identical,
/// header included.
pub proof fn lemma_copies_identical(s: Seq<u8>)
    ensures
        waveform(s).subrange(0, frame_copy(s).len() as int) == waveform(s).subrange(
            frame_copy(s).len() + 2int,
            2 * frame_copy(s).len() + 2int,
        ),
{
    let n = frame_copy(s).len() as int;
    assert(waveform(s).subrange(0, n) =~= frame_copy(s));
    assert(waveform(s).subrange(n + 2, 2 * n + 2) =~= frame_copy(s));
}

} // verus!
