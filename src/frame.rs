use vstd::prelude::*;
use vstd::arithmetic::div_mod::lemma_add_mod_noop;

use crate::command::{valid_temperature, Fan, Mode, Power, Settings, MIN_TEMP};
use crate::error::IrError;

verus! {

/// Number of bytes in a frame.
pub const FRAME_LEN: usize = 18;

/// Offsets of the named fields inside a frame.
pub const MAGIC_OFFSET: usize = 0;
pub const MAGIC_LEN: usize = 5;
pub const ONOFF_OFFSET: usize = 5;
pub const HVAC_MODE_OFFSET: usize = 6;
pub const TEMPERATURE_OFFSET: usize = 7;
pub const HVAC_MODE2_OFFSET: usize = 8;
pub const FAN_SPEED_OFFSET: usize = 9;
pub const CLOCK_OFFSET: usize = 10;
pub const END_CLOCK_OFFSET: usize = 11;
pub const START_CLOCK_OFFSET: usize = 12;
pub const PROG_MODE_OFFSET: usize = 13;
pub const RESERVED_OFFSET: usize = 14;
pub const RESERVED_LEN: usize = 3;
pub const CHECKSUM_OFFSET: usize = 17;

pub open spec fn power_code(p: Power) -> u8 {
    match p {
        Power::On => 0x20,
        Power::Off => 0x00,
    }
}

/// The two mode bytes of a frame, in frame order.
pub open spec fn mode_codes(m: Mode) -> (u8, u8) {
    match m {
        Mode::Heat => (0x08, 0x30),
        Mode::Dry => (0x10, 0x32),
        Mode::Cool => (0x18, 0x36),
        Mode::Fan => (0x38, 0x30),
    }
}

pub open spec fn fan_code(f: Fan) -> u8 {
    match f {
        Fan::Auto => 0xb8,
        Fan::Low => 0x79,
        Fan::Medium => 0x7a,
        Fan::High => 0x7b,
        Fan::Higher => 0x7c,
    }
}

/// Sum of the bytes as an unbounded integer.
pub open spec fn byte_sum(s: Seq<u8>) -> int
    decreases s.len(),
{
    if s.len() == 0 {
        0
    } else {
        byte_sum(s.drop_last()) + s.last()
    }
}

/// The checksum of a frame body: the sum of its bytes modulo 256.
pub open spec fn checksum_of(s: Seq<u8>) -> u8 {
    (byte_sum(s) % 256) as u8
}

/// The seventeen bytes ahead of the checksum. The clock, program and
/// reserved fields are always zero.
pub open spec fn frame_body(c: Settings) -> Seq<u8> {
    seq![
        0x23u8, 0xcbu8, 0x26u8, 0x01u8, 0x00u8,
        power_code(c.power),
        mode_codes(c.mode).0,
        (c.temp - MIN_TEMP) as u8,
        mode_codes(c.mode).1,
        fan_code(c.fan),
        0u8, 0u8, 0u8, 0u8,
        0u8, 0u8, 0u8,
    ]
}

/// The whole frame of a command: its body followed by the checksum.
pub open spec fn frame_of(c: Settings) -> Seq<u8> {
    frame_body(c).push(checksum_of(frame_body(c)))
}

/// A frame whose last byte is the checksum of the others.
pub open spec fn checksum_holds(s: Seq<u8>) -> bool {
    s.len() == FRAME_LEN && s[CHECKSUM_OFFSET as int] == checksum_of(s.subrange(0, CHECKSUM_OFFSET as int))
}

/// The encoded form of one command.
pub struct Payload {
    bytes: Vec<u8>,
}

impl Payload {
    #[verifier::type_invariant]
    spec fn inv(&self) -> bool {
        self.bytes@.len() == FRAME_LEN
    }
}

impl View for Payload {
    type V = Seq<u8>;

    closed spec fn view(&self) -> Seq<u8> {
        self.bytes@
    }
}

/// Wrapping sum of the bytes.
pub fn checksum(bytes: &[u8]) -> (r: u8)
    ensures
        r == checksum_of(bytes@),
{
    let mut acc: u8 = 0;
    let mut i: usize = 0;
    while i < bytes.len()
        invariant
            i <= bytes@.len(),
            acc as int == byte_sum(bytes@.subrange(0, i as int)) % 256,
        decreases bytes@.len() - i,
    {
        let b = bytes[i];
        proof {
            let prev = bytes@.subrange(0, i as int);
            let next = bytes@.subrange(0, i + 1);
            assert(next.drop_last() =~= prev);
            lemma_add_mod_noop(byte_sum(prev), b as int, 256);
        }
        acc = ((acc as u16 + b as u16) % 256) as u8;
        i = i + 1;
    }
    assert(bytes@.subrange(0, i as int) =~= bytes@);
    acc
}

impl Payload {
    /// The frame's bytes, checksum last.
    pub fn as_bytes(&self) -> (r: &[u8])
        ensures
            r@ == self@,
            r@.len() == FRAME_LEN,
    {
        proof {
            use_type_invariant(self);
        }
        self.bytes.as_slice()
    }

    /// Encodes a command. The temperature must lie in the range that the
    /// protocol carries; any other is refused before a frame is built.
    pub fn encode(settings: &Settings) -> (r: Result<Payload, IrError>)
        ensures
            match r {
                Ok(p) => valid_temperature(settings.temp) && p@ == frame_of(*settings),
                Err(e) => !valid_temperature(settings.temp) && e == IrError::InvalidCommand,
            },
    {
        if settings.temp < crate::command::MIN_TEMP || settings.temp > crate::command::MAX_TEMP {
            return Err(IrError::InvalidCommand);
        }
        let onoff: u8 = match settings.power {
            Power::On => 0x20,
            Power::Off => 0x00,
        };
        let (m1, m2): (u8, u8) = match settings.mode {
            Mode::Heat => (0x08, 0x30),
            Mode::Dry => (0x10, 0x32),
            Mode::Cool => (0x18, 0x36),
            Mode::Fan => (0x38, 0x30),
        };
        let fan: u8 = match settings.fan {
            Fan::Auto => 0xb8,
            Fan::Low => 0x79,
            Fan::Medium => 0x7a,
            Fan::High => 0x7b,
            Fan::Higher => 0x7c,
        };
        let mut bytes: Vec<u8> = Vec::new();
        bytes.push(0x23);
        bytes.push(0xcb);
        bytes.push(0x26);
        bytes.push(0x01);
        bytes.push(0x00);
        bytes.push(onoff);
        bytes.push(m1);
        bytes.push(settings.temp - MIN_TEMP);
        bytes.push(m2);
        bytes.push(fan);
        let mut k: usize = 0;
        while k < 7
            invariant
                k <= 7,
                bytes@.len() == 10 + k,
                forall|j: int| 10 <= j < 10 + k ==> bytes@[j] == 0u8,
                forall|j: int| 0 <= j < 10 ==> bytes@[j] == frame_body(*settings)[j],
            decreases 7 - k,
        {
            bytes.push(0);
            k = k + 1;
        }
        assert(bytes@ =~= frame_body(*settings));
        let ck = checksum(bytes.as_slice());
        bytes.push(ck);
        Ok(Payload { bytes })
    }
}

} // verus!

verus! {

/// Every encoded frame carries, in its last byte, the sum modulo 256 of the
/// seventeen bytes before it.
pub proof fn lemma_checksum_invariant(c: Settings)
    ensures
        checksum_holds(frame_of(c)),
{
    assert(frame_of(c).subrange(0, CHECKSUM_OFFSET as int) =~= frame_body(c));
}

/// Encoding depends on the command alone: equal commands give equal frames.
pub proof fn lemma_encode_deterministic(a: Settings, b: Settings)
    requires
        a == b,
    ensures
        frame_of(a) == frame_of(b),
{
}

/// The temperature byte of an accepted command is its temperature less the
/// minimum: zero at the lowest temperature, fifteen at the highest.
pub proof fn lemma_temperature_byte(c: Settings)
    requires
        valid_temperature(c.temp),
    ensures
        frame_of(c)[TEMPERATURE_OFFSET as int] as int == c.temp - MIN_TEMP,
        c.temp == MIN_TEMP ==> frame_of(c)[TEMPERATURE_OFFSET as int] == 0,
        c.temp == crate::command::MAX_TEMP ==> frame_of(c)[TEMPERATURE_OFFSET as int] == 0x0f,
{
}

} // verus!
