use ac_ir::command::{Fan, Mode, Power, Settings};
use ac_ir::error::IrError;
use ac_ir::frame::{
    checksum, Payload, CHECKSUM_OFFSET, CLOCK_OFFSET, END_CLOCK_OFFSET, FAN_SPEED_OFFSET,
    FRAME_LEN, HVAC_MODE2_OFFSET, HVAC_MODE_OFFSET, MAGIC_LEN, MAGIC_OFFSET, ONOFF_OFFSET,
    PROG_MODE_OFFSET, RESERVED_LEN, RESERVED_OFFSET, START_CLOCK_OFFSET, TEMPERATURE_OFFSET,
};

fn frame(power: Power, mode: Mode, temp: u8, fan: Fan) -> Vec<u8> {
    let s = Settings { power, mode, temp, fan };
    Payload::encode(&s).unwrap().as_bytes().to_vec()
}

fn wrapping_sum(b: &[u8]) -> u8 {
    b.iter().fold(0u8, |a, x| a.wrapping_add(*x))
}

#[test]
fn cool_24_auto_vector() {
    let f = frame(Power::On, Mode::Cool, 24, Fan::Auto);
    assert_eq!(f.len(), 18);
    assert_eq!(&f[0..5], &[0x23, 0xcb, 0x26, 0x01, 0x00]);
    assert_eq!(f[ONOFF_OFFSET], 0x20);
    assert_eq!(f[HVAC_MODE_OFFSET], 0x18);
    assert_eq!(f[TEMPERATURE_OFFSET], 0x08);
    assert_eq!(f[HVAC_MODE2_OFFSET], 0x36);
    assert_eq!(f[FAN_SPEED_OFFSET], 0xb8);
}

#[test]
fn cool_24_auto_full_frame() {
    let f = frame(Power::On, Mode::Cool, 24, Fan::Auto);
    let expected: [u8; 18] = [
        0x23, 0xcb, 0x26, 0x01, 0x00, 0x20, 0x18, 0x08, 0x36, 0xb8, 0, 0, 0, 0, 0, 0, 0, 0x43,
    ];
    assert_eq!(f, expected.to_vec());
}

#[test]
fn off_heat_16_low_vector() {
    let f = frame(Power::Off, Mode::Heat, 16, Fan::Low);
    assert_eq!(f[ONOFF_OFFSET], 0x00);
    assert_eq!(f[HVAC_MODE_OFFSET], 0x08);
    assert_eq!(f[TEMPERATURE_OFFSET], 0x00);
    assert_eq!(f[HVAC_MODE2_OFFSET], 0x30);
    assert_eq!(f[FAN_SPEED_OFFSET], 0x79);
}

#[test]
fn on_dry_31_high_vector() {
    let f = frame(Power::On, Mode::Dry, 31, Fan::High);
    assert_eq!(f[TEMPERATURE_OFFSET], 0x0f);
    assert_eq!(f[HVAC_MODE_OFFSET], 0x10);
    assert_eq!(f[HVAC_MODE2_OFFSET], 0x32);
    assert_eq!(f[FAN_SPEED_OFFSET], 0x7b);
}

#[test]
fn fan_mode_and_remaining_speeds() {
    let f = frame(Power::On, Mode::Fan, 20, Fan::Medium);
    assert_eq!(f[HVAC_MODE_OFFSET], 0x38);
    assert_eq!(f[HVAC_MODE2_OFFSET], 0x30);
    assert_eq!(f[FAN_SPEED_OFFSET], 0x7a);
    let g = frame(Power::On, Mode::Cool, 20, Fan::Higher);
    assert_eq!(g[FAN_SPEED_OFFSET], 0x7c);
}

#[test]
fn temperature_below_range_rejected() {
    for t in [0u8, 1, 15] {
        let s = Settings { power: Power::On, mode: Mode::Cool, temp: t, fan: Fan::Auto };
        assert_eq!(Payload::encode(&s).err(), Some(IrError::InvalidCommand));
    }
}

#[test]
fn temperature_above_range_rejected() {
    for t in [32u8, 100, 255] {
        let s = Settings { power: Power::Off, mode: Mode::Heat, temp: t, fan: Fan::Low };
        assert_eq!(Payload::encode(&s).err(), Some(IrError::InvalidCommand));
    }
}

#[test]
fn checksum_invariant_holds_for_every_command() {
    let powers = [Power::On, Power::Off];
    let modes = [Mode::Heat, Mode::Dry, Mode::Cool, Mode::Fan];
    let fans = [Fan::Auto, Fan::Low, Fan::Medium, Fan::High, Fan::Higher];
    for p in powers {
        for m in modes {
            for fan in fans {
                for t in 16u8..=31 {
                    let f = frame(p, m, t, fan);
                    assert_eq!(f.len(), FRAME_LEN);
                    assert_eq!(f[CHECKSUM_OFFSET], wrapping_sum(&f[0..17]));
                    assert_eq!(f[TEMPERATURE_OFFSET], t - 16);
                }
            }
        }
    }
}

#[test]
fn encode_is_deterministic() {
    let s = Settings { power: Power::On, mode: Mode::Heat, temp: 22, fan: Fan::High };
    let a = Payload::encode(&s).unwrap();
    let b = Payload::encode(&s).unwrap();
    assert_eq!(a.as_bytes(), b.as_bytes());
}

#[test]
fn checksum_wraps_modulo_256() {
    assert_eq!(checksum(&[]), 0);
    assert_eq!(checksum(&[0xff, 0x02]), 0x01);
    assert_eq!(checksum(&[0x80, 0x80, 0x80]), 0x80);
    assert_eq!(checksum(&[1, 2, 3]), 6);
}

#[test]
fn field_layout_offsets() {
    assert_eq!(MAGIC_OFFSET, 0);
    assert_eq!(MAGIC_LEN, 5);
    assert_eq!(ONOFF_OFFSET, 5);
    assert_eq!(HVAC_MODE_OFFSET, 6);
    assert_eq!(TEMPERATURE_OFFSET, 7);
    assert_eq!(HVAC_MODE2_OFFSET, 8);
    assert_eq!(FAN_SPEED_OFFSET, 9);
    assert_eq!(CLOCK_OFFSET, 10);
    assert_eq!(END_CLOCK_OFFSET, 11);
    assert_eq!(START_CLOCK_OFFSET, 12);
    assert_eq!(PROG_MODE_OFFSET, 13);
    assert_eq!(RESERVED_OFFSET, 14);
    assert_eq!(RESERVED_LEN, 3);
    assert_eq!(CHECKSUM_OFFSET, 17);
    let f = frame(Power::On, Mode::Cool, 24, Fan::Auto);
    for i in CLOCK_OFFSET..RESERVED_OFFSET + RESERVED_LEN {
        assert_eq!(f[i], 0);
    }
}
