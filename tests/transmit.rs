use ac_ir::command::{Fan, Mode, Power, Settings};
use ac_ir::error::IrError;
use ac_ir::frame::Payload;
use ac_ir::transmit::{sleep_micros, Action, Event, Transmitter};
use ac_ir::waveform::{pulse_train, TRAIN_LEN};

fn payload() -> Payload {
    let s = Settings { power: Power::Off, mode: Mode::Dry, temp: 27, fan: Fan::Medium };
    Payload::encode(&s).unwrap()
}

fn is_release(a: &Action) -> bool {
    matches!(a, Action::Release(_))
}

#[test]
fn successful_run_emits_every_pulse_then_releases() {
    let p = payload();
    let pulses = pulse_train(&p);
    let mut t = Transmitter::new(&p);
    assert!(matches!(t.step(Event::Ready), Action::OpenDevice));
    assert!(matches!(t.step(Event::Ready), Action::RequestLine));
    let mut actions = Vec::new();
    loop {
        let a = t.step(Event::Ready);
        let end = is_release(&a);
        actions.push(a);
        if end {
            break;
        }
    }
    assert_eq!(actions.len(), TRAIN_LEN + 1);
    let mut total: u64 = 0;
    for (i, a) in actions[..TRAIN_LEN].iter().enumerate() {
        total += pulses[i].micros;
        match a {
            Action::SetLine { level, deadline } => {
                assert_eq!(*level, pulses[i].level);
                assert_eq!(*deadline, total);
            }
            _ => panic!("expected a level change"),
        }
    }
    assert!(matches!(actions[TRAIN_LEN], Action::Release(Ok(()))));
    assert!(matches!(t.step(Event::Ready), Action::Nothing));
}

#[test]
fn deadlines_advance_by_nominal_durations() {
    let p = payload();
    let mut t = Transmitter::new(&p);
    t.step(Event::Ready);
    t.step(Event::Ready);
    assert!(matches!(t.step(Event::Ready), Action::SetLine { level: 1, deadline: 3400 }));
    assert!(matches!(t.step(Event::Ready), Action::SetLine { level: 0, deadline: 5150 }));
    assert!(matches!(t.step(Event::Ready), Action::SetLine { level: 1, deadline: 5490 }));
}

#[test]
fn open_failure_finishes_without_release() {
    let mut t = Transmitter::new(&payload());
    t.step(Event::Ready);
    let a = t.step(Event::Failed(2));
    assert!(matches!(a, Action::Finish(Err(IrError::DeviceOpen(2)))));
    assert!(matches!(t.step(Event::Ready), Action::Nothing));
}

#[test]
fn request_failure_finishes_without_release() {
    let mut t = Transmitter::new(&payload());
    t.step(Event::Ready);
    t.step(Event::Ready);
    let a = t.step(Event::Failed(16));
    assert!(matches!(a, Action::Finish(Err(IrError::LineRequest(16)))));
    assert!(matches!(t.step(Event::Failed(1)), Action::Nothing));
}

#[test]
fn write_failure_releases_once() {
    let mut t = Transmitter::new(&payload());
    t.step(Event::Ready);
    t.step(Event::Ready);
    let mut releases = 0;
    for _ in 0..10 {
        assert!(matches!(t.step(Event::Ready), Action::SetLine { .. }));
    }
    let a = t.step(Event::Failed(5));
    assert!(matches!(a, Action::Release(Err(IrError::LineWrite(5)))));
    releases += 1;
    for _ in 0..5 {
        let b = t.step(Event::Failed(5));
        if is_release(&b) {
            releases += 1;
        }
        assert!(matches!(b, Action::Nothing));
    }
    assert_eq!(releases, 1);
}

#[test]
fn sleep_until_deadline() {
    assert_eq!(sleep_micros(5000, 1200), 3800);
    assert_eq!(sleep_micros(5000, 5000), 0);
    assert_eq!(sleep_micros(5000, 9000), 0);
    assert_eq!(sleep_micros(0, 0), 0);
}
