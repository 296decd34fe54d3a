use adequate_booru_viewer::refresh::{AsyncPulse, Coalescer};

#[test]
fn a_request_goes_out_when_none_is_out() {
    let mut pulse = Coalescer::new();
    assert_eq!(pulse.request(), Some(1));
    pulse.sent(1);
    assert_eq!(pulse.pulse, AsyncPulse::InFlight { serial: 1 });
    let done = pulse.finish(1);
    assert!(done.install);
    assert_eq!(done.resend, None);
    assert_eq!(pulse.pulse, AsyncPulse::Idle);
}

#[test]
fn requests_while_one_is_out_coalesce_into_one_resend() {
    let mut pulse = Coalescer::new();
    let first = pulse.request().unwrap();
    pulse.sent(first);
    assert_eq!(pulse.request(), None);
    assert_eq!(pulse.request(), None);
    assert_eq!(pulse.pulse, AsyncPulse::Dirty { serial: 1 });
    assert_eq!(pulse.latest, 3);
    let done = pulse.finish(1);
    assert!(!done.install);
    assert_eq!(done.resend, Some(3));
    pulse.sent(3);
    let done = pulse.finish(3);
    assert!(done.install);
    assert_eq!(done.resend, None);
}

#[test]
fn stray_answers_change_nothing() {
    let mut pulse = Coalescer::new();
    let done = pulse.finish(4);
    assert!(!done.install && done.resend.is_none());
    let serial = pulse.request().unwrap();
    pulse.sent(serial);
    let done = pulse.finish(serial + 7);
    assert!(!done.install && done.resend.is_none());
    assert_eq!(pulse.pulse, AsyncPulse::InFlight { serial });
    pulse.send_failed();
    assert_eq!(pulse.pulse, AsyncPulse::Idle);
}
