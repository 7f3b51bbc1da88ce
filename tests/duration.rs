use paperwork::duration::{Duration, MAX_DURATION_SECONDS};

#[test]
fn format_unsigned_pads_and_does_not_wrap_hours() {
    assert_eq!(Duration::of(3661).format_unsigned(), "01:01:01");
    assert_eq!(Duration::of(0).format_unsigned(), "00:00:00");
    assert_eq!(Duration::of(360_000).format_unsigned(), "100:00:00");
    assert_eq!(Duration::of(86_399).format_unsigned(), "23:59:59");
}

#[test]
fn format_unsigned_uses_the_magnitude() {
    assert_eq!(Duration::of(-90).format_unsigned(), "00:01:30");
    assert_eq!(Duration::of(-3661).format_unsigned(), "01:01:01");
}

#[test]
fn format_signed_prefixes_the_sign() {
    assert_eq!(Duration::of(3661).format_signed(), "+01:01:01");
    assert_eq!(Duration::of(-90).format_signed(), "-00:01:30");
    assert_eq!(Duration::of(0).format_signed(), " 00:00:00");
}

#[test]
fn signed_and_unsigned_agree_on_magnitude() {
    for s in [-100_000i64, -61, -1, 0, 1, 59, 3600, 7_654_321] {
        let d = Duration::of(s);
        let signed = d.format_signed();
        assert_eq!(&signed[1..], d.format_unsigned());
        assert_eq!(Duration::of(-s).format_unsigned(), d.format_unsigned());
    }
}

#[test]
fn serialized_seconds_round_trip() {
    for s in [-MAX_DURATION_SECONDS, -1, 0, 42, 28_800, MAX_DURATION_SECONDS] {
        let d = Duration::of(s);
        assert_eq!(d.serialize(), s);
        assert_eq!(Duration::deserialize(d.serialize()), Some(d));
    }
}

#[test]
fn deserialize_rejects_out_of_range_seconds() {
    assert_eq!(Duration::deserialize(MAX_DURATION_SECONDS + 1), None);
    assert_eq!(Duration::deserialize(i64::MIN), None);
}

#[test]
fn default_duration_is_zero() {
    assert_eq!(Duration::default(), Duration::zero());
    assert_eq!(Duration::default().num_seconds(), 0);
}

#[test]
fn durations_order_by_seconds() {
    assert!(Duration::of(-5) < Duration::of(3));
    assert_eq!(Duration::of(7), Duration::of(7));
}
