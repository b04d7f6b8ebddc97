use chain_tables::amount::U256;
use chain_tables::decay::{decay, DecayError, DecayInformation};
use chain_tables::encoding::TableField;

fn n(x: u64) -> U256 {
    U256::from_u64(x)
}

fn window(now: u64, start: u64, end: u64) -> DecayInformation {
    DecayInformation { now: n(now), decay_start_time: n(start), decay_end_time: n(end) }
}

fn text(x: U256) -> String {
    x.get_value()
}

#[test]
fn decay_at_start_is_start_amount() {
    let r = decay(window(100, 100, 200), n(1000), n(2000)).unwrap();
    assert_eq!(text(r), "1000");
}

#[test]
fn decay_at_end_is_end_amount() {
    let r = decay(window(200, 100, 200), n(1000), n(2000)).unwrap();
    assert_eq!(text(r), "2000");
}

#[test]
fn decay_before_start_and_after_end() {
    assert_eq!(text(decay(window(50, 100, 200), n(1000), n(2000)).unwrap()), "1000");
    assert_eq!(text(decay(window(500, 100, 200), n(1000), n(2000)).unwrap()), "2000");
}

#[test]
fn decay_equal_amounts_stay_constant() {
    for now in [0u64, 100, 150, 199, 200, 1000] {
        assert_eq!(text(decay(window(now, 100, 200), n(777), n(777)).unwrap()), "777");
    }
}

#[test]
fn decay_increasing_midpoint() {
    assert_eq!(text(decay(window(150, 100, 200), n(1000), n(2000)).unwrap()), "1500");
}

#[test]
fn decay_decreasing_midpoint() {
    assert_eq!(text(decay(window(150, 100, 200), n(2000), n(1000)).unwrap()), "1500");
}

#[test]
fn decay_truncates_toward_start_amount() {
    assert_eq!(text(decay(window(101, 100, 103), n(0), n(10)).unwrap()), "3");
    assert_eq!(text(decay(window(101, 100, 103), n(10), n(0)).unwrap()), "7");
}

#[test]
fn decay_is_monotonic() {
    let mut last = 0u128;
    for now in 90u64..=210 {
        let v: u128 = text(decay(window(now, 100, 200), n(5), n(12345)).unwrap()).parse().unwrap();
        assert!(v >= last);
        last = v;
    }
    let mut last = u128::MAX;
    for now in 90u64..=210 {
        let v: u128 = text(decay(window(now, 100, 200), n(12345), n(5)).unwrap()).parse().unwrap();
        assert!(v <= last);
        last = v;
    }
}

#[test]
fn decay_rejects_end_before_start() {
    assert_eq!(decay(window(150, 200, 100), n(1), n(2)), Err(DecayError::EndTimeBeforeStartTime));
}

#[test]
fn decay_full_width_amounts_do_not_overflow() {
    let max = U256 { limbs: [u64::MAX; 4] };
    let half = U256 { limbs: [0, 0, 0, 1u64 << 63] };
    let r = decay(window(150, 100, 200), half, max).unwrap();
    // half + (max - half) / 2, with max - half = 2^255 - 1
    let expected = U256 { limbs: [u64::MAX, u64::MAX, u64::MAX, (1u64 << 63) | ((1u64 << 62) - 1)] };
    assert_eq!(r, expected);
    let r = decay(window(199, 100, 200), max, U256::from_u64(0)).unwrap();
    assert_eq!(
        text(r),
        "1157920892373161954235709850086879078532699846656405640394575840079131296400"
    );
}
