use exif_chdate::ConcurrencyLimiter;
use exif_chdate::default_limiter;

#[test]
fn acquire_succeeds_only_while_capacity_has_room() {
    let mut lim = ConcurrencyLimiter::new(2);
    assert_eq!(lim.capacity_units(), 2);
    assert_eq!(lim.in_flight_units(), 0);

    assert!(lim.try_acquire());
    assert_eq!(lim.in_flight_units(), 1);
    assert!(lim.try_acquire());
    assert_eq!(lim.in_flight_units(), 2);

    assert!(!lim.try_acquire());
    assert_eq!(lim.in_flight_units(), 2);

    lim.release();
    assert_eq!(lim.in_flight_units(), 1);
    assert!(lim.try_acquire());
    assert_eq!(lim.in_flight_units(), 2);
}

#[test]
fn count_never_exceeds_capacity_under_any_interleaving() {
    let mut lim = ConcurrencyLimiter::new(3);
    let mut held: usize = 0;
    // An arbitrary interleaving of acquire attempts and releases; the probe
    // around every step never sees more units held than the capacity.
    let steps = [true, true, false, true, true, true, false, false, true, true];
    for &acquire in steps.iter() {
        if acquire {
            if lim.try_acquire() {
                held += 1;
            }
        } else if held > 0 {
            lim.release();
            held -= 1;
        }
        assert_eq!(lim.in_flight_units(), held);
        assert!(lim.in_flight_units() <= lim.capacity_units());
    }
}

#[test]
fn capacity_one_serializes() {
    let mut lim = ConcurrencyLimiter::new(1);
    assert!(lim.try_acquire());
    assert!(!lim.try_acquire());
    lim.release();
    assert!(lim.try_acquire());
}

#[test]
fn default_limiter_has_at_least_one_unit() {
    let lim = default_limiter();
    assert!(lim.capacity_units() >= 1);
    assert_eq!(lim.in_flight_units(), 0);
}
