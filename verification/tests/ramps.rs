use brightctl::brightness::{Brightness, Step};

#[test]
fn tweening() {
    assert_eq!(
        Brightness(1000).tween_to(Brightness(1500), 4),
        vec![
            Brightness(1125),
            Brightness(1250),
            Brightness(1375),
            Brightness(1500),
        ]
    );

    assert_eq!(
        Brightness(2000).tween_to(Brightness(8000), 6),
        vec![
            Brightness(3000),
            Brightness(4000),
            Brightness(5000),
            Brightness(6000),
            Brightness(7000),
            Brightness(8000),
        ]
    );
}

#[test]
fn tween_length_and_final_value() {
    let cases: Vec<(u64, u64, u64)> = vec![
        (0, 1, 1),
        (1000, 1500, 4),
        (1500, 1000, 7),
        (7500, 0, 100),
        (42, 42, 13),
        (0, u64::MAX, 3),
        (u64::MAX, 0, 3),
    ];
    for (start, end, steps) in cases {
        let ramp = Brightness(start).tween_to(Brightness(end), steps);
        assert_eq!(ramp.len() as u64, steps);
        assert_eq!(*ramp.last().unwrap(), Brightness(end));
    }
}

#[test]
fn tween_monotone_and_within_endpoints() {
    let ramp = Brightness(1000).tween_to(Brightness(1500), 100);
    let mut prev = 1000;
    for b in &ramp {
        assert!(b.0 >= prev, "ramp fell from {} to {}", prev, b.0);
        assert!((1000..=1500).contains(&b.0));
        prev = b.0;
    }
    assert_eq!(prev, 1500);
}

#[test]
fn tween_single_step_jumps_to_end() {
    assert_eq!(Brightness(3).tween_to(Brightness(7000), 1), vec![Brightness(7000)]);
}

#[test]
fn up_from_current_reading() {
    // The whole computation of one "up" invocation, on a current reading of
    // 1000: one hundred samples, never outside the old and new levels, ending
    // exactly on the new level.
    let old = Brightness(1000);
    let new = old.step(Step::Up);
    assert_eq!(new, Brightness(1500));
    let ramp = old.tween_to(new, 100);
    assert_eq!(ramp.len(), 100);
    assert!(ramp.iter().all(|b| 1000 <= b.0 && b.0 <= 1500));
    assert_eq!(ramp[99], Brightness(1500));
}
