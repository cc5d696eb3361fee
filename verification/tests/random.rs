use pathtracer::random::{random_int, random_int_checked};

#[test]
fn random_int_stays_in_its_range() {
    for _ in 0..2000 {
        let n = random_int(5..8);
        assert!((5..8).contains(&n));
    }
    for _ in 0..100 {
        assert_eq!(random_int(41..42), 41);
    }
    let top = usize::MAX;
    for _ in 0..100 {
        assert_eq!(random_int(top - 1..top), top - 1);
    }
}

#[test]
fn random_int_reaches_every_axis() {
    let mut seen = [0usize; 3];
    for _ in 0..3000 {
        seen[random_int(0..3)] += 1;
    }
    assert!(seen.iter().all(|&n| n > 500), "{:?}", seen);
}

#[test]
fn random_int_does_not_hand_its_bounds_back() {
    let mut low = 0;
    let mut other = 0;
    for _ in 0..2000 {
        let n = random_int(10..1_000_000);
        assert!(n >= 10 && n < 1_000_000);
        if n == 10 {
            low += 1;
        } else {
            other += 1;
        }
    }
    assert!(other > low);
}

#[test]
fn random_int_checked_refuses_an_empty_range() {
    assert_eq!(random_int_checked(3..3), None);
    assert_eq!(random_int_checked(4..3), None);
    for _ in 0..200 {
        let n = random_int_checked(0..3).unwrap();
        assert!(n < 3);
    }
}
