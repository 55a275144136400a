use cube200::geometry::FACE_SIZE;
use cube200::moves::Move;
use cube200::rng::Xorshift64;
use cube200::scramble::{
    is_inverse, is_triple, next_move, progress_due, scramble_length, Cube, Scrambler,
};

fn shift(mut x: u64) -> u64 {
    x ^= x << 13;
    x ^= x >> 7;
    x ^= x << 17;
    x
}

#[test]
fn generator_gives_known_numbers() {
    let mut rng = Xorshift64::new(1);
    assert_eq!(rng.next_u64(), 1082269761);
    assert_eq!(rng.next_u64(), 1152992998833853505);
    assert_eq!(rng.state, 1152992998833853505);
}

#[test]
fn zero_seed_is_replaced() {
    assert_eq!(Xorshift64::new(0).state, 0xDEAD_BEEF_CAFE_1337);
    assert_eq!(Xorshift64::new(77).state, 77);
}

#[test]
fn bounded_numbers_are_remainders() {
    let mut a = Xorshift64::new(99);
    let mut b = Xorshift64::new(99);
    for n in 1..50u64 {
        let x = a.next_u64();
        assert_eq!(b.next_bounded(n), x % n);
        assert_eq!(a.state, b.state);
    }
}

#[test]
fn low_bits_keep_changing() {
    // The run of equal lowest bits is longest from this state: sixty-four odd ones.
    let mut x: u64 = 0x1538_f721_71a1_83c3;
    for _ in 0..64 {
        assert_eq!(x & 1, 1);
        x = shift(shift(shift(x)));
    }
    assert_eq!(x & 1, 0);
}

#[test]
fn lengths_are_105_to_125_percent() {
    let mut shortest = u64::MAX;
    let mut longest = 0;
    for seed in 1..500u64 {
        let mut rng = Xorshift64::new(seed * 7919);
        let total = scramble_length(&mut rng);
        assert_eq!(total, 240_000 * (105 + shift(seed * 7919) % 21) / 100);
        shortest = shortest.min(total);
        longest = longest.max(total);
    }
    assert_eq!(shortest, 252_000);
    assert_eq!(longest, 300_000);
}

#[test]
fn first_move_is_the_first_candidate() {
    let mut rng = Xorshift64::new(12345);
    let a = shift(12345);
    let b = shift(a);
    let c = shift(b);
    let mv = next_move(&mut rng, None, None);
    assert_eq!(mv, Move { axis: (a % 3) as u8, layer: (b % 200) as u16, cw: c % 2 == 0 });
    assert_eq!(rng.state, c);
}

#[test]
fn opposite_candidates_are_skipped() {
    let mut rng = Xorshift64::new(4242);
    let first = next_move(&mut rng, None, None);
    let after_first = rng.state;
    let second = next_move(&mut rng, None, None);
    // The same draw, after a move that the first candidate would turn back.
    let mut again = Xorshift64::new(4242);
    let taken = next_move(&mut again, None, Some(first.inverse()));
    assert_eq!(taken, second);
    assert!(rng.state == again.state && rng.state != after_first);
    // And after two moves of the same layer.
    let mut third = Xorshift64::new(4242);
    assert_eq!(next_move(&mut third, Some(first), Some(first)), second);
    // But one equal move before it is no reason to skip.
    let mut fourth = Xorshift64::new(4242);
    assert_eq!(next_move(&mut fourth, None, Some(first)), first);
}

#[test]
fn progress_is_reported_every_thousand_moves() {
    assert!(progress_due(0));
    assert!(!progress_due(999));
    assert!(progress_due(5000));
    assert!(!progress_due(5001));
}

#[test]
fn scramble_runs_on() {
    let mut s = Scrambler::new(2024);
    assert_eq!(s.total_moves, 240_000 * (105 + shift(2024) % 21) / 100);
    assert!(s.prev1.is_none() && s.prev2.is_none());
    let mut made: Vec<Move> = Vec::new();
    let mut cube = Cube::new_solved();
    for _ in 0..400 {
        let mv = s.step();
        assert!(mv.axis < 3 && mv.layer < 200);
        let n = made.len();
        if n > 0 {
            assert!(!is_inverse(made[n - 1], mv));
        }
        if n > 1 {
            assert!(!is_triple(Some(made[n - 2]), Some(made[n - 1]), mv));
        }
        cube.do_move(mv.axis, mv.layer as usize, mv.cw);
        made.push(mv);
        assert_eq!(s.prev1, Some(mv));
    }
    assert_eq!(s.prev2, Some(made[398]));
    assert!(s.cube.state.data == cube.state.data);
    assert!(cube.state.data != Cube::new_solved().state.data);
    for v in 0..6u8 {
        assert_eq!(cube.state.data.iter().filter(|&&x| x == v).count(), FACE_SIZE);
    }
}

#[test]
fn scramble_ends_after_its_length() {
    let mut s = Scrambler::new(0);
    let total = s.total_moves;
    assert_eq!(total, 240_000 * (105 + shift(0xDEAD_BEEF_CAFE_1337) % 21) / 100);
    let mut reports = 0;
    let mut made: u64 = 0;
    loop {
        if s.report_due() {
            assert_eq!(made % 1000, 0);
            reports += 1;
        }
        let before = s.prev1;
        match s.advance() {
            Some(mv) => {
                made += 1;
                assert_eq!(s.prev1, Some(mv));
                assert_eq!(s.prev2, before);
            }
            None => break,
        }
        assert_eq!(s.made, made);
    }
    assert_eq!(made, total);
    assert_eq!(reports, (total + 999) / 1000);
    let (state, last) = (s.rng.state, s.prev1);
    assert!(!s.report_due());
    assert_eq!(s.advance(), None);
    assert!(s.made == total && s.rng.state == state && s.prev1 == last);
    for v in 0..6u8 {
        assert_eq!(s.cube.state.data.iter().filter(|&&x| x == v).count(), FACE_SIZE);
    }
}

#[test]
fn advancing_is_stepping() {
    let mut a = Scrambler::new(31337);
    let mut b = Scrambler::new(31337);
    for _ in 0..50 {
        let mv = a.step();
        assert_eq!(b.advance(), Some(mv));
        assert_eq!(a.rng.state, b.rng.state);
    }
    assert!(a.cube.state.data == b.cube.state.data);
}

#[test]
fn generator_can_be_run_backwards() {
    // Each shift is undone by taking the same shift again until nothing is left of it.
    let back = |y: u64| -> u64 {
        let mut b = y;
        for _ in 0..4 {
            b = y ^ (b << 17);
        }
        let mut a = b;
        for _ in 0..10 {
            a = b ^ (a >> 7);
        }
        let mut x = a;
        for _ in 0..5 {
            x = a ^ (x << 13);
        }
        x
    };
    let mut rng = Xorshift64::new(987654321);
    for _ in 0..100 {
        let before = rng.state;
        let after = rng.next_u64();
        assert_eq!(back(after), before);
    }
}
