use slsify::checkpoint::Checkpointer;
use slsify::error::Error;
use slsify::schedule::{Overhead, Timing};

fn tenth() -> Overhead {
    Overhead::new(1, 10).unwrap()
}

#[test]
fn overhead_must_be_greater_than_zero() {
    assert_eq!(Overhead::new(0, 10), Err(Error::Precondition));
    assert_eq!(Overhead::new(0, 0), Err(Error::Precondition));
    assert_eq!(Overhead::new(1, 0), Err(Error::Precondition));
    assert_eq!(Overhead::new(1, 10).unwrap().ratio(), (1, 10));
    assert_eq!(Overhead::new(u64::MAX, 1).unwrap().ratio(), (u64::MAX, 1));
    assert!(Overhead::new(1, u64::MAX).is_ok());
}

#[test]
fn pause_is_part_of_the_whole() {
    let t = Timing::new(300, 700);
    assert_eq!(t.pause(), 300);
    assert_eq!(t.total(), 1000);
    let t = Timing::new(0, 0);
    assert_eq!((t.pause(), t.total()), (0, 0));
    let t = Timing::new(u64::MAX, 1);
    assert_eq!((t.pause(), t.total()), (u64::MAX, u64::MAX));
    let t = Timing::new(5, u64::MAX - 5);
    assert_eq!((t.pause(), t.total()), (5, u64::MAX));
    let t = Timing::new(6, u64::MAX - 5);
    assert_eq!((t.pause(), t.total()), (6, u64::MAX));
    for (p, rest) in [(0u64, 9u64), (9, 0), (1 << 40, 1 << 41)] {
        let t = Timing::new(p, rest);
        assert!(t.pause() <= t.total());
    }
}

#[test]
fn stats_line_is_pause_comma_total() {
    assert_eq!(Timing::new(300, 700).stats_line(), b"300,1000\n".to_vec());
    assert_eq!(Timing::new(0, 0).stats_line(), b"0,0\n".to_vec());
}

#[test]
fn fixed_period_subtracts_what_the_checkpoint_took() {
    assert_eq!(Checkpointer::run(1_000_000_000, 250_000_000), 750_000_000);
    assert_eq!(Checkpointer::run(1_000_000_000, 1_000_000_000), 0);
    assert_eq!(Checkpointer::run(1_000_000_000, 2_000_000_000), 0);
    assert_eq!(Checkpointer::run(0, 0), 0);
    assert_eq!(Checkpointer::run(u64::MAX, 0), u64::MAX);
}

#[test]
fn adaptive_wait_is_free_run_less_the_time_already_run() {
    // A pause of 10 ms at a tenth asks for 100 ms of free run; 30 ms of
    // them have passed while the checkpoint was written.
    let t = Timing::new(10_000_000, 30_000_000);
    assert_eq!(Checkpointer::run_adaptive(tenth(), None, None, t), 70_000_000);
}

#[test]
fn adaptive_wait_is_zero_when_writing_took_longer_than_the_free_run() {
    let t = Timing::new(10_000_000, 130_000_000);
    assert_eq!(Checkpointer::run_adaptive(tenth(), None, None, t), 0);
    let t = Timing::new(10_000_000, 100_000_000);
    assert_eq!(Checkpointer::run_adaptive(tenth(), None, None, t), 0);
    let t = Timing::new(0, 0);
    assert_eq!(Checkpointer::run_adaptive(tenth(), None, None, t), 0);
}

#[test]
fn adaptive_wait_is_raised_to_the_minimum_period() {
    let t = Timing::new(10_000_000, 30_000_000);
    // total is 40 ms; a minimum period of 1 s leaves 960 ms
    assert_eq!(
        Checkpointer::run_adaptive(tenth(), Some(1_000_000_000), None, t),
        960_000_000
    );
    // a minimum period of 100 ms leaves 60 ms, less than the 70 ms due
    assert_eq!(Checkpointer::run_adaptive(tenth(), Some(100_000_000), None, t), 70_000_000);
    // a minimum period shorter than the checkpoint changes nothing
    assert_eq!(Checkpointer::run_adaptive(tenth(), Some(1), None, t), 70_000_000);
}

#[test]
fn adaptive_wait_is_lowered_to_the_maximum_period() {
    let t = Timing::new(10_000_000, 30_000_000);
    assert_eq!(Checkpointer::run_adaptive(tenth(), None, Some(50_000_000), t), 10_000_000);
    assert_eq!(Checkpointer::run_adaptive(tenth(), None, Some(40_000_000), t), 0);
    assert_eq!(Checkpointer::run_adaptive(tenth(), None, Some(1), t), 0);
    assert_eq!(Checkpointer::run_adaptive(tenth(), None, Some(1_000_000_000), t), 70_000_000);
    // the maximum is applied after the minimum
    assert_eq!(
        Checkpointer::run_adaptive(tenth(), Some(1_000_000_000), Some(50_000_000), t),
        10_000_000
    );
}

#[test]
fn adaptive_wait_rounds_the_free_run_down() {
    let third = Overhead::new(3, 1).unwrap();
    assert_eq!(Checkpointer::run_adaptive(third, None, None, Timing::new(10, 0)), 3);
    let two_thirds = Overhead::new(2, 3).unwrap();
    assert_eq!(Checkpointer::run_adaptive(two_thirds, None, None, Timing::new(5, 0)), 7);
}

#[test]
fn adaptive_wait_does_not_overflow() {
    let tiny = Overhead::new(1, u64::MAX).unwrap();
    let t = Timing::new(u64::MAX, 0);
    assert_eq!(
        Checkpointer::run_adaptive(tiny, None, None, t),
        (u64::MAX as u128) * (u64::MAX as u128)
    );
    assert_eq!(
        Checkpointer::run_adaptive(tiny, Some(u64::MAX), Some(u64::MAX), t),
        0
    );
}

#[test]
fn pauses_stay_within_the_overhead_over_a_window() {
    let overhead = Overhead::new(1, 10).unwrap();
    let mut pauses: u128 = 0;
    let mut free: u128 = 0;
    for (p, rest) in [(5u64, 1u64), (100, 2000), (0, 10), (7, 7), (123_456, 1), (1, 0)] {
        let t = Timing::new(p, rest);
        let wait = Checkpointer::run_adaptive(overhead, Some(3), None, t);
        pauses += p as u128;
        free += rest as u128 + wait;
        assert!(rest as u128 + wait >= p as u128 * 10);
        assert!(pauses * 10 <= pauses + free);
    }
}

#[test]
fn a_tenth_of_overhead_keeps_the_pauses_near_a_tenth_of_the_run() {
    // Thirty seconds of a target whose checkpoints pause it for 20 ms and
    // take another 50 ms to write.
    let overhead = Overhead::new(1, 10).unwrap();
    let mut elapsed: u128 = 0;
    let mut paused: u128 = 0;
    while elapsed < 30_000_000_000 {
        let timing = Timing::new(20_000_000, 50_000_000);
        let wait = Checkpointer::run_adaptive(overhead, None, None, timing);
        assert_eq!(wait, 150_000_000);
        paused += timing.pause() as u128;
        elapsed += timing.total() as u128 + wait;
    }
    // no less than 1/11 of the run, which is the overhead met exactly
    assert!(paused * 11 >= elapsed);
    // between 0.05 and 0.15 of the run
    assert!(paused * 100 >= elapsed * 5);
    assert!(paused * 100 <= elapsed * 15);
}
