use minesweeper::hud::{clock, Clock};
use minesweeper::menu::{Difficulty, Size};
use minesweeper::palette::Nord;

#[test]
fn size_dimensions() {
    assert_eq!(Size::Small.dimensions(), (16, 9));
    assert_eq!(Size::Medium.dimensions(), (32, 18));
    assert_eq!(Size::Big.dimensions(), (48, 27));
    assert_eq!(Size::Huge.dimensions(), (64, 36));
}

#[test]
fn sizes_cycle() {
    assert_eq!(Size::Small.next(), Size::Medium);
    assert_eq!(Size::Medium.next(), Size::Big);
    assert_eq!(Size::Big.next(), Size::Huge);
    assert_eq!(Size::Huge.next(), Size::Small);
}

#[test]
fn difficulties_cycle() {
    let mut d = Difficulty::Easy;
    let mut seen = Vec::new();
    for _ in 0..5 {
        seen.push(d);
        d = d.next();
    }
    assert_eq!(d, Difficulty::Easy);
    assert_eq!(
        seen,
        vec![Difficulty::Easy, Difficulty::Medium, Difficulty::Hard, Difficulty::Extreme, Difficulty::Debug]
    );
}

#[test]
fn mine_counts() {
    assert_eq!(Difficulty::Easy.mine_count(144), 14);
    assert_eq!(Difficulty::Medium.mine_count(144), 21);
    assert_eq!(Difficulty::Hard.mine_count(144), 28);
    assert_eq!(Difficulty::Extreme.mine_count(144), 36);
    assert_eq!(Difficulty::Debug.mine_count(144), 36);
    assert_eq!(Difficulty::Easy.mine_count(0), 0);
    assert!(Difficulty::Debug.is_debug());
    assert!(!Difficulty::Easy.is_debug());
}

#[test]
fn names_and_labels() {
    assert_eq!(Size::Big.name(), "Big");
    assert_eq!(Size::Huge.name(), "Huge");
    assert_eq!(Size::Small.label(), "Size:");
    assert_eq!(Difficulty::Extreme.name(), "Extreme");
    assert_eq!(Difficulty::Debug.name(), "Debug");
    assert_eq!(Difficulty::Easy.label(), "Difficulty:");
}

#[test]
fn colours() {
    assert_eq!(Size::Small.color(), 0xa3be8c);
    assert_eq!(Size::Huge.color(), 0xbf616a);
    assert_eq!(Difficulty::Debug.color(), 0xb48ead);
    assert_eq!(Difficulty::Medium.color(), 0xebcb8b);
    assert_eq!(Nord::night(0), 0x2e3440);
    assert_eq!(Nord::frost(3), 0x5e81ac);
    assert_eq!(Nord::snow(2), 0xeceff4);
    assert_eq!(Nord::aurora(4), Nord::PURPLE);
    assert_eq!(Nord::channels(0x2e3440), (0x2e, 0x34, 0x40));
    assert_eq!(Nord::channels(0xbf616a), (191, 97, 106));
}

#[test]
fn clock_faces() {
    assert_eq!(clock(0), Clock::Seconds(0));
    assert_eq!(clock(59), Clock::Seconds(59));
    assert_eq!(clock(60), Clock::Minutes(1, 0));
    assert_eq!(clock(3599), Clock::Minutes(59, 59));
    assert_eq!(clock(3600), Clock::Hours(1, 0, 0));
    assert_eq!(clock(3 * 3600 + 5 * 60 + 7), Clock::Hours(3, 5, 7));
}
