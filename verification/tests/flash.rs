//! The settled counter's flash.
use crew_app::flash::{Flash, FLASH_MS};

#[test]
fn only_the_digits_that_changed_are_marked() {
    let mut f = Flash::new();
    f.observe(9, 0, FLASH_MS);
    f.observe(10, 0, FLASH_MS);
    assert_eq!(f.changed(10), vec![true, true], "a digit grew: all of it");
    f.observe(11, 0, FLASH_MS);
    assert_eq!(f.changed(11), vec![false, true], "only the ones digit");
}

#[test]
fn the_first_sight_of_a_count_is_not_a_change() {
    let mut f = Flash::new();
    f.observe(0, 5_000, FLASH_MS);
    assert!(!f.live(5_000), "a plan's 0/7 draws quiet");
    f.observe(1, 5_000, FLASH_MS);
    assert!(f.live(5_000), "the change lights");
    assert!(f.live(5_000 + FLASH_MS / 2));
    assert!(!f.live(5_000 + FLASH_MS), "settled by the end of the window");
}

#[test]
fn a_same_count_observe_does_not_restart() {
    let mut f = Flash::new();
    f.observe(3, 0, FLASH_MS);
    f.observe(4, 100, FLASH_MS);
    f.observe(4, 350, FLASH_MS);
    assert!(!f.live(400), "the window still runs from the change at 100");
    assert_eq!(f.start, 100);
}

#[test]
fn with_motion_off_nothing_lights() {
    let mut f = Flash::new();
    f.observe(1, 1_000, 0);
    f.observe(2, 1_000, 0);
    assert!(!f.live(1_000));
    assert_eq!(f.changed(2), vec![true]);
}
