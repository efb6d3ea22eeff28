use rustsweeper::{GemAnimation, Region};

#[test]
fn animation_is_centred() {
    let gem = GemAnimation::new(300);
    assert_eq!(gem.screen_region(), Region { x: 118, y: 20, width: 64, height: 64 });
    let gem = GemAnimation::new(64);
    assert_eq!(gem.screen_region(), Region { x: 0, y: 20, width: 64, height: 64 });
    let gem = GemAnimation::new(65);
    assert_eq!(gem.screen_region(), Region { x: 0, y: 20, width: 64, height: 64 });
}

#[test]
fn animation_in_a_narrow_window_hangs_over_the_edge() {
    let gem = GemAnimation::new(0);
    assert_eq!(gem.screen_region(), Region { x: -32, y: 20, width: 64, height: 64 });
    let gem = GemAnimation::new(20);
    assert_eq!(gem.screen_region(), Region { x: -22, y: 20, width: 64, height: 64 });
}

#[test]
fn animation_rests_until_played() {
    let mut gem = GemAnimation::new(300);
    assert_eq!(gem.source_region(), Region { x: 0, y: 32, width: 64, height: 64 });
    gem.advance();
    gem.advance();
    assert_eq!(gem.source_region(), Region { x: 0, y: 32, width: 64, height: 64 });
}

#[test]
fn animation_runs_to_its_last_frame_and_stays() {
    let mut gem = GemAnimation::new(300);
    gem.play();
    assert_eq!(gem.source_region(), Region { x: 0, y: 32, width: 64, height: 64 });
    for frame in 1..=8 {
        gem.advance();
        assert_eq!(gem.source_region(), Region { x: 64 * frame, y: 32, width: 64, height: 64 });
    }
    gem.advance();
    gem.advance();
    assert_eq!(gem.source_region(), Region { x: 512, y: 32, width: 64, height: 64 });
    assert_eq!(gem.screen_region(), Region { x: 118, y: 20, width: 64, height: 64 });
}

#[test]
fn playing_twice_is_playing_once() {
    let mut gem = GemAnimation::new(300);
    gem.play();
    gem.advance();
    gem.play();
    assert_eq!(gem.source_region(), Region { x: 64, y: 32, width: 64, height: 64 });
}
