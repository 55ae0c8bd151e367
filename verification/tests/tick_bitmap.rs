use plutus::tick_bitmap::{bitmap_word_to_search, next_initialized_tick_within_one_word, search_inputs_fit};
use plutus::word::U256;

// Initialized ticks (spacing 1): -200, -55, -4, 70, 78, 84, 139, 240, 535.
fn word_at(position: i16) -> U256 {
    match position {
        -1 => U256 { l0: 72057594037927936, l1: 0, l2: 0, l3: 1152921504606847488 },
        0 => U256 { l0: 0, l1: 1065024, l2: 2048, l3: 281474976710656 },
        2 => U256 { l0: 8388608, l1: 0, l2: 0, l3: 0 },
        _ => U256::zero(),
    }
}

fn next(tick: i32, lte: bool) -> (i32, bool) {
    let position = bitmap_word_to_search(tick, 1, lte);
    next_initialized_tick_within_one_word(word_at(position), tick, 1, lte)
}

#[test]
fn searching_up_finds_the_next_initialized_tick_to_the_right() {
    assert_eq!(next(78, false), (84, true));
    assert_eq!(next(-55, false), (-4, true));
    assert_eq!(next(77, false), (78, true));
    assert_eq!(next(-56, false), (-55, true));
    assert_eq!(next(-257, false), (-200, true));
    assert_eq!(next(-1, false), (70, true));
}

#[test]
fn searching_up_stops_at_the_end_of_an_empty_word() {
    assert_eq!(next(255, false), (511, false));
}

#[test]
fn searching_down_includes_the_tick_itself() {
    assert_eq!(next(78, true), (78, true));
    assert_eq!(next(79, true), (78, true));
    assert_eq!(next(72, true), (70, true));
    assert_eq!(next(-1, true), (-4, true));
}

#[test]
fn searching_down_stops_at_the_start_of_an_empty_word() {
    assert_eq!(next(258, true), (256, false));
    assert_eq!(next(256, true), (256, false));
    assert_eq!(next(-257, true), (-512, false));
    assert_eq!(next(1023, true), (768, false));
    assert_eq!(next(900, true), (768, false));
}

#[test]
fn the_word_searched_rounds_ticks_towards_negative_infinity() {
    assert_eq!(bitmap_word_to_search(-5, 10, true), -1);
    assert_eq!(bitmap_word_to_search(0, 10, true), 0);
    assert_eq!(bitmap_word_to_search(2559, 10, true), 0);
    assert_eq!(bitmap_word_to_search(2559, 10, false), 1);
    assert_eq!(bitmap_word_to_search(-2560, 10, true), -1);
    assert_eq!(bitmap_word_to_search(-2561, 10, true), -2);
}

#[test]
fn spacing_scales_the_ticks_found() {
    // With spacing 60, compressed tick 1 is initialized: tick 60.
    let word = U256::from_u64(2);
    assert_eq!(next_initialized_tick_within_one_word(word, 100, 60, true), (60, true));
    assert_eq!(next_initialized_tick_within_one_word(word, 0, 60, false), (60, true));
    assert_eq!(next_initialized_tick_within_one_word(word, -30, 60, true), (-255 * 60, true));
}

#[test]
fn the_search_stays_within_one_word() {
    for tick in [-70000, -257, -256, -1, 0, 255, 256, 70000] {
        for lte in [true, false] {
            let (found, _) = next_initialized_tick_within_one_word(U256::zero(), tick, 1, lte);
            let start = if lte { tick } else { tick + 1 };
            assert_eq!(found.div_euclid(256), start.div_euclid(256));
        }
    }
}

#[test]
fn wide_spacings_search_as_far_as_32_bit_ticks_reach() {
    let spacing = 1 << 20;
    assert!(search_inputs_fit(0, spacing, true));
    assert!(search_inputs_fit(0, spacing, false));
    assert_eq!(next_initialized_tick_within_one_word(U256::zero(), 0, spacing, true), (0, false));
    assert_eq!(next_initialized_tick_within_one_word(U256::zero(), 0, spacing, false), (255 * spacing, false));
    // With a spacing of 2^24 the word above reaches past 2^31.
    assert!(search_inputs_fit(0, 1 << 24, true));
    assert!(!search_inputs_fit(0, 1 << 24, false));
    assert!(!search_inputs_fit(i32::MAX, 1, false));
    assert!(!search_inputs_fit(5, 0, true));
}
