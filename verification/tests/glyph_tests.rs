use ascii_frame::glyph::{channel_sum, glyph_for_sum, BUCKET_WIDTH, MAX_CHANNEL_SUM};

const TABLE: [&str; 26] = [
    "i", "n", "a", "b", "c", "d", "e", "f", "g", "h", "j", "k", "l", "m", "o", "p", "q", "r", "s",
    "t", "u", "v", "w", "x", "y", "z",
];

#[test]
fn darkest_sum_is_i() {
    assert_eq!(glyph_for_sum(0), "i");
}

#[test]
fn sum_400_is_m() {
    assert_eq!(glyph_for_sum(400), "m");
}

#[test]
fn brightest_sum_is_z() {
    assert_eq!(glyph_for_sum(765), "z");
}

#[test]
fn every_reachable_sum_maps_through_the_table() {
    for sum in 0u32..=765 {
        let bucket = (sum / 30) as usize;
        assert_eq!(glyph_for_sum(sum), TABLE[bucket], "sum {}", sum);
    }
}

#[test]
fn last_fifteen_sums_are_z() {
    for sum in 751u32..=765 {
        assert_eq!(glyph_for_sum(sum), "z");
    }
}

#[test]
fn bucket_edges() {
    assert_eq!(glyph_for_sum(29), "i");
    assert_eq!(glyph_for_sum(30), "n");
    assert_eq!(glyph_for_sum(59), "n");
    assert_eq!(glyph_for_sum(60), "a");
    assert_eq!(glyph_for_sum(359), "k");
    assert_eq!(glyph_for_sum(360), "l");
    assert_eq!(glyph_for_sum(749), "y");
    assert_eq!(glyph_for_sum(750), "z");
}

#[test]
fn sums_beyond_the_range_get_the_default_glyph() {
    assert_eq!(glyph_for_sum(766), ".");
    assert_eq!(glyph_for_sum(779), ".");
    assert_eq!(glyph_for_sum(780), ".");
    assert_eq!(glyph_for_sum(10_000), ".");
    assert_eq!(glyph_for_sum(u32::MAX), ".");
}

#[test]
fn glyph_is_one_character() {
    for sum in 0u32..=800 {
        assert_eq!(glyph_for_sum(sum).chars().count(), 1);
    }
}

#[test]
fn channel_sum_adds_the_three_channels() {
    assert_eq!(channel_sum((0, 0, 0)), 0);
    assert_eq!(channel_sum((1, 2, 3)), 6);
    assert_eq!(channel_sum((255, 0, 0)), 255);
    assert_eq!(channel_sum((100, 200, 100)), 400);
    assert_eq!(channel_sum((255, 255, 255)), 765);
}

#[test]
fn channel_sum_never_leaves_the_range() {
    for r in [0u8, 1, 127, 254, 255] {
        for g in [0u8, 1, 127, 254, 255] {
            for b in [0u8, 1, 127, 254, 255] {
                let sum = channel_sum((r, g, b));
                assert_eq!(sum, r as u32 + g as u32 + b as u32);
                assert!(sum <= MAX_CHANNEL_SUM);
            }
        }
    }
}

#[test]
fn constants_have_their_values() {
    assert_eq!(BUCKET_WIDTH, 30);
    assert_eq!(MAX_CHANNEL_SUM, 765);
}
