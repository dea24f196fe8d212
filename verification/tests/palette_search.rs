use palette_remap::color::{distance, Color, Pixel, MAX_SQUARED_DISTANCE};
use palette_remap::palette::{closest_color, Palette, PaletteError};

fn palette_of(colors: &[(u8, u8, u8)]) -> Palette {
    let list: Vec<Color> = colors.iter().map(|&(r, g, b)| Color::new(r, g, b)).collect();
    Palette::new(list).expect("a non-empty list makes a palette")
}

#[test]
fn constructors_fill_the_channels() {
    assert_eq!(Color::new(1, 2, 3), Color { r: 1, g: 2, b: 3 });
    assert_eq!(
        Pixel::new(1, 2, 3, 4),
        Pixel { color: Color { r: 1, g: 2, b: 3 }, alpha: 4 }
    );
}

#[test]
fn distance_is_the_sum_of_squared_channel_gaps() {
    let query = Pixel::new(10, 200, 30, 77);
    let entry = Color::new(13, 196, 42);
    // 3^2 + 4^2 + 12^2
    assert_eq!(distance(&query, &entry), 169);
}

#[test]
fn distance_does_not_underflow_when_the_entry_is_brighter() {
    let query = Pixel::new(0, 0, 0, 255);
    let entry = Color::new(10, 10, 10);
    assert_eq!(distance(&query, &entry), 300);
    let query = Pixel::new(10, 10, 10, 255);
    let entry = Color::new(0, 0, 0);
    assert_eq!(distance(&query, &entry), 300);
}

#[test]
fn distance_ignores_alpha() {
    let entry = Color::new(1, 1, 1);
    assert_eq!(
        distance(&Pixel::new(4, 5, 6, 0), &entry),
        distance(&Pixel::new(4, 5, 6, 255), &entry)
    );
}

#[test]
fn distance_of_equal_colours_is_zero() {
    assert_eq!(distance(&Pixel::new(9, 8, 7, 1), &Color::new(9, 8, 7)), 0);
}

#[test]
fn distance_reaches_its_maximum_between_black_and_white() {
    let d = distance(&Pixel::new(0, 0, 0, 0), &Color::new(255, 255, 255));
    assert_eq!(d, 195075);
    assert_eq!(d, MAX_SQUARED_DISTANCE);
}

#[test]
fn empty_list_makes_no_palette() {
    let built = Palette::new(Vec::new());
    assert!(matches!(built, Err(PaletteError::NotEnoughDataError)));
}

#[test]
fn palette_keeps_its_colours_in_order() {
    let palette = palette_of(&[(3, 3, 3), (1, 1, 1), (2, 2, 2)]);
    assert_eq!(
        palette.colors(),
        &vec![Color::new(3, 3, 3), Color::new(1, 1, 1), Color::new(2, 2, 2)]
    );
}

#[test]
fn cloned_palette_holds_the_same_colours() {
    let palette = palette_of(&[(3, 3, 3), (1, 1, 1)]);
    let copy = palette.clone();
    assert_eq!(copy.colors(), palette.colors());
}

#[test]
fn closest_picks_the_nearest_entry() {
    let palette = palette_of(&[(10, 10, 10), (240, 240, 240)]);
    assert_eq!(palette.closest_to(&Pixel::new(0, 0, 0, 255)), Pixel::new(10, 10, 10, 255));
    assert_eq!(
        palette.closest_to(&Pixel::new(255, 255, 255, 128)),
        Pixel::new(240, 240, 240, 128)
    );
}

#[test]
fn closest_on_single_entry_always_gives_it() {
    let palette = palette_of(&[(7, 8, 9)]);
    assert_eq!(palette.closest_to(&Pixel::new(255, 0, 128, 3)), Pixel::new(7, 8, 9, 3));
}

#[test]
fn closest_can_pick_a_later_entry_that_is_strictly_closer() {
    let palette = palette_of(&[(0, 0, 0), (100, 100, 100), (200, 200, 200)]);
    assert_eq!(
        palette.closest_to(&Pixel::new(190, 190, 190, 9)),
        Pixel::new(200, 200, 200, 9)
    );
    assert_eq!(
        palette.closest_to(&Pixel::new(90, 110, 100, 9)),
        Pixel::new(100, 100, 100, 9)
    );
}

#[test]
fn duplicate_entries_answer_with_their_colour() {
    let palette = palette_of(&[(50, 60, 70), (50, 60, 70)]);
    for query in [Pixel::new(0, 0, 0, 1), Pixel::new(50, 60, 70, 2), Pixel::new(255, 255, 255, 3)] {
        assert_eq!(palette.closest_to(&query).color, Color::new(50, 60, 70));
    }
}

#[test]
fn tie_goes_to_the_first_entry() {
    // Both entries are at squared distance 100 from the query.
    let query = Pixel::new(100, 100, 100, 42);
    let first = palette_of(&[(90, 100, 100), (110, 100, 100)]);
    assert_eq!(first.closest_to(&query), Pixel::new(90, 100, 100, 42));
    let swapped = palette_of(&[(110, 100, 100), (90, 100, 100)]);
    assert_eq!(swapped.closest_to(&query), Pixel::new(110, 100, 100, 42));
}

#[test]
fn tie_between_different_channels_goes_to_the_first_entry() {
    let query = Pixel::new(0, 0, 0, 0);
    let palette = palette_of(&[(255, 255, 255), (0, 5, 0), (5, 0, 0), (0, 0, 5)]);
    assert_eq!(palette.closest_to(&query).color, Color::new(0, 5, 0));
}

#[test]
fn alpha_passes_through_for_every_value() {
    let palette = palette_of(&[(10, 20, 30), (200, 100, 50)]);
    for alpha in 0..=255u8 {
        let out = palette.closest_to(&Pixel::new(120, 130, 140, alpha));
        assert_eq!(out.alpha, alpha);
    }
}

#[test]
fn exact_match_is_kept() {
    let entries = [(10, 20, 30), (11, 20, 30), (200, 100, 50), (0, 0, 0), (255, 255, 255)];
    let palette = palette_of(&entries);
    for &(r, g, b) in entries.iter() {
        let query = Pixel::new(r, g, b, 17);
        assert_eq!(palette.closest_to(&query), query);
    }
}

#[test]
fn closest_color_agrees_with_the_palette_method() {
    let colors = vec![Color::new(1, 2, 3), Color::new(100, 2, 3), Color::new(1, 200, 3)];
    let palette = Palette::new(colors.clone()).expect("three colours");
    for query in [Pixel::new(0, 0, 0, 5), Pixel::new(90, 0, 0, 6), Pixel::new(0, 150, 0, 7)] {
        assert_eq!(closest_color(&query, &colors), palette.closest_to(&query));
    }
    assert_eq!(closest_color(&Pixel::new(90, 0, 0, 6), &colors), Pixel::new(100, 2, 3, 6));
}

#[test]
fn closest_matches_a_brute_force_search() {
    let entries = [(12, 200, 7), (90, 90, 90), (255, 0, 0), (0, 255, 0), (0, 0, 255), (90, 90, 91)];
    let palette = palette_of(&entries);
    let mut seed: u32 = 12345;
    for _ in 0..500 {
        seed = seed.wrapping_mul(1664525).wrapping_add(1013904223);
        let bytes = seed.to_le_bytes();
        let query = Pixel::new(bytes[0], bytes[1], bytes[2], bytes[3]);
        let mut best = 0usize;
        let mut best_distance = u32::MAX;
        for (i, &(r, g, b)) in entries.iter().enumerate() {
            let d = distance(&query, &Color::new(r, g, b));
            if d < best_distance {
                best = i;
                best_distance = d;
            }
        }
        let (r, g, b) = entries[best];
        assert_eq!(palette.closest_to(&query), Pixel::new(r, g, b, bytes[3]));
    }
}
