use ymir::texture::{
    band_index, color_for_height, gap_color, to_color_vec, to_rgba_vec, ColorConfig, ColorRange,
    Rgb8,
};

fn rgb(r: u8, g: u8, b: u8) -> Rgb8 {
    Rgb8 { r, g, b }
}

fn config() -> ColorConfig {
    ColorConfig {
        colors: vec![
            ColorRange { color: rgb(10, 10, 10), start_height: 30 },
            ColorRange { color: rgb(255, 255, 255), start_height: 99 },
            ColorRange { color: rgb(20, 20, 20), start_height: -100 },
            ColorRange { color: rgb(128, 128, 128), start_height: 70 },
        ],
    }
}

#[test]
fn band_is_highest_start_below_value() {
    let c = config();
    assert_eq!(band_index(&c.colors, 100), Some(1));
    assert_eq!(band_index(&c.colors, 99), Some(3));
    assert_eq!(band_index(&c.colors, 71), Some(3));
    assert_eq!(band_index(&c.colors, 50), Some(0));
    assert_eq!(band_index(&c.colors, 0), Some(2));
    assert_eq!(band_index(&c.colors, -100), None);
}

#[test]
fn equal_starts_take_the_first_band() {
    let colors = vec![
        ColorRange { color: rgb(1, 1, 1), start_height: 5 },
        ColorRange { color: rgb(2, 2, 2), start_height: 5 },
    ];
    assert_eq!(band_index(&colors, 6), Some(0));
}

#[test]
fn value_below_every_band_is_magenta() {
    let c = config();
    assert_eq!(gap_color(), rgb(255, 0, 255));
    assert_eq!(color_for_height(&c, -500), rgb(255, 0, 255));
    let empty = ColorConfig { colors: vec![] };
    assert_eq!(color_for_height(&empty, 0), rgb(255, 0, 255));
}

#[test]
fn band_choice_is_monotonic_in_height() {
    let c = config();
    let mut last = i64::MIN;
    for v in -200..200 {
        if let Some(i) = band_index(&c.colors, v) {
            let start = c.colors[i].start_height;
            assert!(start >= last);
            last = start;
        }
    }
}

#[test]
fn color_texture_bytes() {
    let c = config();
    let data = to_color_vec(&vec![100, 50, -200, 75], &c);
    assert_eq!(
        data,
        vec![255, 255, 255, 255, 10, 10, 10, 255, 255, 0, 255, 255, 128, 128, 128, 255]
    );
}

#[test]
fn color_texture_twice_is_identical() {
    let c = config();
    let values: Vec<i64> = (-150..150).collect();
    assert_eq!(to_color_vec(&values, &c), to_color_vec(&values, &c));
}

#[test]
fn rgba_packing_is_opaque_row_major() {
    let data = to_rgba_vec(&vec![rgb(1, 2, 3), rgb(4, 5, 6)]);
    assert_eq!(data, vec![1, 2, 3, 255, 4, 5, 6, 255]);
    assert!(to_rgba_vec(&vec![]).is_empty());
}
