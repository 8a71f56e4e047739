//! The chunk texture: one opaque RGBA8 texel per grid cell, row by row.
//!
//! Heights reach this module as order keys: integers that compare exactly as
//! the normalized heights they stand for. Colour banding reads nothing of a
//! height but its order.

use vstd::prelude::*;

verus! {

/// An 8-bit RGB colour.
#[derive(Clone, Copy, Debug, PartialEq, Eq, Structural)]
pub struct Rgb8 {
    pub r: u8,
    pub g: u8,
    pub b: u8,
}

/// A colour band: heights above `start_height` may take `color`.
#[derive(Clone, Copy, Debug, PartialEq, Eq, Structural)]
pub struct ColorRange {
    pub color: Rgb8,
    /// The start of the band, as a height order key.
    pub start_height: i64,
}

/// The colour bands of the terrain texture, in any order.
pub struct ColorConfig {
    pub colors: Vec<ColorRange>,
}

/// The colour of a height that no band covers: magenta, which marks a gap in
/// the configuration.
pub open spec fn spec_gap_color() -> Rgb8 {
    Rgb8 { r: 255, g: 0, b: 255 }
}

/// Some band starts below `v`.
pub open spec fn has_band(ranges: Seq<ColorRange>, v: int) -> bool {
    exists|j: int| 0 <= j < ranges.len() && #[trigger] ranges[j].start_height < v
}

/// Band `i` is the one chosen for `v`: of the bands that start below `v`, it
/// has the highest start, and it comes first among bands with that start.
pub open spec fn is_band_for(ranges: Seq<ColorRange>, v: int, i: int) -> bool {
    &&& 0 <= i < ranges.len()
    &&& ranges[i].start_height < v
    &&& forall|j: int|
        0 <= j < ranges.len() && #[trigger] ranges[j].start_height < v ==> ranges[j].start_height
            < ranges[i].start_height || (ranges[j].start_height == ranges[i].start_height && i
            <= j)
}

/// The colour of the band chosen for `v`, or the gap colour when none is.
pub open spec fn band_color(ranges: Seq<ColorRange>, v: int) -> Rgb8 {
    if has_band(ranges, v) {
        ranges[choose|i: int| is_band_for(ranges, v, i)].color
    } else {
        spec_gap_color()
    }
}

/// The texture bytes of a row-major sequence of colours: red, green, blue
/// and an opaque alpha for each.
pub open spec fn texture_bytes(cells: Seq<Rgb8>) -> Seq<u8>
    decreases cells.len(),
{
    if cells.len() == 0 {
        Seq::empty()
    } else {
        let c = cells.last();
        texture_bytes(cells.drop_last()) + seq![c.r, c.g, c.b, 255u8]
    }
}

/// The colour of each cell in color mode.
pub open spec fn banded_cells(ranges: Seq<ColorRange>, values: Seq<i64>) -> Seq<Rgb8> {
    values.map_values(|v: i64| band_color(ranges, v as int))
}

proof fn lemma_band_unique(ranges: Seq<ColorRange>, v: int, i: int, j: int)
    requires
        is_band_for(ranges, v, i),
        is_band_for(ranges, v, j),
    ensures
        i == j,
{
    assert(ranges[j].start_height < v);
    assert(ranges[i].start_height < v);
}

proof fn lemma_band_color_of(ranges: Seq<ColorRange>, v: int, i: int)
    requires
        is_band_for(ranges, v, i),
    ensures
        band_color(ranges, v) == ranges[i].color,
{
    assert(has_band(ranges, v));
    let k = choose|k: int| is_band_for(ranges, v, k);
    lemma_band_unique(ranges, v, i, k);
}

/// Raising the height never chooses a band with a lower start: if a band is
/// chosen for `v1`, some band is chosen for every `v2 >= v1`, and it starts
/// no lower.
pub proof fn lemma_band_choice_monotonic(ranges: Seq<ColorRange>, v1: int, v2: int, i1: int)
    requires
        v1 <= v2,
        is_band_for(ranges, v1, i1),
    ensures
        has_band(ranges, v2),
        forall|i2: int|
            #[trigger] is_band_for(ranges, v2, i2) ==> ranges[i1].start_height
                <= ranges[i2].start_height,
{
    assert(ranges[i1].start_height < v2);
}

proof fn lemma_texture_bytes_len(cells: Seq<Rgb8>)
    ensures
        texture_bytes(cells).len() == 4 * cells.len(),
    decreases cells.len(),
{
    if cells.len() > 0 {
        lemma_texture_bytes_len(cells.drop_last());
    }
}

/// The colour of a height that no band covers.
pub fn gap_color() -> (r: Rgb8)
    ensures
        r == spec_gap_color(),
{
    Rgb8 { r: 255, g: 0, b: 255 }
}

/// The index of the band chosen for `value`, if some band starts below it.
pub fn band_index(colors: &Vec<ColorRange>, value: i64) -> (r: Option<usize>)
    ensures
        match r {
            Some(i) => is_band_for(colors@, value as int, i as int),
            None => !has_band(colors@, value as int),
        },
{
    let mut best: Option<usize> = None;
    let mut j: usize = 0;
    while j < colors.len()
        invariant
            j <= colors@.len(),
            match best {
                Some(i) => is_band_for(colors@.subrange(0, j as int), value as int, i as int),
                None => !has_band(colors@.subrange(0, j as int), value as int),
            },
        decreases colors@.len() - j,
    {
        let ghost prev = colors@.subrange(0, j as int);
        let ghost next = colors@.subrange(0, j + 1);
        assert(forall|k: int| 0 <= k < j ==> next[k] == prev[k]);
        let start = colors[j].start_height;
        if start < value {
            match best {
                Some(i) => {
                    if colors[i].start_height < start {
                        best = Some(j);
                    }
                },
                None => {
                    best = Some(j);
                },
            }
        }
        assert(match best {
            Some(i) => is_band_for(next, value as int, i as int),
            None => !has_band(next, value as int),
        }) by {
            if has_band(next, value as int) {
                let k = choose|k: int| 0 <= k < next.len() && #[trigger] next[k].start_height < value;
                if k < j {
                    assert(prev[k].start_height < value);
                }
            }
        }
        j = j + 1;
    }
    assert(colors@.subrange(0, colors@.len() as int) == colors@);
    best
}

/// The colour of the band chosen for `value`, or the gap colour.
pub fn color_for_height(config: &ColorConfig, value: i64) -> (r: Rgb8)
    ensures
        r == band_color(config.colors@, value as int),
{
    match band_index(&config.colors, value) {
        Some(i) => {
            proof {
                lemma_band_color_of(config.colors@, value as int, i as int);
            }
            config.colors[i].color
        },
        None => gap_color(),
    }
}

/// The RGBA8 bytes of a row-major sequence of colours, alpha always opaque.
pub fn to_rgba_vec(cells: &Vec<Rgb8>) -> (r: Vec<u8>)
    requires
        4 * cells@.len() <= usize::MAX,
    ensures
        r@ == texture_bytes(cells@),
        r@.len() == 4 * cells@.len(),
{
    let mut data: Vec<u8> = Vec::new();
    let mut i: usize = 0;
    while i < cells.len()
        invariant
            i <= cells@.len(),
            data@ == texture_bytes(cells@.subrange(0, i as int)),
        decreases cells@.len() - i,
    {
        let c = cells[i];
        let ghost prev = cells@.subrange(0, i as int);
        assert(cells@.subrange(0, i + 1).drop_last() =~= prev);
        data.push(c.r);
        data.push(c.g);
        data.push(c.b);
        data.push(255);
        assert(data@ =~= texture_bytes(prev) + seq![c.r, c.g, c.b, 255u8]);
        i = i + 1;
    }
    assert(cells@.subrange(0, cells@.len() as int) == cells@);
    proof {
        lemma_texture_bytes_len(cells@);
    }
    data
}

/// The color-mode texture: each cell takes the colour of the band chosen for
/// its height key, or the gap colour.
pub fn to_color_vec(values: &Vec<i64>, config: &ColorConfig) -> (r: Vec<u8>)
    requires
        4 * values@.len() <= usize::MAX,
    ensures
        r@ == texture_bytes(banded_cells(config.colors@, values@)),
        r@.len() == 4 * values@.len(),
{
    let mut cells: Vec<Rgb8> = Vec::new();
    let mut i: usize = 0;
    while i < values.len()
        invariant
            i <= values@.len(),
            cells@ == banded_cells(config.colors@, values@.subrange(0, i as int)),
        decreases values@.len() - i,
    {
        let c = color_for_height(config, values[i]);
        cells.push(c);
        assert(cells@ =~= banded_cells(config.colors@, values@.subrange(0, i + 1)));
        i = i + 1;
    }
    assert(values@.subrange(0, values@.len() as int) == values@);
    to_rgba_vec(&cells)
}

} // verus!
