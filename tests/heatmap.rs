use hsp_heatmap::colormap::{ColorMap, Rgb};
use hsp_heatmap::error::FieldError;
use hsp_heatmap::grid::SampleGrid;
use hsp_heatmap::maths::{ExtendedMathsF64, Level};
use hsp_heatmap::normalize::{bounds, normalize, ExtendedMathsIter};
use hsp_heatmap::render::{heat_pixels, Pixel};

const BLACK: Rgb = Rgb { r: 0, g: 0, b: 0 };
const RED: Rgb = Rgb { r: 255, g: 0, b: 0 };
const YELLOW: Rgb = Rgb { r: 255, g: 255, b: 0 };
const WHITE: Rgb = Rgb { r: 255, g: 255, b: 255 };
const BLUE: Rgb = Rgb { r: 0, g: 0, b: 255 };

fn lv(num: u64, den: u64) -> Level {
    Level { num, den }
}

#[test]
fn norm_rescales_value_exactly() {
    assert_eq!(5i64.norm((0, 10)), lv(5, 10));
    assert_eq!((-3i64).norm((-7, 9)), lv(4, 16));
    assert_eq!(i64::MAX.norm((i64::MIN, i64::MAX)), lv(u64::MAX, u64::MAX));
}

#[test]
fn grid_rejects_empty_and_oversized() {
    assert_eq!(SampleGrid::new(0, 4), Err(FieldError::EmptyGrid));
    assert_eq!(SampleGrid::new(4, 0), Err(FieldError::EmptyGrid));
    assert_eq!(SampleGrid::new(usize::MAX, 2), Err(FieldError::GridTooLarge));
    assert_eq!(SampleGrid::new(3, 2), Ok(SampleGrid { count_x: 3, count_y: 2 }));
}

#[test]
fn grid_cells_are_row_major() {
    let g = SampleGrid::new(3, 2).unwrap();
    assert_eq!(g.len(), 6);
    assert_eq!(g.cells(), vec![(0, 0), (1, 0), (2, 0), (0, 1), (1, 1), (2, 1)]);
    assert_eq!(g.cell(4), (1, 1));
}

#[test]
fn grid_covers_first_and_last_point() {
    let g = SampleGrid::new(7, 5).unwrap();
    let cells = g.cells();
    assert_eq!(cells.len(), 35);
    assert_eq!(cells[0], (0, 0));
    assert_eq!(cells[34], (6, 4));
}

#[test]
fn grid_cells_are_the_same_on_every_call() {
    let g = SampleGrid::new(4, 3).unwrap();
    assert_eq!(g.cells(), g.cells());
    let values: Vec<i64> = (0..12).map(|k| (k * 7 % 5) as i64).collect();
    let cmap = ColorMap::cold();
    assert_eq!(heat_pixels(&g, &values, &cmap), heat_pixels(&g, &values, &cmap));
}

#[test]
fn bounds_find_least_and_greatest() {
    assert_eq!(bounds(&vec![4, -2, 9, 0]), (-2, 9));
    assert_eq!(bounds(&vec![-5, -1, -3]), (-5, -1));
    assert_eq!(bounds(&vec![7]), (7, 7));
}

#[test]
fn normalize_maps_onto_unit_interval() {
    let out = normalize(&vec![10, 30, 20, 50]).unwrap();
    assert_eq!(out, vec![lv(0, 40), lv(20, 40), lv(10, 40), lv(40, 40)]);
}

#[test]
fn normalize_negative_field_reaches_one() {
    let out = normalize(&vec![-9, -4, -1]).unwrap();
    assert_eq!(out, vec![lv(0, 8), lv(5, 8), lv(8, 8)]);
}

#[test]
fn normalize_min_zero_max_one_all_in_range() {
    let values = vec![3, -8, 12, 0, 12, -8, 5];
    let out = normalize(&values).unwrap();
    assert!(out.iter().any(|l| l.num == 0));
    assert!(out.iter().any(|l| l.num == l.den));
    assert!(out.iter().all(|l| l.den > 0 && l.num <= l.den));
}

#[test]
fn normalize_keeps_order_of_values() {
    let values = vec![3, -8, 12, 0, 12, 5];
    let out = normalize(&values).unwrap();
    for i in 0..values.len() {
        for j in 0..values.len() {
            if values[i] > values[j] {
                assert!(out[i].num > out[j].num);
            }
            if values[i] == values[j] {
                assert_eq!(out[i], out[j]);
            }
        }
    }
}

#[test]
fn constant_field_is_degenerate() {
    let values = vec![5i64; 9];
    assert_eq!(bounds(&values), (5, 5));
    assert_eq!(normalize(&values), Err(FieldError::DegenerateField));
    assert_eq!(values.norm(), Err(FieldError::DegenerateField));
}

#[test]
fn empty_field_has_no_bounds() {
    assert_eq!(normalize(&Vec::new()), Err(FieldError::EmptyGrid));
}

#[test]
fn sequence_norm_matches_normalize() {
    let values = vec![2i64, 6, 4];
    assert_eq!(values.norm(), Ok(vec![lv(0, 4), lv(4, 4), lv(2, 4)]));
}

#[test]
fn colormap_needs_two_stops() {
    assert!(ColorMap::new(vec![]).is_none());
    assert!(ColorMap::new(vec![RED]).is_none());
    let m = ColorMap::new(vec![BLACK, WHITE]).unwrap();
    assert_eq!(m.stops, vec![BLACK, WHITE]);
}

#[test]
fn colormap_ends_are_first_and_last_stop() {
    let warm = ColorMap::warm();
    assert_eq!(warm.color_of(lv(0, 1)), BLACK);
    assert_eq!(warm.color_of(lv(0, 977)), BLACK);
    assert_eq!(warm.color_of(lv(1, 1)), WHITE);
    assert_eq!(warm.color_of(lv(977, 977)), WHITE);
    let cold = ColorMap::cold();
    assert_eq!(cold.color_of(lv(0, 5)), BLACK);
    assert_eq!(cold.color_of(lv(5, 5)), WHITE);
}

#[test]
fn colormap_midpoint_of_four_stops() {
    let warm = ColorMap::warm();
    assert_eq!(warm.color_of(lv(1, 2)), Rgb { r: 255, g: 128, b: 0 });
    assert_eq!(warm.color_of(lv(50, 100)), Rgb { r: 255, g: 128, b: 0 });
    let cold = ColorMap::cold();
    assert_eq!(cold.color_of(lv(1, 2)), Rgb { r: 0, g: 128, b: 255 });
}

#[test]
fn colormap_hits_inner_stops_and_interpolates() {
    let warm = ColorMap::warm();
    assert_eq!(warm.color_of(lv(1, 3)), RED);
    assert_eq!(warm.color_of(lv(2, 3)), YELLOW);
    // a quarter of the way from black to red: 255 / 4 = 63.75
    assert_eq!(warm.color_of(lv(1, 12)), Rgb { r: 64, g: 0, b: 0 });
    let two = ColorMap::new(vec![BLACK, BLUE]).unwrap();
    // 255 * 0.1 = 25.5 rounds up
    assert_eq!(two.color_of(lv(1, 10)), Rgb { r: 0, g: 0, b: 26 });
}

#[test]
fn colormap_clamps_above_one() {
    let warm = ColorMap::warm();
    assert_eq!(warm.color_of(lv(3, 2)), WHITE);
}

#[test]
fn heat_pixels_colors_each_grid_point() {
    let g = SampleGrid::new(2, 2).unwrap();
    let out = heat_pixels(&g, &vec![0, 10, 20, 30], &ColorMap::warm()).unwrap();
    assert_eq!(
        out,
        vec![
            Pixel { col: 0, row: 0, color: BLACK },
            Pixel { col: 1, row: 0, color: RED },
            Pixel { col: 0, row: 1, color: YELLOW },
            Pixel { col: 1, row: 1, color: WHITE },
        ]
    );
}

#[test]
fn heat_pixels_rejects_wrong_count_and_constant_field() {
    let g = SampleGrid::new(2, 2).unwrap();
    let warm = ColorMap::warm();
    assert_eq!(heat_pixels(&g, &vec![1, 2, 3], &warm), Err(FieldError::SampleCountMismatch));
    assert_eq!(heat_pixels(&g, &vec![5, 5, 5, 5], &warm), Err(FieldError::DegenerateField));
}

#[test]
fn norm_keeps_order_under_fixed_bounds() {
    let (a, b) = (7i64, -2i64);
    let (la, lb) = (a.norm((-5, 9)), b.norm((-5, 9)));
    assert_eq!(la.den, lb.den);
    assert!(la.num > lb.num);
    assert_eq!(a.norm((-5, 9)), la);
}

#[test]
fn grid_accepts_valid_counts() {
    let g = SampleGrid::new(800, 600).unwrap();
    assert_eq!(g.len(), 480000);
}
