use space_plot::geometry::{cell_of, Coord, Point, Rect};
use space_plot::render::{gps_coordspace, render, render_point, to_text, Plot, Skip, Style, WORLD_MAP};

fn at(x: i64, y: i64) -> Point {
    Point { x: Coord::from_int(x), y: Coord::from_int(y), color: None, name: None, point: None }
}

fn rect(x: i32, y: i32, w: i32, h: i32) -> Rect {
    Rect { x, y, w, h }
}

fn unit_space_plot(size: usize) -> Plot {
    let side = size as i32;
    Plot {
        map: Plot::make_blank(size, size).map,
        map_coordinates: rect(0, 0, side, side),
        point_coordinates: rect(0, 0, side, side),
    }
}

fn cell_text(r: &space_plot::render::Rendering, row: usize, col: usize) -> String {
    r.cells[row][col].text.iter().collect()
}

#[test]
fn test_coord_transform() {
    let point = at(50, 50);
    let to = rect(0, 0, 1, 1);

    let r = point.transform(&rect(0, 0, 100, 100), &to);
    assert!(r.x.same_value(&Coord::new(1, 2)));
    assert!(r.y.same_value(&Coord::new(1, 2)));
    assert_eq!(r.color, None);
    assert_eq!(r.name, None);
    assert_eq!(r.point, None);

    let r = point.transform(&rect(50, 50, 100, 100), &to);
    assert!(r.x.same_value(&Coord::from_int(0)));
    assert!(r.y.same_value(&Coord::from_int(0)));

    let r = point.transform(&rect(100, 100, 100, 100), &to);
    assert!(r.x.same_value(&Coord::new(-1, 2)));
    assert!(r.y.same_value(&Coord::new(-1, 2)));

    let r = point.transform(&rect(0, 0, 50, 50), &to);
    assert!(r.x.same_value(&Coord::from_int(1)));
    assert!(r.y.same_value(&Coord::from_int(1)));
}

#[test]
fn transform_linearity_fixed_points() {
    let from = rect(0, 0, 100, 100);
    let to = rect(0, 0, 1, 1);
    let half = at(50, 50).transform(&from, &to);
    assert!(half.x.same_value(&Coord::new(1, 2)) && half.y.same_value(&Coord::new(1, 2)));
    assert!(!half.x.same_value(&Coord::new(1, 3)));
    let zero = at(0, 0).transform(&from, &to);
    assert!(zero.x.same_value(&Coord::from_int(0)) && zero.y.same_value(&Coord::from_int(0)));
    let one = at(100, 100).transform(&from, &to);
    assert!(one.x.same_value(&Coord::from_int(1)) && one.y.same_value(&Coord::from_int(1)));
    assert!(one.x.den > 0 && one.y.den > 0);
}

#[test]
fn transform_identity_keeps_values_and_attributes() {
    let r = rect(-7, 3, -12, 9);
    let p = Point {
        x: Coord::new(5, 3),
        y: Coord::new(-11, 4),
        color: Some(colored::Color::Red),
        name: Some("home".to_string()),
        point: Some("#".to_string()),
    };
    let q = p.transform(&r, &r);
    assert!(q.x.same_value(&p.x));
    assert!(q.y.same_value(&p.y));
    assert_eq!(q.color, Some(colored::Color::Red));
    assert_eq!(q.name, Some("home".to_string()));
    assert_eq!(q.point, Some("#".to_string()));
}

#[test]
fn transform_inverts_axis_with_negative_extent() {
    let from = rect(0, 0, 10, 10);
    let to = rect(0, 22, 70, -22);
    let low = at(0, 2).transform(&from, &to);
    let high = at(0, 7).transform(&from, &to);
    // low.y > high.y as fractions with positive denominators
    assert!((low.y.num as i128) * (high.y.den as i128) > (high.y.num as i128) * (low.y.den as i128));
    assert!(low.y.same_value(&Coord::new(88, 5)));
    assert!(high.y.same_value(&Coord::new(33, 5)));
}

#[test]
fn gps_transform_onto_world_map() {
    let p = at(-70, 40).transform(&gps_coordspace(), &rect(4, 2, 70, 22));
    // x = 110/360*70 + 4, y = (40-90)/-180*22 + 2
    assert!(p.x.same_value(&Coord::new(7700 + 4 * 360, 360)));
    assert!(p.y.same_value(&Coord::new(1100 + 2 * 180, 180)));
}

#[test]
fn cell_of_truncates_absolute_value() {
    // (-3/2 - 0)/1 * 1 + 0 = -1.5 -> 1
    assert_eq!(cell_of(&Coord::new(-3, 2), 0, 1, 0, 1), 1);
    // (7/2 - 1)/2 * 4 + 1 = 6 -> 6
    assert_eq!(cell_of(&Coord::new(7, 2), 1, 2, 1, 4), 6);
    assert_eq!(cell_of(&Coord::new(-1, 3), 0, 1, 0, 1), 0);
}

#[test]
fn marker_placement_on_blank_canvas() {
    let mut p = at(0, 0);
    p.point = Some("X".to_string());
    let r = render(&vec![p], &Plot::make_blank(5, 5));
    assert!(r.skipped.is_empty());
    for row in 0..5 {
        for col in 0..5 {
            let expected = if row == 2 && col == 2 { "X" } else { " " };
            assert_eq!(cell_text(&r, row, col), expected);
        }
    }
    assert!(matches!(r.cells[2][2].style, Style::Bold(None)));
    assert!(matches!(r.cells[0][0].style, Style::Dim));
    assert_eq!(to_text(&r.cells), "     \n     \n  X  \n     \n     ");
}

#[test]
fn default_marker_is_star_and_color_is_kept() {
    let mut p = at(0, 0);
    p.color = Some(colored::Color::Green);
    let r = render(&vec![p], &Plot::make_blank(5, 5));
    assert_eq!(cell_text(&r, 2, 2), "*");
    assert!(matches!(r.cells[2][2].style, Style::Bold(Some(colored::Color::Green))));
}

#[test]
fn label_overlay_two_columns_right() {
    let mut p = at(1, 1);
    p.name = Some("AB".to_string());
    let r = render(&vec![p], &unit_space_plot(5));
    assert_eq!(cell_text(&r, 1, 1), "*");
    assert_eq!(cell_text(&r, 1, 2), " ");
    assert_eq!(cell_text(&r, 1, 3), "A");
    assert_eq!(cell_text(&r, 1, 4), "B");
    assert!(matches!(r.cells[1][3].style, Style::Plain));
    assert_eq!(r.cells[1].len(), 5);
}

#[test]
fn label_overlay_is_cut_at_row_end() {
    let mut p = at(1, 1);
    p.name = Some("ABCDE".to_string());
    let r = render(&vec![p], &unit_space_plot(5));
    assert_eq!(r.cells[1].len(), 5);
    assert_eq!(to_text(&r.cells), "     \n * AB\n     \n     \n     ");
}

#[test]
fn multibyte_label_is_one_cell_per_character() {
    let mut p = at(0, 0);
    p.name = Some("é✓".to_string());
    let r = render(&vec![p], &unit_space_plot(5));
    assert_eq!(cell_text(&r, 0, 2), "é");
    assert_eq!(cell_text(&r, 0, 3), "✓");
}

#[test]
fn later_point_overwrites_same_cell() {
    let mut first = at(2, 2);
    first.point = Some("X".to_string());
    let mut second = at(2, 2);
    second.point = Some("Y".to_string());
    let r = render(&vec![first.clone(), second.clone()], &unit_space_plot(5));
    assert_eq!(cell_text(&r, 2, 2), "Y");
    let r = render(&vec![second, first], &unit_space_plot(5));
    assert_eq!(cell_text(&r, 2, 2), "X");
}

#[test]
fn out_of_bounds_point_is_skipped() {
    let inside = at(0, 0);
    let far = at(5, 1);
    let below = at(1, 9);
    let r = render(&vec![far, inside, below], &unit_space_plot(5));
    assert_eq!(to_text(&r.cells), "*    \n     \n     \n     \n     ");
    assert_eq!(
        r.skipped,
        vec![Skip { index: 0, at: Some((5, 1)) }, Skip { index: 2, at: Some((1, 9)) }]
    );
}

#[test]
fn negative_coordinates_are_reflected() {
    let r = render(&vec![at(-2, -1)], &unit_space_plot(5));
    assert_eq!(cell_text(&r, 1, 2), "*");
    assert!(r.skipped.is_empty());
}

#[test]
fn degenerate_source_space_skips_every_point() {
    let plot = Plot {
        map: Plot::make_blank(3, 3).map,
        map_coordinates: rect(0, 0, 3, 3),
        point_coordinates: rect(0, 0, 0, 3),
    };
    let r = render(&vec![at(1, 1), at(0, 0)], &plot);
    assert_eq!(to_text(&r.cells), "   \n   \n   ");
    assert_eq!(r.skipped, vec![Skip { index: 0, at: None }, Skip { index: 1, at: None }]);
}

#[test]
fn empty_render_round_trips_blank_canvas() {
    let plot = Plot::make_blank(4, 3);
    let r = render(&vec![], &plot);
    assert_eq!(to_text(&r.cells), plot.map);
    assert_eq!(r.cells.len(), 3);
    assert!(r.cells.iter().all(|row| row.len() == 4 && row.iter().all(|c| matches!(c.style, Style::Dim))));
}

#[test]
fn make_blank_builds_spaces_and_rect() {
    let plot = Plot::make_blank(3, 2);
    assert_eq!(plot.map, "   \n   ");
    assert_eq!(plot.map_coordinates, rect(0, 0, 3, 2));
    assert_eq!(plot.point_coordinates, rect(-180, 90, 360, -180));
    assert_eq!(Plot::make_blank(0, 0).map, "");
}

#[test]
fn default_plot_uses_world_map() {
    let plot = Plot::default();
    assert_eq!(plot.map, WORLD_MAP);
    assert_eq!(plot.map_coordinates, rect(4, 2, 70, 22));
    assert_eq!(plot.point_coordinates, gps_coordspace());
    let r = render(&vec![], &plot);
    assert_eq!(to_text(&r.cells), WORLD_MAP);
    assert_eq!(r.cells.len(), WORLD_MAP.split('\n').count());
}

#[test]
fn world_map_point_lands_inside_frame() {
    let mut p = at(0, 0);
    p.point = Some("O".to_string());
    let r = render(&vec![p], &Plot::default());
    assert!(r.skipped.is_empty());
    // x = 180/360*70 + 4 = 39, y = 90/180*22 + 2 = 13
    assert_eq!(cell_text(&r, 13, 39), "O");
}

#[test]
fn render_point_paints_cells() {
    let mut p = at(0, 0);
    p.name = Some("Q".to_string());
    colored::control::set_override(false);
    let plain = render_point(vec![p.clone()], Plot::make_blank(5, 3));
    assert_eq!(plain, "     \n  * Q\n     ");
    colored::control::set_override(true);
    let painted = render_point(vec![p], Plot::make_blank(5, 3));
    colored::control::unset_override();
    assert!(painted.contains('\u{1b}'));
    assert!(painted.contains("\u{1b}[0m"));
    assert!(painted.contains('Q'));
    assert_eq!(painted.matches('\n').count(), 2);
}
