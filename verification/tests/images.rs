use sci::graphics::{Colour, DrawOp};
use sci::picture::{bresenham, draw_image, DitheredColour, Point};
use sci::resource::{Resource, ResourceType};
use sci::view::{can_draw, load_view};

fn view_resource() -> Resource {
    // One group at 10 holding one cel at 16: 2x1 pixels, both colour 5.
    let data = vec![
        1, 0, 0, 0, 0, 0, 0, 0, 10, 0, // header, group offset
        1, 0, 0, 0, 16, 0, // group: one cel at 16
        2, 0, 1, 0, 0, 0, 0, 0x25, // cel: size, position, transparent colour, pixels
    ];
    Resource { resource_type: ResourceType::View, resource_number: 1, resource_data: data }
}

#[test]
fn ega_colours() {
    assert_eq!(Colour::from_ega(0), Colour { r: 0, g: 0, b: 0 });
    assert_eq!(Colour::from_ega(5), Colour { r: 170, g: 0, b: 170 });
    assert_eq!(Colour::from_ega(6), Colour { r: 170, g: 85, b: 0 });
    assert_eq!(Colour::from_ega(15), Colour { r: 255, g: 255, b: 255 });
}

#[test]
fn dithered_colour_blends_its_two_colours() {
    let d = DitheredColour::from_ega(1, 4);
    assert_eq!(d.blend(), Colour { r: 85, g: 0, b: 85 });
    let same = DitheredColour::from_ega(7, 7);
    assert_eq!(same.blend(), Colour::from_ega(7));
}

#[test]
fn default_palette_has_forty_entries() {
    assert_eq!(DitheredColour::default_palette().len(), 40);
}

#[test]
fn point_offsets() {
    let p = Point { x: 3, y: 4 };
    assert_eq!(p.offset(-1, 2), Point { x: 2, y: 6 });
}

#[test]
fn bresenham_line_runs_from_start_to_end() {
    let pts = bresenham(&Point { x: 0, y: 0 }, &Point { x: 4, y: 2 });
    assert_eq!(pts.first(), Some(&(0, 0)));
    assert_eq!(pts.last(), Some(&(4, 2)));
    assert_eq!(pts.len(), 5);
    for w in pts.windows(2) {
        assert!((w[0].0 - w[1].0).abs() <= 1 && (w[0].1 - w[1].1).abs() <= 1);
    }
}

#[test]
fn bresenham_single_point() {
    assert_eq!(bresenham(&Point { x: 7, y: 7 }, &Point { x: 7, y: 7 }), vec![(7, 7)]);
}

#[test]
fn picture_flood_fill_command() {
    let ops = draw_image(&[0xf8, 0x00, 10, 20, 0xff]).unwrap();
    assert_eq!(ops, vec![DrawOp::FloodFill(10, 20)]);
}

#[test]
fn picture_without_visual_draws_nothing() {
    let ops = draw_image(&[0xf1, 0xf8, 0x00, 10, 20, 0xff]).unwrap();
    assert!(ops.is_empty());
}

#[test]
fn picture_cut_short_is_refused() {
    assert!(draw_image(&[0xf8, 0x00]).is_none());
}

#[test]
fn empty_picture_draws_nothing() {
    assert_eq!(draw_image(&[0xff]), Some(vec![]));
}

#[test]
fn view_loads_groups_of_cels() {
    let view = load_view(&view_resource()).unwrap();
    assert_eq!(view.len(), 1);
    assert_eq!(view[0].len(), 1);
    let cel = &view[0][0];
    assert_eq!((cel.size_x, cel.size_y), (2, 1));
    assert_eq!(cel.bitmap, vec![5, 5]);
}

#[test]
fn view_with_too_many_groups_is_refused() {
    let mut r = view_resource();
    r.resource_data[0] = 17;
    assert!(load_view(&r).is_none());
}

#[test]
fn view_cel_draws_its_pixels() {
    let view = load_view(&view_resource()).unwrap();
    assert!(can_draw(&view, 0, 0));
    assert!(!can_draw(&view, 0, 1));
    let ops = sci::view::draw_image(&view, 0, 0);
    let c = Colour::from_ega(5);
    assert_eq!(
        ops,
        vec![DrawOp::SetColour(c), DrawOp::Point(0, 199), DrawOp::SetColour(c), DrawOp::Point(1, 199)]
    );
}

fn canvas_with_wall(wall_x: usize) -> Vec<u8> {
    let mut px = vec![255u8; 320 * 190 * 4];
    for y in 0..190 {
        let o = (y * 320 + wall_x) * 4;
        px[o] = 0;
        px[o + 1] = 0;
        px[o + 2] = 0;
    }
    px
}

#[test]
fn flood_fill_stops_at_a_wall() {
    let mut px = canvas_with_wall(5);
    let pts = sci::graphics::flood_fill(&mut px, 4, 0, 0);
    assert_eq!(pts.len(), 5 * 190);
    assert_eq!(pts[0], (0, 0));
    assert!(pts.iter().all(|&(x, y)| x < 5 && (0..190).contains(&y)));
    let mut seen = std::collections::HashSet::new();
    assert!(pts.iter().all(|p| seen.insert(*p)));
    // The region's pixels are marked; the other side of the wall is untouched.
    assert_eq!(px[0], 0);
    assert_eq!(px[(10 * 320 + 6) * 4], 255);
}

#[test]
fn flood_fill_on_a_coloured_pixel_fills_nothing() {
    let mut px = canvas_with_wall(5);
    let before = px.clone();
    let pts = sci::graphics::flood_fill(&mut px, 4, 5, 3);
    assert!(pts.is_empty());
    assert_eq!(px, before);
}

#[test]
fn flood_fill_with_three_byte_pixels() {
    let mut px = vec![255u8; 320 * 190 * 3];
    let pts = sci::graphics::flood_fill(&mut px, 3, 319, 189);
    assert_eq!(pts.len(), 320 * 190);
    assert_eq!(pts[0], (319, 189));
}

#[test]
fn flood_fill_does_not_leak_through_a_diagonal_gap() {
    // A black canvas with a white pixel at (3, 3) and another at (4, 4): they touch
    // only at a corner, so the fill from (3, 3) takes only itself.
    let mut px = vec![0u8; 320 * 190 * 4];
    for &(x, y) in &[(3usize, 3usize), (4, 4)] {
        let o = (y * 320 + x) * 4;
        px[o] = 255;
        px[o + 1] = 255;
        px[o + 2] = 255;
    }
    let pts = sci::graphics::flood_fill(&mut px, 4, 3, 3);
    assert_eq!(pts, vec![(3, 3)]);
    assert_eq!(px[(4 * 320 + 4) * 4], 255);
}

#[test]
fn line_has_one_point_more_than_its_longer_distance() {

    let pts = bresenham(&Point { x: 0, y: 0 }, &Point { x: 7, y: -3 });
    assert_eq!(pts.len(), 8);
    assert_eq!(pts[0], (0, 0));
    assert_eq!(pts[7], (7, -3));
    for w in pts.windows(2) {
        assert_eq!(w[1].0 - w[0].0, 1);
        assert!(w[1].1 - w[0].1 == 0 || w[1].1 - w[0].1 == -1);
    }
    let far = bresenham(&Point { x: -400_000_000, y: 5 }, &Point { x: -400_000_003, y: 5 });
    assert_eq!(far, vec![(-400_000_000, 5), (-400_000_001, 5), (-400_000_002, 5), (-400_000_003, 5)]);
}
