use synteny_plot::{pattern_color, pattern_grid, Color};

#[test]
fn pattern_residues_map_to_palette() {
    assert_eq!(pattern_color(0, 0), Some(Color::White));
    assert_eq!(pattern_color(10, 0), Some(Color::White));
    assert_eq!(pattern_color(3, 0), Some(Color::Yellow));
    assert_eq!(pattern_color(1, 0), Some(Color::Blue));
    assert_eq!(pattern_color(11, 0), Some(Color::Blue));
    assert_eq!(pattern_color(4, 0), Some(Color::Red));
    assert_eq!(pattern_color(5, 0), Some(Color::Red));
    assert_eq!(pattern_color(2, 0), None);
    assert_eq!(pattern_color(18, 0), None);
    assert_eq!(pattern_color(19, 0), Some(Color::White));
}

#[test]
fn pattern_uses_xor_of_coordinates() {
    // 6 ^ 5 == 3
    assert_eq!(pattern_color(6, 5), Some(Color::Yellow));
    // 12 ^ 7 == 11
    assert_eq!(pattern_color(12, 7), Some(Color::Blue));
}

#[test]
fn pattern_negative_coordinates_keep_sign_of_remainder() {
    // -1 ^ 0 == -1, remainder -1: no colour
    assert_eq!(pattern_color(-1, 0), None);
    // -19 ^ 0 == -19, remainder 0: white
    assert_eq!(pattern_color(-19, 0), Some(Color::White));
    // -1 ^ -4 == 3: yellow
    assert_eq!(pattern_color(-1, -4), Some(Color::Yellow));
    // -23 ^ 0 == -23, remainder -4: no colour, although 4 alone is red
    assert_eq!(pattern_color(-23, 0), None);
    assert_eq!(pattern_color(i32::MIN, 0), pattern_color(i32::MIN, 0));
}

#[test]
fn pattern_depends_only_on_residue() {
    for x in -60..60 {
        for y in -60..60 {
            let v = x ^ y;
            let c = pattern_color(x, y);
            assert_eq!(c, pattern_color(v, 0));
            assert_eq!(c, pattern_color(v + if v >= 0 { 19 } else { -19 }, 0));
            assert_eq!(c, pattern_color(x, y));
        }
    }
}

#[test]
fn pattern_grid_matches_pointwise() {
    let g = pattern_grid(-3, 4, -2, 5);
    assert_eq!(g.len(), 7);
    for (i, row) in g.iter().enumerate() {
        assert_eq!(row.len(), 7);
        for (j, c) in row.iter().enumerate() {
            assert_eq!(*c, pattern_color(-3 + i as i32, -2 + j as i32));
        }
    }
    assert!(pattern_grid(5, 5, 0, 3).is_empty());
    assert!(pattern_grid(5, 2, 0, 3).is_empty());
    assert_eq!(pattern_grid(0, 2, 3, 1), vec![Vec::new(), Vec::new()]);
}

#[test]
fn palette_rgb_values() {
    assert_eq!(Color::Background.rgb(), (4, 90, 141));
    assert_eq!(Color::White.rgb(), (255, 247, 251));
    assert_eq!(Color::Blue.rgb(), (54, 144, 192));
    assert_eq!(Color::Red.rgb(), (227, 26, 28));
    assert_eq!(Color::Yellow.rgb(), (255, 237, 160));
}
