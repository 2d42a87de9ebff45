use raytracer::camera::pixel_coordinates;
use raytracer::texture::{checker_is_even, texel_index};

#[test]
fn pixels_come_row_by_row() {
    let px = pixel_coordinates(3, 2);
    assert_eq!(px, vec![(0, 0), (1, 0), (2, 0), (0, 1), (1, 1), (2, 1)]);
}

#[test]
fn pixels_of_an_empty_image() {
    assert!(pixel_coordinates(0, 5).is_empty());
    assert!(pixel_coordinates(4, 0).is_empty());
    assert!(pixel_coordinates(-2, -3).is_empty());
}

#[test]
fn pixels_each_listed_at_row_major_position() {
    let (w, h) = (7, 5);
    let px = pixel_coordinates(w, h);
    assert_eq!(px.len(), (w * h) as usize);
    for j in 0..h {
        for i in 0..w {
            assert_eq!(px[(j * w + i) as usize], (i, j));
        }
    }
}

#[test]
fn checker_cells_by_parity() {
    assert!(checker_is_even(0, 0, 0));
    assert!(!checker_is_even(1, 0, 0));
    assert!(!checker_is_even(-1, 0, 0));
    assert!(checker_is_even(-1, -1, 0));
    assert!(checker_is_even(3, -5, 2));
    assert!(!checker_is_even(3, -5, 3));
}

#[test]
fn checker_neighbours_alternate() {
    for x in -3..3 {
        for y in -3..3 {
            for z in -3..3 {
                let here = checker_is_even(x, y, z);
                assert_ne!(here, checker_is_even(x + 1, y, z));
                assert_ne!(here, checker_is_even(x, y + 1, z));
                assert_ne!(here, checker_is_even(x, y, z + 1));
            }
        }
    }
}

#[test]
fn texel_index_inside_and_past_the_end() {
    assert_eq!(texel_index(1, 2, 4, 12), Some(9));
    assert_eq!(texel_index(3, 2, 4, 12), Some(11));
    assert_eq!(texel_index(0, 3, 4, 12), None);
    assert_eq!(texel_index(0, 0, 0, 0), None);
}
