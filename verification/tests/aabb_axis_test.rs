use raytracer::aabb::longest_axis;

#[test]
fn longest_axis_picks_strictly_longest() {
    assert_eq!(longest_axis(9, 1, 1), 0);
    assert_eq!(longest_axis(1, 9, 3), 1);
    assert_eq!(longest_axis(1, 3, 9), 2);
}

#[test]
fn longest_axis_ties() {
    assert_eq!(longest_axis(5, 5, 1), 1);
    assert_eq!(longest_axis(5, 5, 5), 2);
    assert_eq!(longest_axis(9, 1, 9), 2);
    assert_eq!(longest_axis(1, 9, 9), 2);
    assert_eq!(longest_axis(0, 0, 0), 2);
}

#[test]
fn longest_axis_is_never_shorter_than_another() {
    let values = [-3i64, 0, 2, 7, i64::MAX];
    for &x in &values {
        for &y in &values {
            for &z in &values {
                let sizes = [x, y, z];
                let r = longest_axis(x, y, z) as usize;
                assert!(sizes.iter().all(|&s| sizes[r] >= s));
            }
        }
    }
}
