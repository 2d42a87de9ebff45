use raytracer::bvh::{build_plan, comparator_slot, sort_on_axis, BvhItem, BvhPlan};

fn item(id: usize, x: i64, y: i64, z: i64) -> BvhItem {
    BvhItem { id, key_x: x, key_y: y, key_z: z }
}

fn ids(plan: &BvhPlan) -> Vec<usize> {
    match plan {
        BvhPlan::One(a) => vec![a.id],
        BvhPlan::Two(a, b) => vec![a.id, b.id],
        BvhPlan::Split { left, right, .. } => {
            let mut v = ids(left);
            v.extend(ids(right));
            v
        }
    }
}

fn items(plan: &BvhPlan) -> Vec<BvhItem> {
    match plan {
        BvhPlan::One(a) => vec![*a],
        BvhPlan::Two(a, b) => vec![*a, *b],
        BvhPlan::Split { left, right, .. } => {
            let mut v = items(left);
            v.extend(items(right));
            v
        }
    }
}

fn check_split(plan: &BvhPlan) {
    if let BvhPlan::Split { axis, left, right } = plan {
        let l = items(left);
        let r = items(right);
        assert!(*axis < 3);
        assert!(l.len() + r.len() >= 3);
        assert_eq!(l.len(), (l.len() + r.len()) / 2);
        for a in &l {
            for b in &r {
                assert!(a.key(*axis) <= b.key(*axis));
            }
        }
        check_split(left);
        check_split(right);
    }
}

#[test]
fn comparator_slot_maps_axes() {
    assert_eq!(comparator_slot(0), 0);
    assert_eq!(comparator_slot(1), 1);
    assert_eq!(comparator_slot(2), 2);
    assert_eq!(comparator_slot(-1), 2);
    assert_eq!(comparator_slot(9), 2);
}

#[test]
fn sort_on_axis_orders_by_key() {
    let mut v = vec![item(0, 5, 0, 9), item(1, -2, 3, 1), item(2, 5, -1, 4), item(3, 0, 0, 0)];
    sort_on_axis(&mut v, 2);
    let zs: Vec<i64> = v.iter().map(|it| it.key_z).collect();
    assert_eq!(zs, vec![0, 1, 4, 9]);
    sort_on_axis(&mut v, 0);
    let xs: Vec<i64> = v.iter().map(|it| it.key_x).collect();
    assert_eq!(xs, vec![-2, 0, 5, 5]);
    let mut got: Vec<usize> = v.iter().map(|it| it.id).collect();
    got.sort();
    assert_eq!(got, vec![0, 1, 2, 3]);
}

#[test]
fn one_object_fills_both_sides() {
    let a = item(4, 1, 2, 3);
    let plan = build_plan(vec![a], &|_: &Vec<BvhItem>| 0);
    assert!(matches!(plan, BvhPlan::One(x) if x == a));
}

#[test]
fn two_objects_keep_their_order() {
    let a = item(0, 9, 9, 9);
    let b = item(1, 0, 0, 0);
    let plan = build_plan(vec![a, b], &|_: &Vec<BvhItem>| 0);
    assert!(matches!(plan, BvhPlan::Two(x, y) if x == a && y == b));
}

#[test]
fn three_objects_split_one_and_two() {
    let objs = vec![item(0, 3, 0, 0), item(1, 1, 0, 0), item(2, 2, 0, 0)];
    let plan = build_plan(objs, &|_: &Vec<BvhItem>| 0);
    match &plan {
        BvhPlan::Split { axis, left, right } => {
            assert_eq!(*axis, 0);
            assert!(matches!(**left, BvhPlan::One(x) if x.id == 1));
            assert!(matches!(**right, BvhPlan::Two(x, y) if x.id == 2 && y.id == 0));
        }
        _ => panic!("expected a split"),
    }
}

#[test]
fn hierarchy_holds_every_object_once() {
    let objs: Vec<BvhItem> = (0..37)
        .map(|i| item(i, ((i * 7) % 11) as i64, ((i * 5) % 13) as i64 - 6, (37 - i) as i64))
        .collect();
    let axis_of = |v: &Vec<BvhItem>| (v.len() % 4) as i32;
    let plan = build_plan(objs, &axis_of);
    let mut got = ids(&plan);
    got.sort();
    assert_eq!(got, (0..37).collect::<Vec<usize>>());
    check_split(&plan);
}

#[test]
fn split_axis_follows_chooser() {
    let objs: Vec<BvhItem> = (0..8).map(|i| item(i, 0, (8 - i) as i64, 0)).collect();
    let plan = build_plan(objs, &|_: &Vec<BvhItem>| 1);
    match &plan {
        BvhPlan::Split { axis, left, .. } => {
            assert_eq!(*axis, 1);
            let mut l = ids(left);
            l.sort();
            assert_eq!(l, vec![4, 5, 6, 7]);
        }
        _ => panic!("expected a split"),
    }
}

#[test]
fn pair_below_a_split_comes_in_key_order() {
    let objs = vec![item(0, 9, 0, 0), item(1, 3, 0, 0), item(2, 1, 0, 0), item(3, 7, 0, 0)];
    let plan = build_plan(objs, &|_: &Vec<BvhItem>| 0);
    match &plan {
        BvhPlan::Split { left, right, .. } => {
            assert!(matches!(**left, BvhPlan::Two(a, b) if a.id == 2 && b.id == 1));
            assert!(matches!(**right, BvhPlan::Two(a, b) if a.id == 3 && b.id == 0));
        }
        _ => panic!("expected a split"),
    }
}
