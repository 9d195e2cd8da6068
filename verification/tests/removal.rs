use cloth_sim::cloth::Cloth;
use cloth_sim::spring::{Spring, SpringKind};

fn grid(width: usize, height: usize) -> Cloth<()> {
    Cloth::new(width, height, &|_column: usize, _row: usize| ())
}

fn springs_of<V: Copy>(cloth: &Cloth<V>) -> Vec<Spring> {
    let mut all = Vec::new();
    for k in 0..cloth.spring_count() {
        all.push(cloth.spring(k));
    }
    all
}

fn cell(cloth: &Cloth<()>, i: usize) -> (usize, usize, bool) {
    let p = cloth.particle(i);
    (p.column, p.row, p.is_pinned)
}

#[test]
fn flagged_springs_leave_and_the_rest_keep_their_order() {
    let mut cloth = grid(2, 2);
    let before = springs_of(&cloth);
    cloth.retain_springs(&vec![true, false, true, false, true, true]);
    assert_eq!(springs_of(&cloth), vec![before[0], before[2], before[4], before[5]]);
}

#[test]
fn keeping_everything_changes_nothing() {
    let mut cloth = grid(4, 3);
    let before = springs_of(&cloth);
    cloth.retain_springs(&vec![true; before.len()]);
    assert_eq!(springs_of(&cloth), before);
}

#[test]
fn dropping_everything_leaves_no_spring() {
    let mut cloth = grid(4, 3);
    let n = cloth.spring_count();
    cloth.retain_springs(&vec![false; n]);
    assert_eq!(cloth.spring_count(), 0);
    assert_eq!(cloth.particle_count(), 12);
}

#[test]
fn springs_without_a_flag_stay() {
    let mut cloth = grid(2, 2);
    let before = springs_of(&cloth);
    cloth.retain_springs(&vec![false, false]);
    assert_eq!(springs_of(&cloth), before[2..].to_vec());
    cloth.retain_springs(&Vec::new());
    assert_eq!(springs_of(&cloth), before[2..].to_vec());
}

#[test]
fn flags_beyond_the_last_spring_are_ignored() {
    let mut cloth = grid(2, 2);
    let before = springs_of(&cloth);
    cloth.retain_springs(&vec![true, true, true, true, true, false, false, false]);
    assert_eq!(springs_of(&cloth), before[..5].to_vec());
}

#[test]
fn a_removed_spring_never_comes_back() {
    let mut cloth = grid(3, 3);
    let gone = cloth.spring(4);
    assert_eq!(gone, Spring { p1_idx: 0, p2_idx: 4, kind: SpringKind::Shear });
    let mut keep = vec![true; cloth.spring_count()];
    keep[4] = false;
    cloth.retain_springs(&keep);
    assert!(!springs_of(&cloth).contains(&gone));
    for round in 0..5usize {
        let n = cloth.spring_count();
        let keep: Vec<bool> = (0..n).map(|k| (k + round) % 3 != 0).collect();
        cloth.retain_springs(&keep);
        assert!(!springs_of(&cloth).contains(&gone));
    }
}

#[test]
fn particles_and_dimensions_outlive_removals() {
    let mut cloth = grid(4, 3);
    let cells: Vec<_> = (0..12).map(|i| cell(&cloth, i)).collect();
    cloth.retain_springs(&vec![false; 10]);
    assert_eq!(cloth.width(), 4);
    assert_eq!(cloth.height(), 3);
    assert_eq!((0..12).map(|i| cell(&cloth, i)).collect::<Vec<_>>(), cells);
    assert_eq!(cloth.spring_count(), 39 - 10);
}

#[test]
fn a_fresh_cloth_has_all_springs_again() {
    let mut cloth = grid(4, 3);
    cloth.retain_springs(&vec![false; 39]);
    assert_eq!(cloth.spring_count(), 0);
    cloth = grid(4, 3);
    assert_eq!(cloth.spring_count(), 39);
}

#[test]
fn retain_where_asks_with_the_endpoints_and_the_kind() {
    let mut cloth = Cloth::new(2, 2, &|column: usize, row: usize| (20 * row + 10 * column) as i32);
    cloth.retain_where(&|a: i32, b: i32, kind: SpringKind| kind != SpringKind::Shear && b - a < 20);
    assert_eq!(
        springs_of(&cloth),
        vec![
            Spring { p1_idx: 0, p2_idx: 1, kind: SpringKind::Stretch },
            Spring { p1_idx: 2, p2_idx: 3, kind: SpringKind::Stretch },
        ]
    );
}

#[test]
fn retain_where_leaves_only_what_holds() {
    let mut cloth = Cloth::new(5, 4, &|column: usize, row: usize| {
        let i = (row * 5 + column) as i32;
        (i * i) % 17
    });
    let holds = |a: i32, b: i32, _kind: SpringKind| (a - b).abs() > 3;
    cloth.retain_where(&holds);
    assert!(cloth.spring_count() > 0);
    assert!(cloth.spring_count() < 55);
    for k in 0..cloth.spring_count() {
        let s = cloth.spring(k);
        assert!(holds(cloth.particle(s.p1_idx).pos, cloth.particle(s.p2_idx).pos, s.kind));
    }
}
