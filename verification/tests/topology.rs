use cloth_sim::cloth::Cloth;
use cloth_sim::spring::{Spring, SpringKind};

fn grid(width: usize, height: usize) -> Cloth<()> {
    Cloth::new(width, height, &|_column: usize, _row: usize| ())
}

fn springs_of(cloth: &Cloth<()>) -> Vec<Spring> {
    let mut all = Vec::new();
    for k in 0..cloth.spring_count() {
        all.push(cloth.spring(k));
    }
    all
}

fn count(cloth: &Cloth<()>, kind: SpringKind) -> usize {
    springs_of(cloth).iter().filter(|s| s.kind == kind).count()
}

fn spring(p1_idx: usize, p2_idx: usize, kind: SpringKind) -> Spring {
    Spring { p1_idx, p2_idx, kind }
}

#[test]
fn smallest_grid_has_six_springs_in_creation_order() {
    let cloth = grid(2, 2);
    assert_eq!(
        springs_of(&cloth),
        vec![
            spring(0, 1, SpringKind::Stretch),
            spring(0, 2, SpringKind::Stretch),
            spring(0, 3, SpringKind::Shear),
            spring(1, 2, SpringKind::Shear),
            spring(1, 3, SpringKind::Stretch),
            spring(2, 3, SpringKind::Stretch),
        ]
    );
}

#[test]
fn three_by_three_grid_lists_every_rule_in_order() {
    let cloth = grid(3, 3);
    let s = SpringKind::Stretch;
    let b = SpringKind::Bend;
    let d = SpringKind::Shear;
    assert_eq!(
        springs_of(&cloth),
        vec![
            spring(0, 1, s),
            spring(0, 2, b),
            spring(0, 3, s),
            spring(0, 6, b),
            spring(0, 4, d),
            spring(1, 3, d),
            spring(1, 2, s),
            spring(1, 4, s),
            spring(1, 7, b),
            spring(1, 5, d),
            spring(2, 4, d),
            spring(2, 5, s),
            spring(2, 8, b),
            spring(3, 4, s),
            spring(3, 5, b),
            spring(3, 6, s),
            spring(3, 7, d),
            spring(4, 6, d),
            spring(4, 5, s),
            spring(4, 7, s),
            spring(4, 8, d),
            spring(5, 7, d),
            spring(5, 8, s),
            spring(6, 7, s),
            spring(6, 8, b),
            spring(7, 8, s),
        ]
    );
}

#[test]
fn four_by_three_grid_counts() {
    let cloth = grid(4, 3);
    assert_eq!(cloth.width(), 4);
    assert_eq!(cloth.height(), 3);
    assert_eq!(cloth.particle_count(), 12);
    assert_eq!(count(&cloth, SpringKind::Stretch), 3 * 3 + 4 * 2);
    assert_eq!(count(&cloth, SpringKind::Bend), 2 * 3 + 4 * 1);
    assert_eq!(count(&cloth, SpringKind::Shear), 2 * 3 * 2);
    assert_eq!(cloth.spring_count(), 17 + 10 + 12);
}

#[test]
fn horizontal_stretch_springs_of_four_by_three_number_nine() {
    let cloth = grid(4, 3);
    let horizontal = springs_of(&cloth)
        .iter()
        .filter(|s| s.kind == SpringKind::Stretch && s.p2_idx == s.p1_idx + 1)
        .count();
    assert_eq!(horizontal, 9);
}

#[test]
fn counts_follow_the_closed_forms() {
    for width in 2..9usize {
        for height in 2..9usize {
            let cloth = grid(width, height);
            assert_eq!(
                count(&cloth, SpringKind::Stretch),
                (width - 1) * height + width * (height - 1)
            );
            assert_eq!(
                count(&cloth, SpringKind::Bend),
                (width - 2) * height + width * (height - 2)
            );
            assert_eq!(count(&cloth, SpringKind::Shear), 2 * (width - 1) * (height - 1));
        }
    }
}

#[test]
fn two_by_two_grid_has_no_bend_springs() {
    let cloth = grid(2, 2);
    assert_eq!(count(&cloth, SpringKind::Bend), 0);
}

#[test]
fn particles_are_laid_out_row_by_row() {
    let cloth = grid(4, 3);
    for y in 0..3usize {
        for x in 0..4usize {
            let p = cloth.particle(y * 4 + x);
            assert_eq!((p.column, p.row, p.is_pinned), (x, y, y == 0));
        }
    }
}

#[test]
fn only_the_top_row_is_pinned() {
    let cloth = grid(5, 4);
    for i in 0..cloth.particle_count() {
        assert_eq!(cloth.is_pinned(i), i < 5);
    }
}

#[test]
fn no_pair_of_particles_is_joined_twice() {
    for (width, height) in [(2usize, 2usize), (2, 5), (3, 3), (3, 4), (5, 2), (6, 7)] {
        let all = springs_of(&grid(width, height));
        for a in 0..all.len() {
            for b in (a + 1)..all.len() {
                assert!(
                    all[a].p1_idx != all[b].p1_idx || all[a].p2_idx != all[b].p2_idx,
                    "{:?} and {:?}",
                    all[a],
                    all[b]
                );
            }
        }
    }
}

#[test]
fn endpoints_are_particles_of_the_cloth() {
    let cloth = grid(6, 4);
    for s in springs_of(&cloth) {
        assert!(s.p1_idx < s.p2_idx);
        assert!(s.p2_idx < cloth.particle_count());
    }
}

#[test]
fn rest_length_is_the_distance_between_the_cells() {
    let cloth = grid(5, 4);
    for s in springs_of(&cloth) {
        let a = cloth.particle(s.p1_idx);
        let b = cloth.particle(s.p2_idx);
        let across = b.column as i64 - a.column as i64;
        let down = b.row as i64 - a.row as i64;
        assert_eq!(across * across + down * down, s.kind.squared_rest_ratio() as i64);
    }
}

#[test]
fn squared_rest_ratios() {
    assert_eq!(SpringKind::Stretch.squared_rest_ratio(), 1);
    assert_eq!(SpringKind::Bend.squared_rest_ratio(), 4);
    assert_eq!(SpringKind::Shear.squared_rest_ratio(), 2);
}

#[test]
fn has_dimensions_tells_a_resize() {
    let cloth = grid(4, 3);
    assert!(cloth.has_dimensions(4, 3));
    assert!(!cloth.has_dimensions(3, 4));
    assert!(!cloth.has_dimensions(4, 4));
    assert!(!cloth.has_dimensions(5, 3));
}

#[test]
fn particles_start_at_rest_where_they_are_put() {
    let cloth = Cloth::new(3, 2, &|column: usize, row: usize| {
        (300 + 15 * column as i32, 50 + 15 * row as i32)
    });
    for row in 0..2usize {
        for column in 0..3usize {
            let p = cloth.particle(row * 3 + column);
            assert_eq!(p.pos, (300 + 15 * column as i32, 50 + 15 * row as i32));
            assert_eq!(p.old_pos, p.pos);
        }
    }
    assert_eq!(cloth.particle(4).pos, (315, 65));
}

#[test]
fn place_is_asked_once_for_each_cell_row_by_row() {
    let asked = std::cell::RefCell::new(Vec::new());
    let cloth = Cloth::new(3, 2, &|column: usize, row: usize| {
        asked.borrow_mut().push((column, row));
    });
    assert_eq!(cloth.particle_count(), 6);
    assert_eq!(*asked.borrow(), vec![(0, 0), (1, 0), (2, 0), (0, 1), (1, 1), (2, 1)]);
}

#[test]
fn a_new_particle_is_free_and_at_rest() {
    let p = cloth_sim::particle::Particle::new((3, 4), 1, 2);
    assert_eq!((p.pos, p.old_pos, p.column, p.row, p.is_pinned), ((3, 4), (3, 4), 1, 2, false));
}

#[test]
fn a_free_particle_goes_where_it_is_sent() {
    let p = cloth_sim::particle::Particle::new((3, 4), 1, 2);
    let q = p.integrate((5, 7));
    assert_eq!((q.pos, q.old_pos, q.column, q.row, q.is_pinned), ((5, 7), (3, 4), 1, 2, false));
    let r = q.correct((6, 6));
    assert_eq!((r.pos, r.old_pos, r.column, r.row, r.is_pinned), ((6, 6), (3, 4), 1, 2, false));
    let d = r.drag((0, 0));
    assert_eq!((d.pos, d.old_pos, d.column, d.row, d.is_pinned), ((0, 0), (6, 6), 1, 2, false));
}

#[test]
fn a_pinned_particle_only_follows_a_drag() {
    let cloth = Cloth::new(2, 2, &|column: usize, row: usize| (column as i32, row as i32));
    let p = cloth.particle(1);
    assert!(p.is_pinned);
    let q = p.integrate((5, 7));
    assert_eq!((q.pos, q.old_pos, q.is_pinned), ((1, 0), (1, 0), true));
    let r = p.correct((6, 6));
    assert_eq!((r.pos, r.old_pos, r.is_pinned), ((1, 0), (1, 0), true));
    let d = p.drag((9, 9));
    assert_eq!((d.pos, d.old_pos, d.column, d.row, d.is_pinned), ((9, 9), (1, 0), 1, 0, true));
}
