use reinforced_graph::matrix::VisitMatrix;

fn hits(rows: &[&[u8]]) -> Vec<Vec<bool>> {
    rows.iter().map(|row| row.iter().map(|&c| c != 0).collect()).collect()
}

/// The 3 by 3 matrix
///   0 1 2
///   3 0 4
///   5 6 0
/// built by steps with chosen outcomes.
fn sample() -> VisitMatrix {
    let mut m = VisitMatrix::new();
    m.grow();
    m.grow();
    m.grow();
    let rounds: [&[&[u8]]; 6] = [
        &[&[0, 1, 1], &[1, 0, 1], &[1, 1, 0]],
        &[&[0, 0, 1], &[1, 0, 1], &[1, 1, 0]],
        &[&[0, 0, 0], &[1, 0, 1], &[1, 1, 0]],
        &[&[0, 0, 0], &[0, 0, 1], &[1, 1, 0]],
        &[&[0, 0, 0], &[0, 0, 0], &[1, 1, 0]],
        &[&[0, 0, 0], &[0, 0, 0], &[0, 1, 0]],
    ];
    for round in rounds {
        m.bump(&hits(round));
    }
    m
}

#[test]
fn new_matrix_is_empty() {
    let m = VisitMatrix::new();
    assert_eq!(m.dim(), 0);
    assert!(m.rows().is_empty());
}

#[test]
fn sample_matrix_has_the_expected_counts() {
    let m = sample();
    assert_eq!(m.rows(), &vec![vec![0, 1, 2], vec![3, 0, 4], vec![5, 6, 0]]);
    assert_eq!(m.get(0, 2), 2);
    assert_eq!(m.get(2, 1), 6);
    assert_eq!(m.get(1, 1), 0);
}

#[test]
fn grow_appends_a_zero_row_and_column() {
    let mut m = VisitMatrix::new();
    m.grow();
    assert_eq!(m.rows(), &vec![vec![0]]);
    m.grow();
    assert_eq!(m.rows(), &vec![vec![0, 0], vec![0, 0]]);
    assert_eq!(m.dim(), 2);
}

#[test]
fn grow_keeps_the_old_counts() {
    let mut m = sample();
    m.grow();
    assert_eq!(
        m.rows(),
        &vec![vec![0, 1, 2, 0], vec![3, 0, 4, 0], vec![5, 6, 0, 0], vec![0, 0, 0, 0]]
    );
}

#[test]
fn remove_first_shifts_everything_up() {
    let mut m = sample();
    m.remove(0);
    assert_eq!(m.rows(), &vec![vec![0, 4], vec![6, 0]]);
}

#[test]
fn remove_middle_keeps_the_outer_pairs() {
    let mut m = sample();
    m.remove(1);
    assert_eq!(m.rows(), &vec![vec![0, 2], vec![5, 0]]);
}

#[test]
fn remove_last_keeps_the_leading_block() {
    let mut m = sample();
    m.remove(2);
    assert_eq!(m.rows(), &vec![vec![0, 1], vec![3, 0]]);
}

#[test]
fn remove_the_only_point_leaves_nothing() {
    let mut m = VisitMatrix::new();
    m.grow();
    m.remove(0);
    assert_eq!(m.dim(), 0);
    assert!(m.rows().is_empty());
}

#[test]
fn grow_then_remove_last_restores_the_matrix() {
    let mut m = sample();
    m.grow();
    m.remove(3);
    assert_eq!(m.rows(), sample().rows());
}

#[test]
fn clear_zeroes_every_count_and_keeps_the_size() {
    let mut m = sample();
    m.clear();
    assert_eq!(m.rows(), &vec![vec![0, 0, 0]; 3]);
    assert_eq!(m.dim(), 3);
}

#[test]
fn bump_never_counts_a_point_with_itself() {
    let mut m = VisitMatrix::new();
    m.grow();
    m.grow();
    m.bump(&hits(&[&[1, 1], &[1, 1]]));
    assert_eq!(m.rows(), &vec![vec![0, 1], vec![1, 0]]);
}

#[test]
fn bump_without_marks_changes_nothing() {
    let mut m = sample();
    m.bump(&hits(&[&[0, 0, 0], &[0, 0, 0], &[0, 0, 0]]));
    assert_eq!(m.rows(), sample().rows());
}

#[test]
fn bump_treats_the_two_directions_of_a_pair_apart() {
    let mut m = VisitMatrix::new();
    m.grow();
    m.grow();
    m.bump(&hits(&[&[0, 1], &[0, 0]]));
    assert_eq!(m.get(0, 1), 1);
    assert_eq!(m.get(1, 0), 0);
}

#[test]
fn a_cloned_matrix_is_equal_and_independent() {
    let m = sample();
    let mut copy = m.clone();
    assert_eq!(copy.rows(), m.rows());
    copy.clear();
    assert_eq!(m.rows(), &vec![vec![0, 1, 2], vec![3, 0, 4], vec![5, 6, 0]]);
}
