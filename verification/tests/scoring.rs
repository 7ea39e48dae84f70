use weavatrix_stream::{anograph_counterexample, group_density, heuristic_density, submatrix_density};

#[test]
fn a_dense_block_scores_above_a_diagonal_of_the_same_mass() {
    let diagonal = [1, 0, 0, 0, 1, 0, 0, 0, 1];
    let block = [1, 1, 0, 1, 1, 0, 0, 0, 0];
    assert!(
        group_density(&block, 3).milli > group_density(&diagonal, 3).milli,
        "a 2x2 block is denser than a diagonal of ones"
    );
}

#[test]
fn submatrix_density_uses_a_finer_square_root() {
    let matrix = vec![1_u64; 63];
    let cols = (0..63).collect::<Vec<_>>();
    let milli = submatrix_density(&matrix, 63, &[0], &cols);
    assert!(
        (7_900..=8_000).contains(&milli),
        "63/sqrt(63) in thousandths is about 7937, got {milli}"
    );
}

#[test]
fn counterexample_witness_is_stronger_than_a_false_two_approx() {
    let width = 64;
    let matrix = anograph_counterexample(width);
    let rows = [0_usize];
    let cols = (1..width).collect::<Vec<_>>();
    let witness = submatrix_density(&matrix, width, &rows, &cols);
    let heuristic = heuristic_density(&matrix, width);
    assert!(
        witness > 7_000,
        "row-0 band density is a known feasible witness"
    );
    assert_eq!(heuristic.kind, "heuristic");
    assert!(
        witness > heuristic.milli.saturating_mul(2) || heuristic.milli <= witness,
        "do not advertise a guarantee the witness can refute"
    );
}
