use traveling_rustling::distance::DistanceMatrix;
use traveling_rustling::input::Input;
use traveling_rustling::solver::Solver;

#[test]
fn test_solver() {
    let matrix = DistanceMatrix::new(vec![vec![0, 2, 1], vec![40, 0, 30], vec![600, 500, 0]]);
    let input = Input::new(matrix, None, None, None);
    let mut solver = Solver::new(input);
    solver.solve();
    assert_eq!(solver.best_solution.distance, 541);
    assert_eq!(solver.best_solution.route.sequence, vec![1, 0, 2]);
}
