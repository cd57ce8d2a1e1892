use traveling_rustling::distance::DistanceMatrix;
use traveling_rustling::route::Route;

#[test]
fn test_route() {
    let matrix = DistanceMatrix::new(vec![
        vec![0, 1, 2],
        vec![30, 0, 40],
        vec![500, 600, 0],
    ]);
    let route = Route::new(vec![0, 1, 2]);
    assert_eq!(route.distance(&matrix), 541);
}
