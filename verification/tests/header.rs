//! The header row's gap rule.
use crew_app::header::gap;

#[test]
fn gaps_are_none_first_one_before_the_dot_and_two_between() {
    assert_eq!(gap(0, 3), 0);
    assert_eq!(gap(1, 3), 2);
    assert_eq!(gap(2, 3), 1);
    assert_eq!(gap(0, 1), 0, "a lone segment has no gap");
    let n = 4;
    let total: usize = (0..n).map(|i| gap(i, n)).sum();
    assert_eq!(total, 2 + 2 + 1);
}
