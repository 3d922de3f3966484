use coderbyte_rust::fibonacci_checker::fibonacci_checker;
use coderbyte_rust::fibonacci_checker::is_perfect_square;

#[test]
fn perfect_square_correct_evaluation() {
    let nums: [i64; 10] = [1, 4, 9, 16, 25, 36, 49, 64, 81, 100];
    assert!(nums.iter().all(|n| is_perfect_square(*n)));
}

#[test]
fn fibonacci_checker_correct_evaluation() {
    let test_numbers = [
        0i32, 1, 2, 3, 4, 5, 6, 7, 8, 13, 21, 22, 34, 54, 55, 89, 144, 233, 377, 610, 987, 1000,
    ];
    let expected = vec![
        true,  // 0
        true,  // 1
        true,  // 2
        true,  // 3
        false, // 4
        true,  // 5
        false, // 6
        false, // 7
        true,  // 8
        true,  // 13
        true,  // 21
        false, // 22
        true,  // 34
        false, // 54
        true,  // 55
        true,  // 89
        true,  // 144
        true,  // 233
        true,  // 377
        true,  // 610
        true,  // 987
        false, // 1000
    ];
    assert_eq!(
        test_numbers
            .iter()
            .map(|n| fibonacci_checker(*n))
            .collect::<Vec<bool>>(),
        expected
    );
}

#[test]
fn perfect_square_edge_values() {
    assert!(is_perfect_square(0));
    assert!(!is_perfect_square(2));
    assert!(!is_perfect_square(-4));
    assert!(!is_perfect_square(i64::MAX));
    assert!(is_perfect_square(3037000499 * 3037000499));
}

#[test]
fn fibonacci_checker_rejects_negatives_and_large_non_members() {
    assert!(!fibonacci_checker(-1));
    assert!(!fibonacci_checker(-8));
    assert!(fibonacci_checker(1836311903));
    assert!(!fibonacci_checker(1836311904));
    assert!(!fibonacci_checker(i32::MAX));
}
