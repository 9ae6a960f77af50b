use democratic_pq_cle::math::{binom, nth_combination, CombinationError};
use num::{One, Zero};
use num_bigint::BigUint;
use std::str::FromStr;

#[test]
fn test_nth_combination() {
    assert_eq!(nth_combination(5, 3, BigUint::zero()), Ok(vec![0, 1, 2]));
    assert_eq!(nth_combination(5, 3, BigUint::one()), Ok(vec![0, 1, 3]));
    assert_eq!(
        nth_combination(5, 3, BigUint::from(3usize)),
        Ok(vec![0, 2, 3])
    );
    assert_eq!(
        nth_combination(401, 7, BigUint::from_str("148166658473837").unwrap()),
        Ok(vec![34, 103, 186, 203, 230, 275, 323])
    );
}

#[test]
fn binomial_coefficients_are_exact() {
    assert_eq!(binom(0, 0), BigUint::one());
    assert_eq!(binom(5, 0), BigUint::one());
    assert_eq!(binom(5, 5), BigUint::one());
    assert_eq!(binom(5, 3), BigUint::from(10u32));
    assert_eq!(binom(10, 4), BigUint::from(210u32));
    assert_eq!(binom(3, 4), BigUint::zero());
    assert_eq!(binom(0, 2), BigUint::zero());
    assert_eq!(
        binom(401, 7),
        BigUint::from_str("313843099039800").unwrap()
    );
    assert_eq!(
        binom(100, 50),
        BigUint::from_str("100891344545564193334812497256").unwrap()
    );
}

#[test]
fn all_combinations_of_five_choose_three_in_order() {
    let expected: Vec<Vec<usize>> = vec![
        vec![0, 1, 2],
        vec![0, 1, 3],
        vec![0, 1, 4],
        vec![0, 2, 3],
        vec![0, 2, 4],
        vec![0, 3, 4],
        vec![1, 2, 3],
        vec![1, 2, 4],
        vec![1, 3, 4],
        vec![2, 3, 4],
    ];
    for (index, combination) in expected.iter().enumerate() {
        assert_eq!(
            nth_combination(5, 3, BigUint::from(index)).as_ref(),
            Ok(combination)
        );
    }
}

#[test]
fn combinations_out_of_range_are_refused() {
    assert_eq!(
        nth_combination(3, 4, BigUint::zero()),
        Err(CombinationError::SubsetTooLarge)
    );
    assert_eq!(
        nth_combination(5, 3, BigUint::from(10u32)),
        Err(CombinationError::IndexOutOfRange)
    );
    assert_eq!(
        nth_combination(5, 0, BigUint::one()),
        Err(CombinationError::IndexOutOfRange)
    );
    assert_eq!(nth_combination(5, 0, BigUint::zero()), Ok(vec![]));
    assert_eq!(nth_combination(0, 0, BigUint::zero()), Ok(vec![]));
    assert_eq!(
        nth_combination(4, 4, BigUint::zero()),
        Ok(vec![0, 1, 2, 3])
    );
}
