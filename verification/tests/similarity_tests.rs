use rag_core::similarity::cosine_similarity;
use rag_core::similarity::score_is_lt;
use rag_core::similarity::Score;

#[test]
fn cosine_of_a_vector_with_itself_is_one() {
    let v: Vec<i64> = vec![1, 2, 3];
    let s = cosine_similarity(&v, &v);
    assert_eq!(s, Score { neg: false, num_sq: 196, den_sq: 196 });
    assert_eq!(s.num_sq, s.den_sq);
    assert!(!s.neg);
}

#[test]
fn cosine_is_zero_on_length_mismatch() {
    let v1: Vec<i64> = vec![1, 2];
    let v2: Vec<i64> = vec![1, 2, 3];
    assert_eq!(cosine_similarity(&v1, &v2), Score { neg: false, num_sq: 0, den_sq: 1 });
}

#[test]
fn cosine_is_zero_on_empty_vectors() {
    let v1: Vec<i64> = vec![];
    let v2: Vec<i64> = vec![];
    assert_eq!(cosine_similarity(&v1, &v2), Score { neg: false, num_sq: 0, den_sq: 1 });
}

#[test]
fn cosine_is_zero_on_zero_norm() {
    let v1: Vec<i64> = vec![0, 0];
    let v2: Vec<i64> = vec![3, 4];
    assert_eq!(cosine_similarity(&v1, &v2), Score { neg: false, num_sq: 0, den_sq: 1 });
    assert_eq!(cosine_similarity(&v2, &v1), Score { neg: false, num_sq: 0, den_sq: 1 });
}

#[test]
fn cosine_is_symmetric() {
    let v1: Vec<i64> = vec![3, -1, 2];
    let v2: Vec<i64> = vec![-2, 5, 7];
    assert_eq!(cosine_similarity(&v1, &v2), cosine_similarity(&v2, &v1));
}

#[test]
fn cosine_of_orthogonal_vectors() {
    let v1: Vec<i64> = vec![1, 0];
    let v2: Vec<i64> = vec![0, 1];
    let s = cosine_similarity(&v1, &v2);
    assert_eq!(s, Score { neg: false, num_sq: 0, den_sq: 1 });
}

#[test]
fn cosine_of_opposite_vectors_is_negative_one() {
    let v1: Vec<i64> = vec![1];
    let v2: Vec<i64> = vec![-1];
    let s = cosine_similarity(&v1, &v2);
    assert_eq!(s, Score { neg: true, num_sq: 1, den_sq: 1 });
}

#[test]
fn cosine_keeps_the_exact_ratio() {
    // dot([1,2],[2,1]) = 4, norms squared 5 and 5: cos^2 = 16/25.
    let v1: Vec<i64> = vec![1, 2];
    let v2: Vec<i64> = vec![2, 1];
    assert_eq!(cosine_similarity(&v1, &v2), Score { neg: false, num_sq: 16, den_sq: 25 });
}

#[test]
fn score_comparison_orders_by_value() {
    let minus_one = Score { neg: true, num_sq: 1, den_sq: 1 };
    let zero = Score { neg: false, num_sq: 0, den_sq: 1 };
    let two_thirds_sq = Score { neg: false, num_sq: 4, den_sq: 9 };
    let one = Score { neg: false, num_sq: 1, den_sq: 1 };
    assert!(score_is_lt(&minus_one, &zero));
    assert!(score_is_lt(&zero, &two_thirds_sq));
    assert!(score_is_lt(&two_thirds_sq, &one));
    assert!(score_is_lt(&minus_one, &one));
    assert!(!score_is_lt(&one, &minus_one));
    assert!(!score_is_lt(&zero, &zero));
    // equal values in different representations are not strictly ordered
    let half_a = Score { neg: false, num_sq: 1, den_sq: 4 };
    let half_b = Score { neg: false, num_sq: 25, den_sq: 100 };
    assert!(!score_is_lt(&half_a, &half_b));
    assert!(!score_is_lt(&half_b, &half_a));
}
