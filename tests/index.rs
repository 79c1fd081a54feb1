use nvdb_rs::error::DbError;
use nvdb_rs::knn::{needs_flush, KNNIndex};
use nvdb_rs::metrics::Metric;
use nvdb_rs::ranking::top_k;

fn bits(v: &[f32]) -> Vec<u32> {
    v.iter().map(|x| x.to_bits()).collect()
}

fn rows(v: &[&[f32]]) -> Vec<Vec<u32>> {
    v.iter().map(|r| bits(r)).collect()
}

fn cosine(a: &[f32], b: &[f32]) -> f32 {
    let dot: f32 = a.iter().zip(b).map(|(x, y)| x * y).sum();
    let na: f32 = a.iter().map(|x| x * x).sum::<f32>().sqrt();
    let nb: f32 = b.iter().map(|x| x * x).sum::<f32>().sqrt();
    dot / (na * nb)
}

fn euclidean(a: &[f32], b: &[f32]) -> f32 {
    -a.iter().zip(b).map(|(x, y)| (x - y) * (x - y)).sum::<f32>().sqrt()
}

#[test]
fn test_new() {
    let ids = vec![1, 2];
    let vectors = rows(&[&[0.1, 0.2], &[0.3, 0.4]]);
    let index = KNNIndex::new(2, Metric::Cosine, ids.clone(), vectors.clone()).unwrap();
    assert_eq!(index.len(), 2);
    assert_eq!(index.dims(), 2);
}

#[test]
fn test_search() {
    let ids = vec![1, 2, 3];
    let raw: [&[f32]; 3] = [&[1.0, 0.0], &[0.0, 1.0], &[0.6, 0.8]];
    let vectors = rows(&raw);
    let query = [1.0f32, 0.0];

    let index = KNNIndex::new(2, Metric::Cosine, ids.clone(), vectors.clone()).unwrap();
    let scores: Vec<u32> = raw.iter().map(|v| cosine(&query, v).to_bits()).collect();
    let results = index.search(&bits(&query), &scores, 2).unwrap();
    assert_eq!(results.len(), 2);
    assert_eq!(results[0].0, 1);
    assert_eq!(results[1].0, 3);

    let index = KNNIndex::new(2, Metric::Euclidean, ids.clone(), vectors.clone()).unwrap();
    let scores: Vec<u32> = raw.iter().map(|v| euclidean(&query, v).to_bits()).collect();
    let results = index.search(&bits(&query), &scores, 2).unwrap();
    assert_eq!(results.len(), 2);
    assert_eq!(results[0].0, 1);
    assert_eq!(results[1].0, 3);
}

#[test]
fn new_rejects_mismatched_rows() {
    let r = KNNIndex::new(2, Metric::Cosine, vec![1, 2], rows(&[&[1.0, 0.0]]));
    assert_eq!(r.err(), Some(DbError::PreconditionViolation));
}

#[test]
fn new_rejects_wrong_dimension() {
    let r = KNNIndex::new(2, Metric::Cosine, vec![1, 2], rows(&[&[1.0, 0.0], &[1.0]]));
    assert_eq!(r.err(), Some(DbError::PreconditionViolation));
}

#[test]
fn add_appends_and_rejects_wrong_length() {
    let mut index = KNNIndex::new(3, Metric::DotProduct, vec![], vec![]).unwrap();
    assert_eq!(index.add(7, bits(&[1.0, 2.0])), Err(DbError::PreconditionViolation));
    assert_eq!(index.len(), 0);
    assert_eq!(index.add(7, bits(&[1.0, 2.0, 3.0])), Ok(false));
    assert_eq!(index.add(7, bits(&[4.0, 5.0, 6.0])), Ok(false));
    assert_eq!(index.len(), 2);
    assert_eq!(index.id_at(0), 7);
    assert_eq!(index.id_at(1), 7);
    assert_eq!(index.vector_at(1), &bits(&[4.0, 5.0, 6.0]));
}

#[test]
fn flush_threshold_is_one_gibibyte() {
    // 32 bytes per stored value: 2^25 values reach the threshold exactly.
    assert!(!needs_flush(1 << 20, 32));
    assert!(needs_flush((1 << 20) + 1, 32));
    assert!(!needs_flush(usize::MAX, 0));
    assert!(needs_flush(usize::MAX, usize::MAX));
}

#[test]
fn search_rejects_bad_query_and_scores() {
    let index = KNNIndex::new(2, Metric::Cosine, vec![1], rows(&[&[1.0, 0.0]])).unwrap();
    let s = vec![1.0f32.to_bits()];
    assert_eq!(index.search(&bits(&[1.0]), &s, 1), Err(DbError::PreconditionViolation));
    assert_eq!(index.search(&bits(&[1.0, 0.0]), &vec![], 1), Err(DbError::PreconditionViolation));
}

#[test]
fn search_rejects_nan_scores() {
    let index = KNNIndex::new(1, Metric::Cosine, vec![1, 2], rows(&[&[1.0], &[0.0]])).unwrap();
    let s = vec![1.0f32.to_bits(), f32::NAN.to_bits()];
    assert_eq!(index.search(&bits(&[1.0]), &s, 1), Err(DbError::UnsupportedNumericState));
}

#[test]
fn search_returns_fewer_than_k_when_small() {
    let index = KNNIndex::new(1, Metric::Cosine, vec![4, 5], rows(&[&[1.0], &[2.0]])).unwrap();
    let s = vec![(-1.0f32).to_bits(), 2.5f32.to_bits()];
    let r = index.search(&bits(&[1.0]), &s, 10).unwrap();
    assert_eq!(r, vec![(5, 2.5f32.to_bits()), (4, (-1.0f32).to_bits())]);
    assert_eq!(index.search(&bits(&[1.0]), &s, 0).unwrap(), vec![]);
}

#[test]
fn top_k_orders_by_score_and_keeps_ties_in_order() {
    let f = |x: f32| x.to_bits();
    let entries = vec![(1, f(0.5)), (2, f(-3.0)), (3, f(0.5)), (4, f(7.0)), (5, f(-0.0)), (6, f(0.0))];
    let r = top_k(&entries, 5).unwrap();
    assert_eq!(r, vec![(4, f(7.0)), (1, f(0.5)), (3, f(0.5)), (5, f(-0.0)), (6, f(0.0))]);
    let scores: Vec<f32> = r.iter().map(|e| f32::from_bits(e.1)).collect();
    for w in scores.windows(2) {
        assert!(w[0] >= w[1]);
    }
}

#[test]
fn top_k_of_nothing_is_empty() {
    assert_eq!(top_k(&vec![], 3).unwrap(), vec![]);
}
