use recipe_optim::ann_engine::AnnEngine;
use recipe_optim::error::DbError;

const DIM: usize = 512;

fn normalize(v: &[f32]) -> Vec<f32> {
    let norm_sq: f32 = v.iter().map(|x| x * x).sum();
    if norm_sq == 0.0 {
        return vec![0.0; v.len()];
    }
    let inv = 1.0 / norm_sq.sqrt();
    v.iter().map(|x| x * inv).collect()
}

fn unit_bits(v: &[f32]) -> Vec<u32> {
    normalize(v).iter().map(|x| x.to_bits()).collect()
}

fn scores_for(engine: &AnnEngine, query: &[f32]) -> Vec<u32> {
    let q = normalize(query);
    let db = engine.db();
    let dim = db.embedding_dim();
    let m = db.matrix();
    (0..db.len())
        .map(|i| {
            let s: f32 = (0..dim).map(|j| f32::from_bits(m[i * dim + j]) * q[j]).sum();
            s.to_bits()
        })
        .collect()
}

// Deterministic stand-in for uniformly drawn components in [0, 1).
fn generate_dummy_embeddings(count: usize, dim: usize) -> (Vec<Vec<f32>>, Vec<String>) {
    let mut state: u64 = 0x2545_f491_4f6c_dd1d;
    let mut next = move || {
        state = state.wrapping_mul(6364136223846793005).wrapping_add(1442695040888963407);
        ((state >> 40) as f32) / ((1u64 << 24) as f32)
    };
    let embeddings = (0..count).map(|_| (0..dim).map(|_| next()).collect::<Vec<f32>>()).collect();
    let ids = (0..count).map(|i| format!("{}", i)).collect();
    (embeddings, ids)
}

fn add(engine: &mut AnnEngine, embeddings: &[Vec<f32>], ids: &[String]) -> Result<bool, DbError> {
    let normalized: Vec<Vec<u32>> = embeddings.iter().map(|e| unit_bits(e)).collect();
    engine.add_items_batch(&normalized, &ids.to_vec())
}

fn search(engine: &AnnEngine, query: &[f32], k: usize) -> Vec<String> {
    let q: Vec<u32> = query.iter().map(|x| x.to_bits()).collect();
    engine.search(&q, &scores_for(engine, query), k)
}

#[test]
fn test_ann_engine_new_add_search() {
    let mut engine = AnnEngine::new(DIM, None).unwrap();
    let (embeddings, ids) = generate_dummy_embeddings(100, DIM);
    add(&mut engine, &embeddings, &ids).unwrap();
    assert_eq!(engine.item_count(), 100);

    engine.build_index().unwrap();

    let query_embedding = embeddings[0].clone();
    let results = search(&engine, &query_embedding, 5);
    assert!(!results.is_empty(), "Search returned no results");
    assert_eq!(results.len(), 5.min(engine.item_count()), "Search returned incorrect number of results");
    assert_eq!(results[0], "0", "The first result should be the item itself");
}

#[test]
fn test_ann_engine_persistence() {
    let mut engine1 = AnnEngine::new(DIM, None).unwrap();
    let (embeddings, ids) = generate_dummy_embeddings(10, DIM);
    let changed = add(&mut engine1, &embeddings, &ids).unwrap();
    assert!(changed);
    assert_eq!(engine1.item_count(), 10);
    let saved = engine1.db().save();

    drop(engine1);
    let engine2 = AnnEngine::new(DIM, Some(saved)).unwrap();
    assert_eq!(engine2.item_count(), 10, "Engine2 should load 10 items from persisted DB");

    let query_embedding = embeddings[5].clone();
    let results = search(&engine2, &query_embedding, 1);
    assert_eq!(results.len(), 1);
    assert_eq!(results[0], "5");
}

#[test]
fn batch_count_mismatch_changes_nothing() {
    let mut engine = AnnEngine::new(2, None).unwrap();
    add(&mut engine, &[vec![1.0, 0.0]], &["0".to_string()]).unwrap();
    let err = add(&mut engine, &[vec![0.0, 1.0], vec![1.0, 1.0]], &["1".to_string()]).err().unwrap();
    assert_eq!(err, DbError::CountMismatch { embeddings: 2, ids: 1 });
    assert_eq!(err.message(), "Embeddings and IDs count mismatch: 2 vs 1");
    assert_eq!(engine.item_count(), 1);
    assert_eq!(engine.db().matrix().len(), 2);
}

#[test]
fn empty_batch_needs_no_save() {
    let mut engine = AnnEngine::new(2, None).unwrap();
    assert_eq!(add(&mut engine, &[], &[]), Ok(false));
    assert_eq!(engine.item_count(), 0);
}

#[test]
fn batch_with_wrong_dimension_is_refused() {
    let mut engine = AnnEngine::new(2, None).unwrap();
    let err = add(&mut engine, &[vec![1.0, 0.0], vec![1.0]], &["0".to_string(), "1".to_string()])
        .err()
        .unwrap();
    assert_eq!(err, DbError::VectorDimensionMismatch { id: "1".to_string(), expected: 2, found: 1 });
    assert_eq!(engine.item_count(), 0);
}

#[test]
fn search_with_wrong_query_length_is_empty() {
    let mut engine = AnnEngine::new(2, None).unwrap();
    add(&mut engine, &[vec![1.0, 0.0]], &["0".to_string()]).unwrap();
    let q: Vec<u32> = [1.0f32, 0.0, 0.0].iter().map(|x| x.to_bits()).collect();
    let scores = vec![1.0f32.to_bits()];
    assert!(engine.search(&q, &scores, 3).is_empty());
}

#[test]
fn persisted_store_of_other_dimension_is_refused() {
    let mut engine = AnnEngine::new(2, None).unwrap();
    add(&mut engine, &[vec![1.0, 0.0]], &["0".to_string()]).unwrap();
    let saved = engine.db().save();
    let err = AnnEngine::new(3, Some(saved)).err().unwrap();
    assert_eq!(err, DbError::StoredDimensionMismatch { stored: 2, expected: 3 });
}
