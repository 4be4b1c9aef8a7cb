use recipe_optim::codec::{decode_matrix, encode_matrix};
use recipe_optim::error::DbError;
use recipe_optim::nano_vector_db::{Data, Fields, NanoVectorDB, Record, StoredDatabase};
use recipe_optim::score::ScoredIndex;
use recipe_optim::topk::top_k;
use std::cmp::Ordering;

fn bits(v: &[f32]) -> Vec<u32> {
    v.iter().map(|x| x.to_bits()).collect()
}

fn normalize(v: &[f32]) -> Vec<f32> {
    let norm_sq: f32 = v.iter().map(|x| x * x).sum();
    if norm_sq == 0.0 {
        return vec![0.0; v.len()];
    }
    let inv = 1.0 / norm_sq.sqrt();
    v.iter().map(|x| x * inv).collect()
}

fn unit_bits(v: &[f32]) -> Vec<u32> {
    bits(&normalize(v))
}

fn scores_for(db: &NanoVectorDB, query: &[f32]) -> Vec<u32> {
    let q = normalize(query);
    let dim = db.embedding_dim();
    let m = db.matrix();
    (0..db.len())
        .map(|i| {
            let s: f32 = (0..dim).map(|j| f32::from_bits(m[i * dim + j]) * q[j]).sum();
            s.to_bits()
        })
        .collect()
}

fn fields_with(key: &str, value: &str) -> Fields {
    let mut f = serde_json::Map::new();
    f.insert(key.to_string(), serde_json::Value::String(value.to_string()));
    f
}

fn item(id: &str, v: &[f32], fields: Fields) -> Data {
    Data { id: id.to_string(), vector: unit_bits(v), fields }
}

fn stored(dim: usize, ids: &[&str], matrix: &[f32]) -> StoredDatabase {
    StoredDatabase {
        embedding_dim: dim,
        data: ids
            .iter()
            .map(|id| Record { id: id.to_string(), fields: serde_json::Map::new() })
            .collect(),
        matrix: encode_matrix(&bits(matrix)),
        additional_data: serde_json::Map::new(),
    }
}

#[test]
fn test_base64_deserialization_edge_cases() {
    let valid = stored(2, &["test"], &[1.0, 2.0]);
    let db = NanoVectorDB::new(2, Some(valid)).unwrap();
    let m: Vec<f32> = db.matrix().iter().map(|b| f32::from_bits(*b)).collect();
    assert_eq!(m, vec![1.0, 2.0]);

    let mut invalid = stored(2, &["test"], &[1.0, 2.0]);
    invalid.matrix = "INVALID_BASE64!!".to_string();
    let result = NanoVectorDB::new(2, Some(invalid));
    assert!(result.is_err());
}

#[test]
fn test_matrix_size_validation_on_load() {
    let corrupt = stored(2, &["entry1"], &[1.0]);
    let result = NanoVectorDB::new(2, Some(corrupt));
    assert!(result.is_err(), "Expected an error due to matrix size mismatch");
    let err_msg = result.err().unwrap().message();
    assert!(err_msg.contains("Matrix size mismatch"), "Error message mismatch: {}", err_msg);
    assert!(err_msg.contains("expected 2"), "Error message mismatch: {}", err_msg);
    assert!(err_msg.contains("got 1"), "Error message mismatch: {}", err_msg);
}

#[test]
fn test_embedding_dim_validation_on_load() {
    let db_2d = stored(2, &["entry1"], &[0.0, 0.0]);
    let result = NanoVectorDB::new(3, Some(db_2d));
    assert!(result.is_err(), "Expected an error due to embedding dimension mismatch");
    let err_msg = result.err().unwrap().message();
    assert!(err_msg.contains("Embedding dimension mismatch"), "Error message mismatch: {}", err_msg);
    assert!(err_msg.contains("DB has 2"), "Error message mismatch: {}", err_msg);
    assert!(err_msg.contains("expected 3"), "Error message mismatch: {}", err_msg);
}

#[test]
fn test_scored_index_ordering_for_max_heap() {
    let scores = bits(&[0.8, 0.9, 0.7, 1.0]);
    let sorted_k = top_k(&scores, &vec![true; 4], None, 2);
    assert_eq!(sorted_k.len(), 2);
    assert_eq!(f32::from_bits(sorted_k[0].score), 1.0, "Highest score of the top 2 should be 1.0");
    assert_eq!(f32::from_bits(sorted_k[1].score), 0.9, "Second highest score of the top 2 should be 0.9");

    let nan_score = ScoredIndex { score: f32::NAN.to_bits(), index: 0 };
    let regular_score = ScoredIndex { score: 0.5f32.to_bits(), index: 1 };
    assert_eq!(
        nan_score.cmp(&regular_score),
        Ordering::Less,
        "NaN score should be Less than a regular score for min-heap ordering"
    );
    assert_eq!(
        regular_score.cmp(&nan_score),
        Ordering::Greater,
        "Regular score should be Greater than a NaN score for min-heap ordering"
    );
}

#[test]
fn test_upsert_and_query() {
    let mut db = NanoVectorDB::new(3, None).unwrap();
    let samples1 = vec![
        item("vec1", &[1.0, 2.0, 3.0], fields_with("color", "red")),
        item("vec2", &[-4.0, 5.0, 6.0], fields_with("color", "blue")),
    ];
    let (_, inserted1) = db.upsert(samples1).unwrap();
    assert_eq!(inserted1.len(), 2);
    let _saved = db.save();

    let samples2 = vec![
        item("vec1", &[1.1, 2.1, 3.1], fields_with("color", "dark red")),
        item("vec3", &[7.0, 8.0, -9.0], fields_with("color", "green")),
    ];
    let (updated2, inserted2) = db.upsert(samples2).unwrap();
    assert_eq!(updated2.len(), 1);
    assert_eq!(inserted2.len(), 1);
    assert_eq!(db.len(), 3);

    let query_vec = [1.0, 2.0, 3.0];
    let results = db.query(&scores_for(&db, &query_vec), 1, None, None);
    assert_eq!(results.len(), 1);
    let top_result = &results[0];
    assert_eq!(top_result.id, "vec1");
    assert_eq!(top_result.fields["color"], "dark red");
    assert!(f32::from_bits(top_result.score) > 0.95);
}

#[test]
fn test_delete() {
    let mut db = NanoVectorDB::new(3, None).unwrap();
    let samples = vec![
        item("v1", &[1., 0., 0.], serde_json::Map::new()),
        item("v2", &[0., 1., 0.], serde_json::Map::new()),
        item("v3", &[0., 0., 1.], serde_json::Map::new()),
    ];
    db.upsert(samples).unwrap();
    assert_eq!(db.len(), 3);

    db.delete(&vec!["v2".to_string()]).unwrap();
    assert_eq!(db.len(), 2);

    let all = vec!["v1".to_string(), "v2".to_string(), "v3".to_string()];
    let remaining_ids: Vec<String> = db.get(&all).into_iter().map(|d| d.id).collect();
    assert!(remaining_ids.contains(&"v1".to_string()));
    assert!(!remaining_ids.contains(&"v2".to_string()));
    assert!(remaining_ids.contains(&"v3".to_string()));

    assert_eq!(db.matrix().len(), 2 * db.embedding_dim());
}

#[test]
fn matrix_text_round_trips() {
    let words = bits(&[1.5, -0.0, f32::NAN, 3.25e-7]);
    let text = encode_matrix(&words);
    assert_eq!(decode_matrix(&text).unwrap(), words);
}

#[test]
fn matrix_text_is_little_endian_base64() {
    // 1.0f32 is 0x3f800000: bytes 00 00 80 3f.
    assert_eq!(encode_matrix(&bits(&[1.0])), "AACAPw==");
    assert_eq!(decode_matrix(&"AACAPw==".to_string()).unwrap(), vec![0x3f80_0000]);
}

#[test]
fn matrix_text_of_partial_word_is_refused() {
    // Three bytes are no whole 32-bit word.
    assert_eq!(decode_matrix(&"AAAA".to_string()), Err(DbError::UndecodableMatrix));
}

#[test]
fn duplicate_stored_ids_are_refused() {
    let s = stored(1, &["a", "b", "a"], &[1.0, 2.0, 3.0]);
    let result = NanoVectorDB::new(1, Some(s));
    assert_eq!(result.err(), Some(DbError::DuplicateId { id: "a".to_string() }));
}

#[test]
fn upsert_with_wrong_dimension_changes_nothing() {
    let mut db = NanoVectorDB::new(2, None).unwrap();
    db.upsert(vec![item("a", &[1.0, 0.0], serde_json::Map::new())]).unwrap();
    let bad = vec![
        item("b", &[0.0, 1.0], serde_json::Map::new()),
        item("c", &[1.0, 1.0, 1.0], serde_json::Map::new()),
    ];
    let err = db.upsert(bad).err().unwrap();
    assert_eq!(err, DbError::VectorDimensionMismatch { id: "c".to_string(), expected: 2, found: 3 });
    assert_eq!(
        err.message(),
        "Embedding dimension mismatch for item 'c'. Expected 2, got 3."
    );
    assert_eq!(db.len(), 1);
    assert_eq!(db.matrix().len(), 2);
}

#[test]
fn repeated_new_id_in_one_batch_is_inserted_then_updated() {
    let mut db = NanoVectorDB::new(1, None).unwrap();
    let (updated, inserted) = db
        .upsert(vec![
            Data { id: "x".to_string(), vector: bits(&[1.0]), fields: serde_json::Map::new() },
            Data { id: "x".to_string(), vector: bits(&[-1.0]), fields: fields_with("k", "v") },
        ])
        .unwrap();
    assert_eq!(inserted, vec!["x".to_string()]);
    assert_eq!(updated, vec!["x".to_string()]);
    assert_eq!(db.len(), 1);
    assert_eq!(db.matrix(), &bits(&[-1.0]));
}

#[test]
fn query_applies_floor_and_filter() {
    let mut db = NanoVectorDB::new(2, None).unwrap();
    db.upsert(vec![
        item("a", &[1.0, 0.0], serde_json::Map::new()),
        item("b", &[0.0, 1.0], serde_json::Map::new()),
        item("c", &[1.0, 1.0], serde_json::Map::new()),
    ])
    .unwrap();
    let scores = scores_for(&db, &[1.0, 0.0]);
    let floor = Some(0.5f32.to_bits());
    let hits = db.query(&scores, 10, floor, None);
    let ids: Vec<&str> = hits.iter().map(|h| h.id.as_str()).collect();
    assert_eq!(ids, vec!["a", "c"]);
    let mask = vec![false, true, true];
    let hits = db.query(&scores, 10, None, Some(&mask));
    let ids: Vec<&str> = hits.iter().map(|h| h.id.as_str()).collect();
    assert_eq!(ids, vec!["c", "b"]);
}

#[test]
fn nan_scores_are_evicted_first() {
    let scores = bits(&[f32::NAN, -0.9, f32::NAN, 0.1]);
    let sel = top_k(&scores, &vec![true; 4], None, 2);
    let idx: Vec<usize> = sel.iter().map(|c| c.index).collect();
    assert_eq!(idx, vec![3, 1]);
    // A floor rejects NaN scores outright, as `>=` does.
    let sel = top_k(&scores, &vec![true; 4], Some((-1.0f32).to_bits()), 4);
    let idx: Vec<usize> = sel.iter().map(|c| c.index).collect();
    assert_eq!(idx, vec![3, 1]);
}

#[test]
fn additional_data_is_kept_through_save_and_load() {
    let mut db = NanoVectorDB::new(1, None).unwrap();
    db.store_additional_data(fields_with("source", "ciqual"));
    db.upsert(vec![Data { id: "a".to_string(), vector: bits(&[1.0]), fields: fields_with("n", "1") }])
        .unwrap();
    let saved = db.save();
    let back = NanoVectorDB::new(1, Some(saved)).unwrap();
    assert_eq!(back.get_additional_data()["source"], "ciqual");
    let got = back.get(&vec!["a".to_string()]);
    assert_eq!(got.len(), 1);
    assert_eq!(got[0].fields["n"], "1");
    assert_eq!(got[0].vector, bits(&[1.0]));
    assert_eq!(back.vector_bytes_len(), 4);
    assert_eq!(back.metric(), "cosine");
    assert!(!back.is_empty());
}
