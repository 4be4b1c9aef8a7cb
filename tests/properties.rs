use recipe_optim::ann_engine::AnnEngine;
use recipe_optim::nano_vector_db::{Data, NanoVectorDB};
use recipe_optim::score::{rank_of, ScoredIndex};

fn normalize(v: &[f32]) -> Vec<f32> {
    let norm_sq: f32 = v.iter().map(|x| x * x).sum();
    if norm_sq == 0.0 {
        return vec![0.0; v.len()];
    }
    let inv = 1.0 / norm_sq.sqrt();
    v.iter().map(|x| x * inv).collect()
}

fn unit_bits(v: &[f32]) -> Vec<u32> {
    normalize(v).iter().map(|x| x.to_bits()).collect()
}

fn scores_for(db: &NanoVectorDB, query: &[f32]) -> Vec<u32> {
    let q = normalize(query);
    let dim = db.embedding_dim();
    let m = db.matrix();
    (0..db.len())
        .map(|i| {
            let s: f32 = (0..dim).map(|j| f32::from_bits(m[i * dim + j]) * q[j]).sum();
            s.to_bits()
        })
        .collect()
}

fn entry(id: &str, v: &[f32]) -> Data {
    Data { id: id.to_string(), vector: unit_bits(v), fields: serde_json::Map::new() }
}

fn store_of(dim: usize, items: &[(&str, Vec<f32>)]) -> NanoVectorDB {
    let mut db = NanoVectorDB::new(dim, None).unwrap();
    db.upsert(items.iter().map(|(id, v)| entry(id, v)).collect()).unwrap();
    db
}

#[test]
fn nearest_two_of_three_come_best_first() {
    let db = store_of(3, &[("a", vec![1.0, 0.0, 0.0]), ("b", vec![0.0, 1.0, 0.0]), ("c", vec![0.9, 0.1, 0.0])]);
    let hits = db.query(&scores_for(&db, &[1.0, 0.0, 0.0]), 2, None, None);
    let ids: Vec<&str> = hits.iter().map(|h| h.id.as_str()).collect();
    assert_eq!(ids, vec!["a", "c"]);
}

#[test]
fn adapter_returns_nearest_two_of_three() {
    let mut engine = AnnEngine::new(3, None).unwrap();
    let embeddings = vec![unit_bits(&[1.0, 0.0, 0.0]), unit_bits(&[0.0, 1.0, 0.0]), unit_bits(&[0.9, 0.1, 0.0])];
    let ids = vec!["a".to_string(), "b".to_string(), "c".to_string()];
    engine.add_items_batch(&embeddings, &ids).unwrap();
    let q = [1.0f32, 0.0, 0.0];
    let qbits: Vec<u32> = q.iter().map(|x| x.to_bits()).collect();
    let found = engine.search(&qbits, &scores_for(engine.db(), &q), 2);
    assert_eq!(found, vec!["a".to_string(), "c".to_string()]);
}

#[test]
fn reloaded_store_finds_unnormalised_vector_first() {
    let items = vec![("p", vec![3.0, 4.0, 0.0]), ("q", vec![0.0, 2.0, 5.0]), ("r", vec![-1.0, 0.5, 0.5])];
    let db = store_of(3, &items);
    let saved = db.save();
    let back = NanoVectorDB::new(3, Some(saved)).unwrap();
    assert_eq!(back.len(), 3);
    let hits = back.query(&scores_for(&back, &[0.0, 2.0, 5.0]), 3, None, None);
    assert_eq!(hits[0].id, "q");
    assert!((f32::from_bits(hits[0].score) - 1.0).abs() < 1e-5);
}

#[test]
fn inserted_vector_matches_itself_best() {
    let mut db = store_of(2, &[("a", vec![1.0, 0.2]), ("b", vec![-0.3, 1.0])]);
    let v = [0.6f32, 0.7];
    db.upsert(vec![entry("x", &v)]).unwrap();
    let hits = db.query(&scores_for(&db, &v), 3, None, None);
    assert_eq!(hits[0].id, "x");
    for h in &hits {
        assert!(rank_of(h.score) <= rank_of(hits[0].score));
    }
}

#[test]
fn update_replaces_vector_and_fields() {
    let mut db = NanoVectorDB::new(2, None).unwrap();
    let mut old_fields = serde_json::Map::new();
    old_fields.insert("old".to_string(), serde_json::Value::Bool(true));
    db.upsert(vec![
        Data { id: "u".to_string(), vector: unit_bits(&[1.0, 0.0]), fields: old_fields },
        entry("w", &[0.0, 1.0]),
    ])
    .unwrap();
    let mut new_fields = serde_json::Map::new();
    new_fields.insert("new".to_string(), serde_json::Value::Bool(true));
    let (updated, inserted) = db
        .upsert(vec![Data { id: "u".to_string(), vector: unit_bits(&[0.0, 2.0]), fields: new_fields }])
        .unwrap();
    assert_eq!(updated, vec!["u".to_string()]);
    assert!(inserted.is_empty());
    assert_eq!(db.len(), 2);
    let got = db.get(&vec!["u".to_string()]);
    assert!(got[0].fields.get("old").is_none());
    assert_eq!(got[0].fields["new"], true);
    assert_eq!(got[0].vector, unit_bits(&[0.0, 1.0]));
}

#[test]
fn deleted_entry_is_gone() {
    let mut db = store_of(2, &[("x", vec![1.0, 0.0]), ("y", vec![0.0, 1.0]), ("z", vec![1.0, 1.0])]);
    let removed = db.delete(&vec!["y".to_string()]).unwrap();
    assert_eq!(removed, 1);
    assert_eq!(db.len(), 2);
    assert_eq!(db.matrix().len(), db.len() * db.embedding_dim());
    let hits = db.query(&scores_for(&db, &[0.0, 1.0]), 5, None, None);
    assert!(hits.iter().all(|h| h.id != "y"));
    assert_eq!(db.delete(&vec!["missing".to_string()]).unwrap(), 0);
}

#[test]
fn top_k_is_bounded_by_store_size() {
    let db = store_of(2, &[("a", vec![1.0, 0.0]), ("b", vec![0.0, 1.0]), ("c", vec![1.0, 1.0])]);
    let scores = scores_for(&db, &[1.0, 0.3]);
    assert_eq!(db.query(&scores, 10, None, None).len(), 3);
    let hits = db.query(&scores, 2, None, None);
    assert_eq!(hits.len(), 2);
    assert!(rank_of(hits[0].score) >= rank_of(hits[1].score));
    let best = scores.iter().map(|s| rank_of(*s)).max().unwrap();
    assert_eq!(rank_of(hits[0].score), best);
    assert!(db.query(&scores, 0, None, None).is_empty());
}

#[test]
fn zero_vector_entry_is_kept_but_scores_zero() {
    let db = store_of(2, &[("z", vec![0.0, 0.0]), ("a", vec![1.0, 0.0])]);
    assert_eq!(db.len(), 2);
    let hits = db.query(&scores_for(&db, &[1.0, 0.0]), 2, None, None);
    assert_eq!(hits[0].id, "a");
    assert_eq!(f32::from_bits(hits[1].score), 0.0);
}

#[test]
fn ranks_follow_float_order() {
    let values = [f32::NEG_INFINITY, -2.5, -0.0, 0.0, 1e-30, 0.75, 1.0, f32::INFINITY];
    for w in values.windows(2) {
        assert!(rank_of(w[0].to_bits()) <= rank_of(w[1].to_bits()));
        assert_eq!(w[0] < w[1], rank_of(w[0].to_bits()) < rank_of(w[1].to_bits()));
    }
    assert_eq!(rank_of((-0.0f32).to_bits()), rank_of(0.0f32.to_bits()));
    assert!(rank_of(f32::NAN.to_bits()) < rank_of(f32::NEG_INFINITY.to_bits()));
    let a = ScoredIndex { score: 0.25f32.to_bits(), index: 0 };
    let b = ScoredIndex { score: 0.25f32.to_bits(), index: 1 };
    assert_eq!(a.cmp(&b), std::cmp::Ordering::Equal);
}
