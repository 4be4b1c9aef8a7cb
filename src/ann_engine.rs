//! The adapter that callers use: positional string identifiers, batched
//! inserts, and search that returns identifiers only.
use vstd::prelude::*;
use crate::error::DbError;
use crate::entry::{
    Data, EntryView, Fields, StoredDatabase, admitted, dims_match, first_mismatch, hits_of,
    item_views, loaded_entries, loads, string_views, upsert_all,
};
use crate::nano_vector_db::NanoVectorDB;
use crate::score::ScoredIndex;
use crate::topk::is_top_k;

verus! {

/// The items of a batch: identifier `ids[i]` with vector `embeddings[i]`,
/// all with the same fields.
pub open spec fn batch_items(embeddings: Seq<Vec<u32>>, ids: Seq<String>, fields: Fields) -> Seq<
    EntryView,
> {
    Seq::new(
        embeddings.len(),
        |i: int| EntryView { id: ids[i]@, vector: embeddings[i]@, fields },
    )
}

/// The identifiers of the selected entries, in order.
pub open spec fn selected_ids(sel: Seq<ScoredIndex>, es: Seq<EntryView>) -> Seq<Seq<char>> {
    sel.map_values(|c: ScoredIndex| es[c.index as int].id)
}

/// The index over a vector store.
pub struct AnnEngine {
    db: NanoVectorDB,
    dimension: usize,
}

impl AnnEngine {
    /// The store behind the index.
    pub closed spec fn store(&self) -> NanoVectorDB {
        self.db
    }

    /// The invariant: a well-formed store of the index's dimension.
    pub closed spec fn wf(&self) -> bool {
        self.db.wf() && self.db.dim() == self.dimension
    }

    /// Opens the index of dimension `dimension` over a persisted store, or
    /// over an empty one; fails as [`NanoVectorDB::new`] does.
    pub fn new(dimension: usize, stored: Option<StoredDatabase>) -> (r: Result<Self, DbError>)
        ensures
            match r {
                Ok(engine) => {
                    &&& engine.wf()
                    &&& engine.store().dim() == dimension
                    &&& match stored {
                        Some(s) => loads(dimension, s)
                            && engine.store().entries()
                            == loaded_entries(dimension, s),
                        None => engine.store().entries().len() == 0,
                    }
                },
                Err(_) => stored.is_some() && !loads(dimension, stored.unwrap()),
            },
    {
        match NanoVectorDB::new(dimension, stored) {
            Ok(db) => Ok(AnnEngine { db, dimension }),
            Err(e) => Err(e),
        }
    }

    /// Adds a batch: `ids[i]` names `embeddings[i]`, which must be unit-normalised.
    ///
    /// Fails with `CountMismatch` when the two lists differ in length, and as
    /// [`NanoVectorDB::upsert`] does when a vector has the wrong length; in
    /// both cases nothing changes. Returns whether the store changed and is
    /// to be persisted (false for an empty batch).
    pub fn add_items_batch(&mut self, embeddings: &Vec<Vec<u32>>, ids: &Vec<String>) -> (r: Result<
        bool,
        DbError,
    >)
        requires
            old(self).wf(),
        ensures
            final(self).wf(),
            final(self).store().dim() == old(self).store().dim(),
            embeddings.len() != ids.len() ==> *final(self) == *old(self),
            match r {
                Ok(changed) => {
                    &&& embeddings.len() == ids.len()
                    &&& changed == (embeddings.len() > 0)
                    &&& exists|f: Fields|
                        {
                            &&& dims_match(
                                #[trigger] batch_items(embeddings@, ids@, f),
                                old(self).store().dim() as nat,
                            )
                            &&& upsert_all(old(self).store().entries(), batch_items(embeddings@, ids@, f)).0
                                == final(self).store().entries()
                        }
                },
                Err(e) => {
                    &&& final(self).store().entries() == old(self).store().entries()
                    &&& (embeddings.len() != ids.len() <==> e == DbError::CountMismatch {
                        embeddings: embeddings.len(),
                        ids: ids.len(),
                    })
                    &&& embeddings.len() == ids.len() ==> exists|b: int|
                        0 <= b < embeddings.len() && embeddings@[b].len() != old(self).store().dim()
                },
            },
    {
        if embeddings.len() != ids.len() {
            return Err(DbError::CountMismatch { embeddings: embeddings.len(), ids: ids.len() });
        }
        let fields: Fields = serde_json::Map::new();
        let mut items: Vec<Data> = Vec::new();
        let mut i: usize = 0;
        while i < embeddings.len()
            invariant
                embeddings.len() == ids.len(),
                0 <= i <= embeddings.len(),
                items@.len() == i,
                forall|a: int|
                    0 <= a < i ==> (#[trigger] items@[a])@ == (EntryView {
                        id: ids@[a]@,
                        vector: embeddings@[a]@,
                        fields,
                    }),
            decreases embeddings.len() - i,
        {
            let mut v: Vec<u32> = Vec::new();
            let mut j: usize = 0;
            while j < embeddings[i].len()
                invariant
                    i < embeddings.len(),
                    0 <= j <= embeddings@[i as int].len(),
                    v@ == embeddings@[i as int]@.take(j as int),
                decreases embeddings@[i as int].len() - j,
            {
                v.push(embeddings[i][j]);
                proof {
                    assert(embeddings@[i as int]@.take(j + 1) =~= embeddings@[i as int]@.take(
                        j as int,
                    ).push(embeddings@[i as int]@[j as int]));
                }
                j = j + 1;
            }
            assert(v@ =~= embeddings@[i as int]@);
            items.push(Data { id: ids[i].clone(), vector: v, fields: fields.clone() });
            i = i + 1;
        }
        let ghost views = item_views(items@);
        assert(views =~= batch_items(embeddings@, ids@, fields));
        if items.len() == 0 {
            assert(upsert_all(self.db.entries(), views).0 == self.db.entries());
            return Ok(false);
        }
        match self.db.upsert(items) {
            Ok(_) => Ok(true),
            Err(e) => {
                proof {
                    let b = choose|b: int|
                        first_mismatch(views, self.db.dim() as nat, b);
                    assert(embeddings@[b]@ == views[b].vector);
                }
                Err(e)
            },
        }
    }

    /// Kept as a step of the index's lifecycle: the exact scan needs no
    /// construction, so this changes nothing.
    pub fn build_index(&mut self) -> (r: Result<(), DbError>)
        ensures
            *final(self) == *old(self),
            r is Ok,
    {
        Ok(())
    }

    /// The identifiers of the `k` entries most similar to the query, best first.
    ///
    /// `query_scores[i]` is the cosine similarity between the normalised
    /// query and entry `i`. A query whose length is not the index's dimension
    /// gives no result, as do scores that are not one per entry.
    pub fn search(&self, query_embedding: &Vec<u32>, query_scores: &Vec<u32>, k: usize) -> (r: Vec<
        String,
    >)
        requires
            self.wf(),
        ensures
            query_embedding.len() != self.store().dim() || query_scores.len()
                != self.store().entries().len() ==> r@.len() == 0,
            query_embedding.len() == self.store().dim() && query_scores.len()
                == self.store().entries().len() ==> exists|sel: Seq<ScoredIndex>|
                is_top_k(
                    sel,
                    query_scores@,
                    Seq::new(self.store().entries().len(), |i: int| true),
                    None,
                    k as nat,
                    self.store().entries().len() as int,
                ) && string_views(r@) == selected_ids(sel, self.store().entries()),
    {
        if query_embedding.len() != self.dimension || query_scores.len() != self.db.len() {
            return Vec::new();
        }
        let hits = self.db.query(query_scores, k, None, None);
        let ghost es = self.db.entries();
        let ghost sel = choose|sel: Seq<ScoredIndex>|
            is_top_k(
                sel,
                query_scores@,
                admitted(None, es.len()),
                None,
                k as nat,
                es.len() as int,
            ) && hits_of(hits@, sel, es);
        let mut out: Vec<String> = Vec::new();
        let mut j: usize = 0;
        while j < hits.len()
            invariant
                0 <= j <= hits@.len(),
                hits_of(hits@, sel, es),
                string_views(out@) == selected_ids(sel, es).take(j as int),
            decreases hits.len() - j,
        {
            let ghost prev = out@;
            out.push(hits[j].id.clone());
            proof {
                assert(string_views(out@) =~= string_views(prev).push(hits@[j as int].id@));
                assert(selected_ids(sel, es).take(j + 1) =~= selected_ids(sel, es).take(j as int).push(
                    selected_ids(sel, es)[j as int],
                ));
            }
            j = j + 1;
        }
        assert(selected_ids(sel, es).take(hits@.len() as int) =~= selected_ids(sel, es));
        out
    }

    /// Number of entries.
    pub fn item_count(&self) -> (r: usize)
        ensures
            r == self.store().entries().len(),
    {
        self.db.len()
    }

    /// The store behind the index.
    pub fn db(&self) -> (r: &NanoVectorDB)
        ensures
            *r == self.store(),
    {
        &self.db
    }
}

} // verus!
