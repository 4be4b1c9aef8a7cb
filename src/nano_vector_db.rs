//! The vector store: identifiers and metadata in insertion order, and a dense
//! matrix that holds one row per entry in the same order.
use vstd::prelude::*;
use crate::codec::{decode_matrix, encode_matrix, matrix_of_text, matrix_text};
use crate::error::DbError;
use crate::score::ScoredIndex;
use crate::topk::is_top_k;
use crate::entry::{
    admitted, capped_product, dims_match, entries_of, first_mismatch, has_id, hits_of,
    ids_unique, item_views, listed, loaded_entries, loads, not_listed, row, string_views,
    upsert_all, upsert_one,
};
pub use crate::entry::{Data, EntryView, Fields, QueryHit, Record, StoredDatabase};

verus! {

proof fn lemma_row_end(a: int, n: int, dim: int)
    requires
        0 <= a < n,
        0 <= dim,
    ensures
        a * dim + dim <= n * dim,
        0 <= a * dim,
{
    assert(a * dim + dim <= n * dim) by (nonlinear_arith)
        requires
            0 <= a < n,
            0 <= dim,
    ;
    assert(0 <= a * dim) by (nonlinear_arith)
        requires
            0 <= a,
            0 <= dim,
    ;
}

/// Rows that lie in the first part of a concatenation are rows of that part.
proof fn lemma_rows_of_prefix(m: Seq<u32>, extra: Seq<u32>, n: int, dim: nat)
    requires
        0 <= n,
        m.len() == n * dim,
    ensures
        forall|a: int| 0 <= a < n ==> #[trigger] row(m + extra, dim, a) == row(m, dim, a),
        row(m + extra, dim, n) == extra.subrange(0, dim as int) || extra.len() < dim,
{
    assert forall|a: int| 0 <= a < n implies #[trigger] row(m + extra, dim, a) == row(m, dim, a) by {
        lemma_row_end(a, n, dim as int);
        assert(row(m + extra, dim, a) =~= row(m, dim, a));
    }
    if extra.len() >= dim {
        assert(row(m + extra, dim, n) =~= extra.subrange(0, dim as int));
    }
}

/// Whether `id` is one of `ids`.
fn contains_id(ids: &Vec<String>, id: &String) -> (r: bool)
    ensures
        r == string_views(ids@).contains(id@),
{
    let mut i: usize = 0;
    while i < ids.len()
        invariant
            0 <= i <= ids@.len(),
            forall|a: int| 0 <= a < i ==> (#[trigger] ids@[a])@ != id@,
        decreases ids.len() - i,
    {
        if ids[i] == *id {
            assert(string_views(ids@)[i as int] == id@);
            return true;
        }
        i = i + 1;
    }
    assert(!string_views(ids@).contains(id@)) by {
        if string_views(ids@).contains(id@) {
            let a = choose|a: int| 0 <= a < string_views(ids@).len() && string_views(ids@)[a] == id@;
            assert(ids@[a]@ == id@);
        }
    }
    false
}

/// Appends `src[start .. start + len]` to `dst`.
fn append_slice(dst: &mut Vec<u32>, src: &Vec<u32>, start: usize, len: usize)
    requires
        start + len <= src.len(),
    ensures
        final(dst)@ == old(dst)@ + src@.subrange(start as int, start + len),
{
    let ghost init = dst@;
    let mut j: usize = 0;
    while j < len
        invariant
            start + len <= src.len(),
            0 <= j <= len,
            dst@ == init + src@.subrange(start as int, start + j),
        decreases len - j,
    {
        dst.push(src[start + j]);
        proof {
            assert(src@.subrange(start as int, start + j + 1) =~= src@.subrange(start as int, start + j).push(
                src@[start + j],
            ));
        }
        j = j + 1;
    }
}

/// Adding a record and a row adds their entry.
proof fn lemma_entries_push(records: Seq<Record>, m: Seq<u32>, dim: nat, rec: Record, r: Seq<u32>)
    requires
        m.len() == records.len() * dim,
        r.len() == dim,
    ensures
        entries_of(records.push(rec), m + r, dim) == entries_of(records, m, dim).push(
            EntryView { id: rec.id@, vector: r, fields: rec.fields },
        ),
        (m + r).len() == records.push(rec).len() * dim,
{
    let n = records.len() as int;
    lemma_rows_of_prefix(m, r, n, dim);
    assert(r.subrange(0, dim as int) =~= r);
    assert((m + r).len() == (n + 1) * dim) by (nonlinear_arith)
        requires
            (m + r).len() == n * dim + dim,
    ;
    assert(entries_of(records.push(rec), m + r, dim) =~= entries_of(records, m, dim).push(
        EntryView { id: rec.id@, vector: r, fields: rec.fields },
    ));
}

proof fn lemma_filter_step(es: Seq<EntryView>, i: int, p: spec_fn(EntryView) -> bool)
    requires
        0 <= i < es.len(),
    ensures
        es.take(i + 1).filter(p) == if p(es[i]) {
            es.take(i).filter(p).push(es[i])
        } else {
            es.take(i).filter(p)
        },
{
    reveal(Seq::filter);
    assert(es.take(i + 1).drop_last() =~= es.take(i));
    assert(es.take(i + 1).last() == es[i]);
}

/// The vector store.
#[derive(Debug)]
pub struct NanoVectorDB {
    embedding_dim: usize,
    metric: String,
    data: Vec<Record>,
    matrix: Vec<u32>,
    additional_data: Fields,
}

impl NanoVectorDB {
    /// Length of every stored vector.
    pub closed spec fn dim(&self) -> usize {
        self.embedding_dim
    }

    /// The entries, in store order.
    pub closed spec fn entries(&self) -> Seq<EntryView> {
        entries_of(self.data@, self.matrix@, self.embedding_dim as nat)
    }

    /// The dense matrix: the rows of all entries, one after the other.
    pub closed spec fn matrix_spec(&self) -> Seq<u32> {
        self.matrix@
    }

    /// Metadata of the store as a whole.
    pub closed spec fn additional_spec(&self) -> Fields {
        self.additional_data
    }

    /// The invariant between calls: one row of `embedding_dim` words per
    /// entry, unique identifiers, and the cosine measure.
    pub closed spec fn wf(&self) -> bool {
        &&& self.matrix@.len() == self.data@.len() * self.embedding_dim
        &&& ids_unique(self.entries())
        &&& self.metric@ == "cosine"@
    }

    /// The matrix holds exactly the entries' vectors, in order.
    pub proof fn lemma_matrix_layout(&self)
        requires
            self.wf(),
        ensures
            self.matrix_spec().len() == self.entries().len() * self.dim(),
            forall|i: int|
                0 <= i < self.entries().len() ==> #[trigger] self.entries()[i].vector.len()
                    == self.dim() && self.entries()[i].vector == row(
                    self.matrix_spec(),
                    self.dim() as nat,
                    i,
                ),
    {
        assert forall|i: int| 0 <= i < self.entries().len() implies #[trigger] self.entries()[i].vector.len()
            == self.embedding_dim by {
            lemma_row_end(i, self.data@.len() as int, self.embedding_dim as int);
        }
    }

    /// No two entries share an identifier.
    pub proof fn lemma_ids_unique(&self)
        requires
            self.wf(),
        ensures
            ids_unique(self.entries()),
    {
    }

    /// Builds a store of dimension `embedding_dim`: empty without a persisted
    /// form, else loaded from it.
    ///
    /// Loading fails with `UndecodableMatrix` when the matrix text is not
    /// base64 of whole 32-bit words, then with `StoredDimensionMismatch` when
    /// the persisted dimension differs, then with `MatrixSizeMismatch` when the
    /// matrix does not hold one row per record, then with `DuplicateId`.
    pub fn new(embedding_dim: usize, stored: Option<StoredDatabase>) -> (r: Result<Self, DbError>)
        ensures
            match r {
                Ok(db) => {
                    &&& db.wf()
                    &&& db.dim() == embedding_dim
                    &&& match stored {
                        Some(s) => loads(embedding_dim, s) && db.entries() == loaded_entries(
                            embedding_dim,
                            s,
                        ) && db.additional_spec() == s.additional_data,
                        None => db.entries().len() == 0,
                    }
                },
                Err(e) => match stored {
                    Some(s) => {
                        &&& !loads(embedding_dim, s)
                        &&& match matrix_of_text(s.matrix@) {
                            None => e == DbError::UndecodableMatrix,
                            Some(m) => if s.embedding_dim != embedding_dim {
                                e == DbError::StoredDimensionMismatch {
                                    stored: s.embedding_dim,
                                    expected: embedding_dim,
                                }
                            } else if m.len() != s.data@.len() * embedding_dim {
                                match e {
                                    DbError::MatrixSizeMismatch { expected, found } => {
                                        &&& expected == capped_product(
                                            s.data@.len() as nat,
                                            embedding_dim as nat,
                                        )
                                        &&& found == m.len()
                                    },
                                    _ => false,
                                }
                            } else {
                                exists|i: int, j: int|
                                    0 <= i < j < s.data@.len() && s.data@[i].id@ == s.data@[j].id@
                                        && (match e {
                                        DbError::DuplicateId { id } => id@ == s.data@[j].id@,
                                        _ => false,
                                    })
                            },
                        }
                    },
                    None => false,
                },
            },
    {
        let metric = String::from_str("cosine");
        proof {
            reveal_strlit("cosine");
        }
        match stored {
            None => {
                let db = NanoVectorDB {
                    embedding_dim,
                    metric,
                    data: Vec::new(),
                    matrix: Vec::new(),
                    additional_data: serde_json::Map::new(),
                };
                assert(db.entries().len() == 0);
                Ok(db)
            },
            Some(s) => {
                let matrix = match decode_matrix(&s.matrix) {
                    Ok(m) => m,
                    Err(e) => {
                        return Err(e);
                    },
                };
                if s.embedding_dim != embedding_dim {
                    return Err(
                        DbError::StoredDimensionMismatch {
                            stored: s.embedding_dim,
                            expected: embedding_dim,
                        },
                    );
                }
                let n = s.data.len();
                let fits = embedding_dim == 0 || n <= usize::MAX / embedding_dim;
                proof {
                    if embedding_dim != 0 {
                        if fits {
                            assert(n * embedding_dim <= (usize::MAX / embedding_dim) * embedding_dim)
                                by (nonlinear_arith)
                                requires
                                    n <= usize::MAX / embedding_dim,
                                    embedding_dim > 0,
                            ;
                            assert((usize::MAX / embedding_dim) * embedding_dim <= usize::MAX)
                                by (nonlinear_arith)
                                requires
                                    embedding_dim > 0,
                            ;
                        } else {
                            assert(n * embedding_dim > usize::MAX) by (nonlinear_arith)
                                requires
                                    n > usize::MAX / embedding_dim,
                                    embedding_dim > 0,
                            ;
                        }
                    }
                }
                if !fits {
                    return Err(
                        DbError::MatrixSizeMismatch { expected: usize::MAX, found: matrix.len() },
                    );
                }
                let expected = n * embedding_dim;
                if matrix.len() != expected {
                    return Err(DbError::MatrixSizeMismatch { expected, found: matrix.len() });
                }
                let ghost es = entries_of(s.data@, matrix@, embedding_dim as nat);
                let mut j: usize = 1;
                while j < n
                    invariant
                        n == s.data@.len(),
                        es == entries_of(s.data@, matrix@, embedding_dim as nat),
                        matrix_of_text(s.matrix@) == Some(matrix@),
                        stored == Some(s),
                        s.embedding_dim == embedding_dim,
                        matrix@.len() == n * embedding_dim,
                        1 <= j <= n || n == 0,
                        forall|a: int, b: int| 0 <= a < b < j && b < n ==> es[a].id != es[b].id,
                    decreases n - j,
                {
                    let mut i: usize = 0;
                    while i < j
                        invariant
                            0 <= i <= j < n,
                            n == s.data@.len(),
                            es == entries_of(s.data@, matrix@, embedding_dim as nat),
                            matrix_of_text(s.matrix@) == Some(matrix@),
                            stored == Some(s),
                            s.embedding_dim == embedding_dim,
                            matrix@.len() == n * embedding_dim,
                            forall|a: int, b: int| 0 <= a < b < j ==> es[a].id != es[b].id,
                            forall|a: int| 0 <= a < i ==> es[a].id != es[j as int].id,
                        decreases j - i,
                    {
                        if s.data[i].id == s.data[j].id {
                            let e = DbError::DuplicateId { id: s.data[j].id.clone() };
                            proof {
                                assert(es[i as int].id == es[j as int].id);
                                assert(!ids_unique(es));
                                assert(matrix_of_text(s.matrix@) == Some(matrix@));
                                assert(!loads(embedding_dim, s));
                                assert(match e {
                                    DbError::DuplicateId { id } => id@ == s.data@[j as int].id@,
                                    _ => false,
                                });
                                assert(0 <= i < j < s.data@.len() && s.data@[i as int].id@
                                    == s.data@[j as int].id@);
                            }
                            return Err(e);
                        }
                        i = i + 1;
                    }
                    j = j + 1;
                }
                let db = NanoVectorDB {
                    embedding_dim,
                    metric,
                    data: s.data,
                    matrix,
                    additional_data: s.additional_data,
                };
                assert(ids_unique(db.entries()));
                Ok(db)
            },
        }
    }

    /// The persisted form of the whole store; loading it with the same
    /// dimension gives back the same entries.
    pub fn save(&self) -> (s: StoredDatabase)
        requires
            self.wf(),
            self.matrix_spec().len() <= usize::MAX / 8,
        ensures
            s.embedding_dim == self.dim(),
            s.matrix@ == matrix_text(self.matrix_spec()),
            s.additional_data == self.additional_spec(),
            loads(self.dim(), s),
            loaded_entries(self.dim(), s) == self.entries(),
    {
        let mut records: Vec<Record> = Vec::new();
        let mut i: usize = 0;
        while i < self.data.len()
            invariant
                0 <= i <= self.data@.len(),
                records@.len() == i,
                forall|a: int| 0 <= a < i ==> (#[trigger] records@[a]).id@ == self.data@[a].id@,
                forall|a: int| 0 <= a < i ==> (#[trigger] records@[a]).fields == self.data@[a].fields,
            decreases self.data.len() - i,
        {
            let rec = Record { id: self.data[i].id.clone(), fields: self.data[i].fields.clone() };
            let ghost prev = records@;
            records.push(rec);
            assert(records@ == prev.push(rec));
            i = i + 1;
        }
        let matrix = encode_matrix(&self.matrix);
        let s = StoredDatabase {
            embedding_dim: self.embedding_dim,
            data: records,
            matrix,
            additional_data: self.additional_data.clone(),
        };
        assert(entries_of(s.data@, self.matrix@, self.embedding_dim as nat) =~= self.entries());
        s
    }

    /// The position of the entry with identifier `id`, if there is one.
    fn position_of(&self, id: &String) -> (r: Option<usize>)
        requires
            self.wf(),
        ensures
            match r {
                Some(p) => p < self.entries().len() && self.entries()[p as int].id == id@,
                None => !has_id(self.entries(), id@),
            },
    {
        let mut i: usize = 0;
        while i < self.data.len()
            invariant
                0 <= i <= self.data@.len(),
                forall|a: int| 0 <= a < i ==> #[trigger] self.entries()[a].id != id@,
            decreases self.data.len() - i,
        {
            if self.data[i].id == *id {
                return Some(i);
            }
            i = i + 1;
        }
        None
    }

    /// Replaces entry `p` by `item`, which has the same identifier.
    fn set_entry(&mut self, p: usize, item: &Data)
        requires
            old(self).wf(),
            p < old(self).entries().len(),
            old(self).entries()[p as int].id == item.id@,
            item.vector.len() == old(self).dim(),
        ensures
            final(self).wf(),
            final(self).dim() == old(self).dim(),
            final(self).additional_spec() == old(self).additional_spec(),
            final(self).entries() == old(self).entries().update(p as int, item@),
    {
        let ghost old_m = self.matrix@;
        let ghost old_es = self.entries();
        let dim = self.embedding_dim;
        proof {
            assert(self.entries().len() == self.data@.len());
            assert(p < self.data@.len());
            assert(self.matrix@.len() == self.data@.len() * dim);
            lemma_row_end(p as int, self.data@.len() as int, dim as int);
            assert(p * dim + dim <= self.matrix@.len());
        }
        let ghost before = *self;
        assert(self.matrix.len() == self.matrix@.len());
        let start = p * dim;
        let mut j: usize = 0;
        while j < dim
            invariant
                dim == self.embedding_dim,
                start == p * dim,
                start + dim <= old_m.len(),
                old_m.len() <= usize::MAX,
                self.data == before.data,
                self.embedding_dim == before.embedding_dim,
                self.additional_data == before.additional_data,
                self.metric == before.metric,
                0 <= j <= dim,
                self.matrix@.len() == old_m.len(),
                item.vector.len() == dim,
                forall|t: int|
                    0 <= t < old_m.len() ==> #[trigger] self.matrix@[t] == if start <= t < start + j {
                        item.vector@[t - start]
                    } else {
                        old_m[t]
                    },
            decreases dim - j,
        {
            self.matrix.set(start + j, item.vector[j]);
            j = j + 1;
        }
        let rec = Record { id: item.id.clone(), fields: item.fields.clone() };
        self.data.set(p, rec);
        proof {
            let n = self.data@.len() as int;
            assert forall|a: int| 0 <= a < n implies #[trigger] self.entries()[a] == old_es.update(
                p as int,
                item@,
            )[a] by {
                if a == p {
                    assert(row(self.matrix@, dim as nat, a) =~= item.vector@);
                } else if a < p {
                    lemma_row_end(a, p as int, dim as int);
                    assert(row(self.matrix@, dim as nat, a) =~= row(old_m, dim as nat, a));
                } else {
                    lemma_row_end(p as int, a, dim as int);
                    lemma_row_end(a, n, dim as int);
                    assert(row(self.matrix@, dim as nat, a) =~= row(old_m, dim as nat, a));
                }
            }
            assert(self.entries() =~= old_es.update(p as int, item@));
        }
    }

    /// Appends `item`, whose identifier no entry has.
    fn push_entry(&mut self, item: &Data)
        requires
            old(self).wf(),
            !has_id(old(self).entries(), item.id@),
            item.vector.len() == old(self).dim(),
        ensures
            final(self).wf(),
            final(self).dim() == old(self).dim(),
            final(self).additional_spec() == old(self).additional_spec(),
            final(self).entries() == old(self).entries().push(item@),
    {
        let ghost old_m = self.matrix@;
        let ghost old_es = self.entries();
        let ghost before = *self;
        let dim = self.embedding_dim;
        let mut j: usize = 0;
        while j < dim
            invariant
                dim == self.embedding_dim,
                0 <= j <= dim,
                item.vector.len() == dim,
                self.matrix@ == old_m + item.vector@.take(j as int),
                self.data == before.data,
                self.additional_data == before.additional_data,
                self.metric == before.metric,
            decreases dim - j,
        {
            self.matrix.push(item.vector[j]);
            proof {
                assert(item.vector@.take(j + 1) =~= item.vector@.take(j as int).push(item.vector@[j as int]));
            }
            j = j + 1;
        }
        let rec = Record { id: item.id.clone(), fields: item.fields.clone() };
        self.data.push(rec);
        proof {
            let n = old_es.len() as int;
            assert(item.vector@.take(dim as int) =~= item.vector@);
            lemma_rows_of_prefix(old_m, item.vector@, n, dim as nat);
            assert(self.matrix@.len() == (n + 1) * dim) by (nonlinear_arith)
                requires
                    self.matrix@.len() == n * dim + dim,
            ;
            assert forall|a: int| 0 <= a <= n implies #[trigger] self.entries()[a] == old_es.push(
                item@,
            )[a] by {
                if a == n {
                    assert(item.vector@.subrange(0, dim as int) =~= item.vector@);
                }
            }
            assert(self.entries() =~= old_es.push(item@));
        }
    }

    /// Inserts or updates a batch of items.
    ///
    /// Every item's vector must have length `embedding_dim`; otherwise the
    /// call fails naming the first item that does not, and nothing changes.
    /// Then the items are applied in order: an item whose identifier is in the
    /// store replaces that entry's vector and fields in place, any other is
    /// appended. Vectors are stored as given: callers hand in unit-normalised
    /// vectors. Returns the identifiers of the updated and of the inserted
    /// items.
    pub fn upsert(&mut self, datas: Vec<Data>) -> (r: Result<(Vec<String>, Vec<String>), DbError>)
        requires
            old(self).wf(),
        ensures
            final(self).wf(),
            final(self).dim() == old(self).dim(),
            final(self).additional_spec() == old(self).additional_spec(),
            match r {
                Ok((updated, inserted)) => {
                    &&& dims_match(item_views(datas@), old(self).dim() as nat)
                    &&& upsert_all(old(self).entries(), item_views(datas@)) == (
                        final(self).entries(),
                        string_views(updated@),
                        string_views(inserted@),
                    )
                },
                Err(e) => {
                    &&& final(self).entries() == old(self).entries()
                    &&& exists|b: int|
                        first_mismatch(item_views(datas@), old(self).dim() as nat, b) && (match e {
                            DbError::VectorDimensionMismatch { id, expected, found } => {
                                &&& id@ == datas@[b].id@
                                &&& expected == old(self).dim()
                                &&& found == datas@[b].vector.len()
                            },
                            _ => false,
                        })
                },
            },
    {
        let ghost items = item_views(datas@);
        let dim = self.embedding_dim;
        let n = datas.len();
        let mut c: usize = 0;
        while c < n
            invariant
                n == datas@.len(),
                items == item_views(datas@),
                dim == self.dim(),
                0 <= c <= n,
                forall|i: int| 0 <= i < c ==> #[trigger] items[i].vector.len() == dim,
                *self == *old(self),
                self.wf(),
            decreases n - c,
        {
            if datas[c].vector.len() != dim {
                let e = DbError::VectorDimensionMismatch {
                    id: datas[c].id.clone(),
                    expected: dim,
                    found: datas[c].vector.len(),
                };
                assert(first_mismatch(items, dim as nat, c as int));
                return Err(e);
            }
            c = c + 1;
        }
        let ghost start = self.entries();
        let ghost target = upsert_all(start, items);
        proof {
            assert(items.subrange(0, n as int) =~= items);
            assert(Seq::<Seq<char>>::empty() + target.1 =~= target.1);
            assert(Seq::<Seq<char>>::empty() + target.2 =~= target.2);
        }
        let mut updated: Vec<String> = Vec::new();
        let mut inserted: Vec<String> = Vec::new();
        proof {
            assert(string_views(updated@) =~= Seq::<Seq<char>>::empty());
            assert(string_views(inserted@) =~= Seq::<Seq<char>>::empty());
        }
        let mut k: usize = 0;
        while k < n
            invariant
                n == datas@.len(),
                items == item_views(datas@),
                dims_match(items, dim as nat),
                dim == self.dim(),
                self.wf(),
                self.additional_spec() == old(self).additional_spec(),
                target == upsert_all(start, items),
                0 <= k <= n,
                upsert_all(self.entries(), items.subrange(k as int, n as int)).0 == target.0,
                string_views(updated@) + upsert_all(
                    self.entries(),
                    items.subrange(k as int, n as int),
                ).1 == target.1,
                string_views(inserted@) + upsert_all(
                    self.entries(),
                    items.subrange(k as int, n as int),
                ).2 == target.2,
            decreases n - k,
        {
            let ghost es = self.entries();
            let ghost rest = items.subrange(k as int, n as int);
            let ghost item = items[k as int];
            proof {
                assert(rest[0] == item);
                assert(rest.drop_first() =~= items.subrange(k + 1, n as int));
                assert(item.vector.len() == dim);
            }
            let d = &datas[k];
            match self.position_of(&d.id) {
                Some(p) => {
                    proof {
                        assert(has_id(es, item.id));
                        let c = choose|i: int| 0 <= i < es.len() && es[i].id == item.id;
                        assert(c == p);
                    }
                    self.set_entry(p, d);
                    let ghost uv = string_views(updated@);
                    updated.push(d.id.clone());
                    proof {
                        assert(string_views(updated@) =~= uv.push(item.id));
                        assert(uv.push(item.id) + upsert_all(self.entries(), items.subrange(k + 1, n as int)).1
                            =~= uv + (seq![item.id] + upsert_all(self.entries(), items.subrange(k + 1, n as int)).1));
                    }
                },
                None => {
                    self.push_entry(d);
                    let ghost iv = string_views(inserted@);
                    inserted.push(d.id.clone());
                    proof {
                        assert(string_views(inserted@) =~= iv.push(item.id));
                        assert(iv.push(item.id) + upsert_all(self.entries(), items.subrange(k + 1, n as int)).2
                            =~= iv + (seq![item.id] + upsert_all(self.entries(), items.subrange(k + 1, n as int)).2));
                    }
                },
            }
            k = k + 1;
        }
        proof {
            assert(items.subrange(n as int, n as int) =~= Seq::<EntryView>::empty());
            assert(string_views(updated@) + Seq::<Seq<char>>::empty() =~= string_views(updated@));
            assert(string_views(inserted@) + Seq::<Seq<char>>::empty() =~= string_views(inserted@));
        }
        Ok((updated, inserted))
    }

    /// The entries whose identifier is in `ids`, in store order; identifiers
    /// that no entry has are ignored.
    pub fn get(&self, ids: &Vec<String>) -> (r: Vec<Data>)
        requires
            self.wf(),
        ensures
            item_views(r@) == self.entries().filter(listed(string_views(ids@))),
    {
        let ghost es = self.entries();
        let ghost p = listed(string_views(ids@));
        let dim = self.embedding_dim;
        let mut out: Vec<Data> = Vec::new();
        let mut i: usize = 0;
        let mlen = self.matrix.len();
        proof {
            reveal(Seq::filter);
            assert(item_views(out@) =~= es.take(0).filter(p));
        }
        while i < self.data.len()
            invariant
                self.wf(),
                es == self.entries(),
                dim == self.embedding_dim,
                p == listed(string_views(ids@)),
                mlen == self.matrix@.len(),
                0 <= i <= self.data@.len(),
                item_views(out@) == es.take(i as int).filter(p),
            decreases self.data.len() - i,
        {
            proof {
                lemma_filter_step(es, i as int, p);
                lemma_row_end(i as int, self.data@.len() as int, dim as int);
            }
            if contains_id(ids, &self.data[i].id) {
                let mut v: Vec<u32> = Vec::new();
                append_slice(&mut v, &self.matrix, i * dim, dim);
                let d = Data { id: self.data[i].id.clone(), vector: v, fields: self.data[i].fields.clone() };
                let ghost prev = out@;
                out.push(d);
                proof {
                    assert(v@ =~= row(self.matrix@, dim as nat, i as int));
                    assert(item_views(out@) =~= item_views(prev).push(es[i as int]));
                }
            }
            i = i + 1;
        }
        proof {
            assert(es.take(self.data@.len() as int) =~= es);
        }
        out
    }

    /// Removes every entry whose identifier is in `ids_to_delete` and
    /// rebuilds the matrix from the rows of the survivors, in order. Returns
    /// how many entries were removed.
    pub fn delete(&mut self, ids_to_delete: &Vec<String>) -> (r: Result<usize, DbError>)
        requires
            old(self).wf(),
        ensures
            final(self).wf(),
            final(self).dim() == old(self).dim(),
            final(self).additional_spec() == old(self).additional_spec(),
            final(self).entries() == old(self).entries().filter(
                not_listed(string_views(ids_to_delete@)),
            ),
            r == Ok::<usize, DbError>((old(self).entries().len() - final(self).entries().len()) as usize),
    {
        let ghost es = self.entries();
        let ghost p = not_listed(string_views(ids_to_delete@));
        let dim = self.embedding_dim;
        let mut new_data: Vec<Record> = Vec::new();
        let mut new_matrix: Vec<u32> = Vec::new();
        let mut i: usize = 0;
        let mlen = self.matrix.len();
        proof {
            reveal(Seq::filter);
            assert(entries_of(new_data@, new_matrix@, dim as nat) =~= es.take(0).filter(p));
        }
        while i < self.data.len()
            invariant
                self.wf(),
                es == self.entries(),
                dim == self.embedding_dim,
                p == not_listed(string_views(ids_to_delete@)),
                mlen == self.matrix@.len(),
                0 <= i <= self.data@.len(),
                new_matrix@.len() == new_data@.len() * dim,
                entries_of(new_data@, new_matrix@, dim as nat) == es.take(i as int).filter(p),
                new_data@.len() <= i,
                forall|x: int|
                    0 <= x < new_data@.len() ==> exists|a: int|
                        0 <= a < i && es[a].id == (#[trigger] new_data@[x]).id@,
                ids_unique(entries_of(new_data@, new_matrix@, dim as nat)),
            decreases self.data.len() - i,
        {
            proof {
                lemma_filter_step(es, i as int, p);
                lemma_row_end(i as int, self.data@.len() as int, dim as int);
            }
            if !contains_id(ids_to_delete, &self.data[i].id) {
                let ghost prev_d = new_data@;
                let ghost prev_m = new_matrix@;
                append_slice(&mut new_matrix, &self.matrix, i * dim, dim);
                let rec = Record { id: self.data[i].id.clone(), fields: self.data[i].fields.clone() };
                new_data.push(rec);
                proof {
                    let r = self.matrix@.subrange(i * dim, i * dim + dim);
                    lemma_entries_push(prev_d, prev_m, dim as nat, rec, r);
                    assert(new_data@ == prev_d.push(rec));
                    assert(EntryView { id: rec.id@, vector: r, fields: rec.fields } == es[i as int]);
                    let ne = entries_of(new_data@, new_matrix@, dim as nat);
                    assert forall|x: int, y: int| 0 <= x < y < ne.len() implies ne[x].id != ne[y].id by {
                        if y == ne.len() - 1 {
                            let a = choose|a: int| 0 <= a < i && es[a].id == (#[trigger] prev_d[x]).id@;
                            assert(es[a].id != es[i as int].id);
                        } else {
                            assert(entries_of(prev_d, prev_m, dim as nat)[x].id != entries_of(prev_d, prev_m, dim as nat)[y].id);
                        }
                    }
                    assert forall|x: int| 0 <= x < new_data@.len() implies exists|a: int|
                        0 <= a < i + 1 && es[a].id == (#[trigger] new_data@[x]).id@ by {
                        if x == new_data@.len() - 1 {
                            assert(es[i as int].id == new_data@[x].id@);
                        } else {
                            assert(new_data@[x] == prev_d[x]);
                            let a = choose|a: int| 0 <= a < i && es[a].id == (#[trigger] prev_d[x]).id@;
                            assert(es[a].id == new_data@[x].id@);
                        }
                    }
                }
            }
            i = i + 1;
        }
        proof {
            assert(es.take(self.data@.len() as int) =~= es);
        }
        let removed = self.data.len() - new_data.len();
        self.data = new_data;
        self.matrix = new_matrix;
        Ok(removed)
    }

    /// The `top_k` entries most similar to a query, best first.
    ///
    /// `query_scores[i]` is the cosine similarity between the normalised
    /// query and entry `i` (the dot product of two unit vectors). Entries
    /// that `filter` does not admit, and, when `better_than` is given, those
    /// scoring below it are left out; NaN scores rank below all others. Ties
    /// may come in any order.
    pub fn query(
        &self,
        query_scores: &Vec<u32>,
        top_k: usize,
        better_than: Option<u32>,
        filter: Option<&Vec<bool>>,
    ) -> (r: Vec<QueryHit>)
        requires
            self.wf(),
            query_scores.len() == self.entries().len(),
            match filter {
                Some(m) => m.len() == self.entries().len(),
                None => true,
            },
        ensures
            exists|sel: Seq<ScoredIndex>|
                is_top_k(
                    sel,
                    query_scores@,
                    admitted(filter, self.entries().len()),
                    better_than,
                    top_k as nat,
                    self.entries().len() as int,
                ) && hits_of(r@, sel, self.entries()),
    {
        let ghost es = self.entries();
        let n = self.data.len();
        let mut mask: Vec<bool> = Vec::new();
        match filter {
            Some(m) => {
                let mut i: usize = 0;
                while i < n
                    invariant
                        0 <= i <= n,
                        n == m.len(),
                        mask@ == m@.take(i as int),
                    decreases n - i,
                {
                    mask.push(m[i]);
                    proof {
                        assert(m@.take(i + 1) =~= m@.take(i as int).push(m@[i as int]));
                    }
                    i = i + 1;
                }
                assert(mask@ =~= m@);
            },
            None => {
                let mut i: usize = 0;
                while i < n
                    invariant
                        0 <= i <= n,
                        mask@.len() == i,
                        forall|a: int| 0 <= a < i ==> mask@[a],
                    decreases n - i,
                {
                    mask.push(true);
                    i = i + 1;
                }
                assert(mask@ =~= Seq::new(n as nat, |i: int| true));
            },
        }
        let sel = crate::topk::top_k(query_scores, &mask, better_than, top_k);
        let mut hits: Vec<QueryHit> = Vec::new();
        let mut j: usize = 0;
        while j < sel.len()
            invariant
                es == self.entries(),
                n == es.len(),
                is_top_k(sel@, query_scores@, mask@, better_than, top_k as nat, n as int),
                0 <= j <= sel@.len(),
                hits@.len() == j,
                forall|x: int|
                    0 <= x < j ==> {
                        &&& (#[trigger] hits@[x]).id@ == es[sel@[x].index as int].id
                        &&& hits@[x].score == sel@[x].score
                        &&& hits@[x].fields == es[sel@[x].index as int].fields
                    },
            decreases sel.len() - j,
        {
            let c = sel[j];
            assert(c.index < n);
            let h = QueryHit {
                id: self.data[c.index].id.clone(),
                score: c.score,
                fields: self.data[c.index].fields.clone(),
            };
            hits.push(h);
            j = j + 1;
        }
        assert(hits_of(hits@, sel@, es));
        hits
    }

    /// Number of entries.
    pub fn len(&self) -> (r: usize)
        ensures
            r == self.entries().len(),
    {
        self.data.len()
    }

    /// Whether the store holds no entry.
    pub fn is_empty(&self) -> (r: bool)
        ensures
            r == (self.entries().len() == 0),
    {
        self.data.len() == 0
    }

    /// Size of the matrix in bytes.
    pub fn vector_bytes_len(&self) -> (r: usize)
        requires
            self.matrix_spec().len() <= usize::MAX / 4,
        ensures
            r == 4 * self.matrix_spec().len(),
    {
        self.matrix.len() * 4
    }

    /// Length of every stored vector.
    pub fn embedding_dim(&self) -> (r: usize)
        ensures
            r == self.dim(),
    {
        self.embedding_dim
    }

    /// The similarity measure: always cosine.
    pub fn metric(&self) -> (r: &String)
        requires
            self.wf(),
        ensures
            r@ == "cosine"@,
    {
        &self.metric
    }

    /// The dense matrix.
    pub fn matrix(&self) -> (r: &Vec<u32>)
        ensures
            r@ == self.matrix_spec(),
    {
        &self.matrix
    }

    /// Metadata of the store as a whole.
    pub fn get_additional_data(&self) -> (r: &Fields)
        ensures
            *r == self.additional_spec(),
    {
        &self.additional_data
    }

    /// Replaces the metadata of the store as a whole.
    pub fn store_additional_data(&mut self, data: Fields)
        ensures
            final(self).additional_spec() == data,
            final(self).entries() == old(self).entries(),
            final(self).matrix_spec() == old(self).matrix_spec(),
            final(self).dim() == old(self).dim(),
            old(self).wf() ==> final(self).wf(),
    {
        self.additional_data = data;
    }
}

} // verus!
