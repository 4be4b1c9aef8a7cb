//! The model of the store's contents: entries, persisted form, and the
//! meaning of upsert, delete and query over sequences of entries.
use vstd::prelude::*;
use crate::codec::matrix_of_text;
use crate::score::ScoredIndex;

verus! {

/// Declares serde_json's JSON value, which metadata fields hold.
#[verifier::external_type_specification]
#[verifier::external_body]
pub struct ExValue(serde_json::Value);

/// Declares serde_json's JSON object map.
#[verifier::external_type_specification]
#[verifier::external_body]
#[verifier::reject_recursive_types(K)]
#[verifier::reject_recursive_types(V)]
pub struct ExMap<K, V>(serde_json::Map<K, V>);

/// Relies on serde_json's `Clone` for `Map<String, Value>`, which clones the
/// underlying map entry by entry: the copy is the same map.
pub assume_specification[ <serde_json::Map<String, serde_json::Value> as Clone>::clone ](
    m: &serde_json::Map<String, serde_json::Value>,
) -> (r: serde_json::Map<String, serde_json::Value>)
    ensures
        r == *m,
;

/// Relies on serde_json's `Map::new`, an empty map.
pub assume_specification[ serde_json::Map::<String, serde_json::Value>::new ]() -> serde_json::Map<
    String,
    serde_json::Value,
>;

/// Metadata of an entry: an ordered map from field names to JSON values.
pub type Fields = serde_json::Map<String, serde_json::Value>;

/// An entry as callers hand it in and get it back.
#[derive(Clone, Debug)]
pub struct Data {
    /// Unique identifier of the entry.
    pub id: String,
    /// The vector, one single-precision bit pattern per component.
    pub vector: Vec<u32>,
    /// Metadata stored with the vector.
    pub fields: Fields,
}

/// The model of an entry.
pub struct EntryView {
    pub id: Seq<char>,
    pub vector: Seq<u32>,
    pub fields: Fields,
}

impl View for Data {
    type V = EntryView;

    open spec fn view(&self) -> EntryView {
        EntryView { id: self.id@, vector: self.vector@, fields: self.fields }
    }
}

/// An entry without its vector, as the persisted form lists it.
#[derive(Clone, Debug)]
pub struct Record {
    /// Unique identifier of the entry.
    pub id: String,
    /// Metadata stored with the vector.
    pub fields: Fields,
}

/// The persisted form of a store: the vectors are not in the records but
/// packed together in `matrix`, as base64 of little-endian 32-bit words.
#[derive(Clone, Debug)]
pub struct StoredDatabase {
    pub embedding_dim: usize,
    pub data: Vec<Record>,
    pub matrix: String,
    pub additional_data: Fields,
}

/// One result of a query.
#[derive(Clone, Debug)]
pub struct QueryHit {
    /// Identifier of the entry.
    pub id: String,
    /// Cosine similarity to the query, as a single-precision bit pattern.
    pub score: u32,
    /// Metadata of the entry.
    pub fields: Fields,
}

/// No two entries share an identifier.
pub open spec fn ids_unique(es: Seq<EntryView>) -> bool {
    forall|i: int, j: int| 0 <= i < j < es.len() ==> es[i].id != es[j].id
}

/// Some entry has identifier `id`.
pub open spec fn has_id(es: Seq<EntryView>, id: Seq<char>) -> bool {
    exists|i: int| 0 <= i < es.len() && es[i].id == id
}

/// Row `i` of a matrix with rows of length `dim`.
pub open spec fn row(m: Seq<u32>, dim: nat, i: int) -> Seq<u32> {
    m.subrange(i * dim, i * dim + dim)
}

/// The entries that records and a matrix of rows of length `dim` describe together.
pub open spec fn entries_of(records: Seq<Record>, m: Seq<u32>, dim: nat) -> Seq<EntryView> {
    Seq::new(
        records.len(),
        |i: int| EntryView { id: records[i].id@, vector: row(m, dim, i), fields: records[i].fields },
    )
}

/// Whether a persisted store loads with dimension `dim`: its matrix decodes,
/// it was written with `dim`, it holds one row per record, and no two records
/// share an identifier.
pub open spec fn loads(dim: usize, s: StoredDatabase) -> bool {
    match matrix_of_text(s.matrix@) {
        Some(m) => {
            &&& s.embedding_dim == dim
            &&& m.len() == s.data@.len() * dim
            &&& ids_unique(entries_of(s.data@, m, dim as nat))
        },
        None => false,
    }
}

/// The entries of a persisted store that [`loads`].
pub open spec fn loaded_entries(dim: usize, s: StoredDatabase) -> Seq<EntryView> {
    entries_of(s.data@, matrix_of_text(s.matrix@).unwrap(), dim as nat)
}

/// The smaller of a product and `usize::MAX`.
pub open spec fn capped_product(a: nat, b: nat) -> nat {
    if a * b <= usize::MAX {
        a * b
    } else {
        usize::MAX as nat
    }
}

/// The entries after upserting one item: it replaces the entry with its
/// identifier (vector and fields alike), or is appended when there is none.
pub open spec fn upsert_one(es: Seq<EntryView>, item: EntryView) -> Seq<EntryView> {
    if has_id(es, item.id) {
        es.update(choose|i: int| 0 <= i < es.len() && es[i].id == item.id, item)
    } else {
        es.push(item)
    }
}

/// Upserting items one after the other: the entries at the end, the
/// identifiers of the items that replaced an entry, and those of the items
/// that were appended, each list in batch order.
pub open spec fn upsert_all(es: Seq<EntryView>, items: Seq<EntryView>) -> (
    Seq<EntryView>,
    Seq<Seq<char>>,
    Seq<Seq<char>>,
)
    decreases items.len(),
{
    if items.len() == 0 {
        (es, Seq::empty(), Seq::empty())
    } else {
        let rest = upsert_all(upsert_one(es, items[0]), items.drop_first());
        if has_id(es, items[0].id) {
            (rest.0, seq![items[0].id] + rest.1, rest.2)
        } else {
            (rest.0, rest.1, seq![items[0].id] + rest.2)
        }
    }
}

/// Every item has a vector of length `dim`.
pub open spec fn dims_match(items: Seq<EntryView>, dim: nat) -> bool {
    forall|i: int| 0 <= i < items.len() ==> #[trigger] items[i].vector.len() == dim
}

/// Item `b` is the first whose vector does not have length `dim`.
pub open spec fn first_mismatch(items: Seq<EntryView>, dim: nat, b: int) -> bool {
    &&& 0 <= b < items.len()
    &&& items[b].vector.len() != dim
    &&& forall|i: int| 0 <= i < b ==> #[trigger] items[i].vector.len() == dim
}

/// The models of a batch of items.
pub open spec fn item_views(datas: Seq<Data>) -> Seq<EntryView> {
    datas.map_values(|d: Data| d@)
}

/// The views of a list of strings.
pub open spec fn string_views(ss: Seq<String>) -> Seq<Seq<char>> {
    ss.map_values(|s: String| s@)
}

/// Entries whose identifier is one of `ids`.
pub open spec fn listed(ids: Seq<Seq<char>>) -> spec_fn(EntryView) -> bool {
    |e: EntryView| ids.contains(e.id)
}

/// Entries whose identifier is none of `ids`.
pub open spec fn not_listed(ids: Seq<Seq<char>>) -> spec_fn(EntryView) -> bool {
    |e: EntryView| !ids.contains(e.id)
}

/// What a query may return: all entries, or those that the mask admits.
pub open spec fn admitted(filter: Option<&Vec<bool>>, n: nat) -> Seq<bool> {
    match filter {
        Some(m) => m@,
        None => Seq::new(n, |i: int| true),
    }
}

/// The hits are the selected candidates, in order, with their entries' identifiers and fields.
pub open spec fn hits_of(hits: Seq<QueryHit>, sel: Seq<ScoredIndex>, es: Seq<EntryView>) -> bool {
    &&& hits.len() == sel.len()
    &&& forall|j: int|
        0 <= j < hits.len() ==> {
            &&& (#[trigger] hits[j]).id@ == es[sel[j].index as int].id
            &&& hits[j].score == sel[j].score
            &&& hits[j].fields == es[sel[j].index as int].fields
        }
}

/// Upserting an item whose identifier is already in the store replaces that
/// entry whole (vector and fields, nothing of the old fields is kept) in
/// place, and the number of entries stays the same.
pub proof fn lemma_update_replaces(es: Seq<EntryView>, item: EntryView)
    requires
        ids_unique(es),
        has_id(es, item.id),
    ensures
        ({
            let (after, updated, inserted) = upsert_all(es, seq![item]);
            &&& after.len() == es.len()
            &&& updated == seq![item.id]
            &&& inserted.len() == 0
            &&& exists|i: int|
                0 <= i < es.len() && es[i].id == item.id && after == es.update(i, item)
        }),
{
    let items = seq![item];
    assert(items.drop_first() =~= Seq::<EntryView>::empty());
    let i = choose|i: int| 0 <= i < es.len() && es[i].id == item.id;
    assert(upsert_all(upsert_one(es, item), Seq::<EntryView>::empty()).0 == es.update(i, item));
    assert(seq![item.id] + Seq::<Seq<char>>::empty() =~= seq![item.id]);
}

/// With no entry named `id`, deleting `id` keeps every entry.
proof fn lemma_filter_keeps_all(es: Seq<EntryView>, id: Seq<char>)
    requires
        !has_id(es, id),
    ensures
        es.filter(not_listed(seq![id])) == es,
    decreases es.len(),
{
    reveal(Seq::filter);
    if es.len() > 0 {
        let init = es.drop_last();
        assert(!has_id(init, id)) by {
            if has_id(init, id) {
                let i = choose|i: int| 0 <= i < init.len() && init[i].id == id;
                assert(es[i].id == id);
            }
        }
        lemma_filter_keeps_all(init, id);
        assert(es.last().id != id);
        assert(!seq![id].contains(es.last().id)) by {
            if seq![id].contains(es.last().id) {
                assert(seq![id][0] == id);
            }
        }
        assert(init.push(es.last()) =~= es);
    }
}

/// Deleting the identifier of one entry removes exactly that entry: one entry
/// fewer, and none left with that identifier.
pub proof fn lemma_delete_one(es: Seq<EntryView>, id: Seq<char>)
    requires
        ids_unique(es),
        has_id(es, id),
    ensures
        es.filter(not_listed(seq![id])).len() == es.len() - 1,
        !has_id(es.filter(not_listed(seq![id])), id),
    decreases es.len(),
{
    reveal(Seq::filter);
    let p = not_listed(seq![id]);
    let init = es.drop_last();
    assert(init.push(es.last()) =~= es);
    assert(seq![id].contains(id)) by {
        assert(seq![id][0] == id);
    }
    if es.last().id == id {
        assert(!has_id(init, id)) by {
            if has_id(init, id) {
                let i = choose|i: int| 0 <= i < init.len() && init[i].id == id;
                assert(es[i].id == es[es.len() - 1].id);
            }
        }
        lemma_filter_keeps_all(init, id);
    } else {
        assert(has_id(init, id)) by {
            let i = choose|i: int| 0 <= i < es.len() && es[i].id == id;
            assert(i != es.len() - 1);
            assert(init[i].id == id);
        }
        assert(ids_unique(init)) by {
            assert forall|i: int, j: int| 0 <= i < j < init.len() implies init[i].id != init[j].id by {
                assert(es[i].id != es[j].id);
            }
        }
        lemma_delete_one(init, id);
        assert(!seq![id].contains(es.last().id)) by {
            if seq![id].contains(es.last().id) {
                assert(seq![id][0] == id);
            }
        }
        let kept = init.filter(p);
        assert(es.filter(p) == kept.push(es.last()));
        assert(!has_id(kept.push(es.last()), id)) by {
            if has_id(kept.push(es.last()), id) {
                let i = choose|i: int| 0 <= i < kept.push(es.last()).len() && kept.push(es.last())[i].id == id;
                if i < kept.len() {
                    assert(kept[i].id == id);
                }
            }
        }
    }
}

} // verus!
