//! The columnar view: one vector per field, aligned by index.

use crate::order::{ascending, lemma_ascending_unique};
use crate::permutation::{
    apply_permutations, clone_is_exact, indices_below, is_permutation, lemma_permuted_multiset,
    permuted,
};
use crate::record::{classics_from_columns, sampled_records, zip_records, Classic};
use crate::sample::{
    sample_bools, sample_u16s, sample_u32s, sample_u8s, sampled_bools, sampled_u16s,
    sampled_u32s, sampled_u8s,
};
use crate::sort::{keys_of, lemma_sorting_permutations_agree, permutations_unstable_by_key};
use vstd::prelude::*;

verus! {

/// A dataset held column by column. Position `i` of every column belongs to
/// record `i`, so the columns are only ever reordered together.
#[derive(Debug, Clone, PartialEq, Eq, PartialOrd, Ord)]
pub struct DataOriented {
    pub query_index: Vec<u32>,
    pub distance: Vec<u8>,
    pub attribute: Vec<u16>,
    pub word_index: Vec<u16>,
    pub is_exact: Vec<bool>,
}

impl View for DataOriented {
    type V = Seq<Classic>;

    /// The records that the columns stand for, in order.
    open spec fn view(&self) -> Seq<Classic> {
        zip_records(
            self.query_index@,
            self.distance@,
            self.attribute@,
            self.word_index@,
            self.is_exact@,
        )
    }
}

/// Reordering every column by `p` reorders the records by `p`.
pub proof fn lemma_permuted_columns(
    query_index: Seq<u32>,
    distance: Seq<u8>,
    attribute: Seq<u16>,
    word_index: Seq<u16>,
    is_exact: Seq<bool>,
    p: Seq<usize>,
)
    requires
        p.len() == query_index.len(),
        indices_below(p, query_index.len()),
    ensures
        zip_records(
            permuted(query_index, p),
            permuted(distance, p),
            permuted(attribute, p),
            permuted(word_index, p),
            permuted(is_exact, p),
        ) == permuted(zip_records(query_index, distance, attribute, word_index, is_exact), p),
{
    assert(zip_records(
        permuted(query_index, p),
        permuted(distance, p),
        permuted(attribute, p),
        permuted(word_index, p),
        permuted(is_exact, p),
    ) =~= permuted(zip_records(query_index, distance, attribute, word_index, is_exact), p));
}

/// Sorting the columns through a permutation gives what sorting the records
/// themselves gives: if `p` is a permutation that puts the records of five
/// columns in ascending order, then the columns reordered by `p` hold, at
/// every index, the fields of the record that any ascending arrangement
/// `reference` of the same records has at that index.
pub proof fn lemma_sorted_columns_match_sorted_rows(
    query_index: Seq<u32>,
    distance: Seq<u8>,
    attribute: Seq<u16>,
    word_index: Seq<u16>,
    is_exact: Seq<bool>,
    p: Seq<usize>,
    reference: Seq<Classic>,
)
    requires
        distance.len() == query_index.len(),
        attribute.len() == query_index.len(),
        word_index.len() == query_index.len(),
        is_exact.len() == query_index.len(),
        is_permutation(p),
        p.len() == query_index.len(),
        ascending(permuted(zip_records(query_index, distance, attribute, word_index, is_exact), p)),
        ascending(reference),
        reference.to_multiset() == zip_records(
            query_index,
            distance,
            attribute,
            word_index,
            is_exact,
        ).to_multiset(),
    ensures
        reference.len() == p.len(),
        forall|i: int|
            0 <= i < p.len() ==> {
                &&& permuted(query_index, p)[i] == (#[trigger] reference[i]).query_index
                &&& permuted(distance, p)[i] == reference[i].distance
                &&& permuted(attribute, p)[i] == reference[i].attribute
                &&& permuted(word_index, p)[i] == reference[i].word_index
                &&& permuted(is_exact, p)[i] == reference[i].is_exact
            },
{
    let rows = zip_records(query_index, distance, attribute, word_index, is_exact);
    lemma_permuted_multiset(rows, p);
    lemma_ascending_unique(permuted(rows, p), reference);
    lemma_permuted_columns(query_index, distance, attribute, word_index, is_exact, p);
    assert forall|i: int| 0 <= i < p.len() implies {
        &&& permuted(query_index, p)[i] == (#[trigger] reference[i]).query_index
        &&& permuted(distance, p)[i] == reference[i].distance
        &&& permuted(attribute, p)[i] == reference[i].attribute
        &&& permuted(word_index, p)[i] == reference[i].word_index
        &&& permuted(is_exact, p)[i] == reference[i].is_exact
    } by {
        assert(reference[i] == permuted(rows, p)[i]);
    }
}

/// Two runs of the sort agree field by field: whichever permutations `p`
/// and `q` put the records of five columns in ascending order, each column
/// reordered by `p` equals that column reordered by `q`. The permutations
/// themselves may differ where records are equal in every field.
pub proof fn lemma_sorted_columns_agree(
    query_index: Seq<u32>,
    distance: Seq<u8>,
    attribute: Seq<u16>,
    word_index: Seq<u16>,
    is_exact: Seq<bool>,
    p: Seq<usize>,
    q: Seq<usize>,
)
    requires
        distance.len() == query_index.len(),
        attribute.len() == query_index.len(),
        word_index.len() == query_index.len(),
        is_exact.len() == query_index.len(),
        is_permutation(p),
        is_permutation(q),
        p.len() == query_index.len(),
        q.len() == query_index.len(),
        ascending(permuted(zip_records(query_index, distance, attribute, word_index, is_exact), p)),
        ascending(permuted(zip_records(query_index, distance, attribute, word_index, is_exact), q)),
    ensures
        permuted(query_index, p) == permuted(query_index, q),
        permuted(distance, p) == permuted(distance, q),
        permuted(attribute, p) == permuted(attribute, q),
        permuted(word_index, p) == permuted(word_index, q),
        permuted(is_exact, p) == permuted(is_exact, q),
{
    let rows = zip_records(query_index, distance, attribute, word_index, is_exact);
    lemma_sorting_permutations_agree(rows, p, q);
    assert forall|i: int| 0 <= i < p.len() implies rows[p[i] as int] == rows[q[i] as int] by {
        assert(permuted(rows, p)[i] == permuted(rows, q)[i]);
    }
    assert(permuted(query_index, p) =~= permuted(query_index, q));
    assert(permuted(distance, p) =~= permuted(distance, q));
    assert(permuted(attribute, p) =~= permuted(attribute, q));
    assert(permuted(word_index, p) =~= permuted(word_index, q));
    assert(permuted(is_exact, p) =~= permuted(is_exact, q));
}

impl DataOriented {
    /// All five columns have one length.
    pub open spec fn wf(&self) -> bool {
        &&& self.distance@.len() == self.query_index@.len()
        &&& self.attribute@.len() == self.query_index@.len()
        &&& self.word_index@.len() == self.query_index@.len()
        &&& self.is_exact@.len() == self.query_index@.len()
    }

    /// Generates the `len` records that `seed` stands for, in columnar form.
    pub fn new(seed: [u8; 32], len: usize) -> (data: DataOriented)
        ensures
            data.wf(),
            data@ == sampled_records(seed@, len as nat),
            data@.len() == len,
            data.query_index@ == sampled_u32s(seed@, len as nat),
            data.distance@ == sampled_u8s(seed@, len as nat),
            data.attribute@ == sampled_u16s(seed@, len as nat),
            data.word_index@ == sampled_u16s(seed@, len as nat),
            data.is_exact@ == sampled_bools(seed@, len as nat),
    {
        DataOriented {
            query_index: sample_u32s(seed, len),
            distance: sample_u8s(seed, len),
            attribute: sample_u16s(seed, len),
            word_index: sample_u16s(seed, len),
            is_exact: sample_bools(seed, len),
        }
    }

    /// The number of records.
    pub fn len(&self) -> (len: usize)
        ensures
            len == self@.len(),
            len == self.query_index@.len(),
    {
        self.query_index.len()
    }

    /// The sort key of record `i`: the record itself, all fields in order.
    pub fn key(&self, i: usize) -> (key: Classic)
        requires
            self.wf(),
            i < self@.len(),
        ensures
            key == self@[i as int],
    {
        Classic {
            query_index: self.query_index[i],
            distance: self.distance[i],
            attribute: self.attribute[i],
            word_index: self.word_index[i],
            is_exact: self.is_exact[i],
        }
    }

    /// The same records in row-oriented form.
    pub fn to_classics(&self) -> (classics: Vec<Classic>)
        requires
            self.wf(),
        ensures
            classics@ == self@,
    {
        classics_from_columns(
            self.query_index.as_slice(),
            self.distance.as_slice(),
            self.attribute.as_slice(),
            self.word_index.as_slice(),
            self.is_exact.as_slice(),
        )
    }

    /// Reorders all five columns by `permutations`, so that record `j` is
    /// afterwards the record that was at `permutations[j]`.
    pub fn apply_permutations(&mut self, permutations: &[usize])
        requires
            old(self).wf(),
            permutations@.len() == old(self)@.len(),
            indices_below(permutations@, old(self)@.len()),
        ensures
            final(self).wf(),
            final(self)@ == permuted(old(self)@, permutations@),
            final(self).query_index@ == permuted(old(self).query_index@, permutations@),
            final(self).distance@ == permuted(old(self).distance@, permutations@),
            final(self).attribute@ == permuted(old(self).attribute@, permutations@),
            final(self).word_index@ == permuted(old(self).word_index@, permutations@),
            final(self).is_exact@ == permuted(old(self).is_exact@, permutations@),
            is_permutation(permutations@) ==> final(self)@.to_multiset() == old(
                self,
            )@.to_multiset(),
    {
        proof {
            lemma_permuted_columns(
                self.query_index@,
                self.distance@,
                self.attribute@,
                self.word_index@,
                self.is_exact@,
                permutations@,
            );
            if is_permutation(permutations@) {
                lemma_permuted_multiset(self@, permutations@);
            }
            assert(clone_is_exact::<u32>());
            assert(clone_is_exact::<u16>());
            assert(clone_is_exact::<u8>());
            assert(clone_is_exact::<bool>());
        }
        apply_permutations(permutations, &mut self.query_index);
        apply_permutations(permutations, &mut self.distance);
        apply_permutations(permutations, &mut self.attribute);
        apply_permutations(permutations, &mut self.word_index);
        apply_permutations(permutations, &mut self.is_exact);
    }

    /// Sorts the records, each by all its fields in order.
    ///
    /// Afterwards the dataset holds the records it held before, in ascending
    /// order: exactly what sorting them in row-oriented form gives, whichever
    /// way records that are equal in every field were placed.
    pub fn sort_unstable(&mut self)
        requires
            old(self).wf(),
        ensures
            final(self).wf(),
            ascending(final(self)@),
            final(self)@.to_multiset() == old(self)@.to_multiset(),
            forall|reference: Seq<Classic>|
                #[trigger] ascending(reference) && reference.to_multiset() == old(
                    self,
                )@.to_multiset() ==> final(self)@ == reference,
    {
        let len: usize = self.len();
        let data: &DataOriented = &*self;
        let by_record = |i: usize| -> (key: Classic)
            requires
                i < len,
            ensures
                key == data@[i as int],
            { data.key(i) };
        let permutations: Vec<usize> = permutations_unstable_by_key(len, by_record);
        proof {
            let keys: Seq<Classic> = choose|keys: Seq<Classic>|
                keys.len() == len && #[trigger] keys_of(by_record, keys) && ascending(
                    permuted(keys, permutations@),
                );
            assert(keys =~= self@);
        }
        self.apply_permutations(permutations.as_slice());
        proof {
            assert forall|reference: Seq<Classic>|
                #[trigger] ascending(reference) && reference.to_multiset() == old(
                    self,
                )@.to_multiset() implies self@ == reference by {
                lemma_ascending_unique(self@, reference);
            }
        }
    }
}

} // verus!
