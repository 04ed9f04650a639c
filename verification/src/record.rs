//! The row-oriented view: one value per record.

use crate::order::SortKey;
use crate::sample::{
    sample_bools, sample_u16s, sample_u32s, sample_u8s, sampled_bools, sampled_u16s,
    sampled_u32s, sampled_u8s,
};
use vstd::prelude::*;

verus! {

/// One record. Records are ordered field by field, in the order in which the
/// fields are declared.
#[derive(Debug, Clone, Copy, PartialEq, Eq, PartialOrd, Ord, Structural)]
pub struct Classic {
    pub query_index: u32,
    pub distance: u8,
    pub attribute: u16,
    pub word_index: u16,
    pub is_exact: bool,
}

impl SortKey for Classic {
    /// The lexicographic order over the five fields; in the last one `false`
    /// comes before `true`.
    open spec fn leq(self, other: Self) -> bool {
        ||| self.query_index < other.query_index
        ||| self.query_index == other.query_index && self.distance < other.distance
        ||| self.query_index == other.query_index && self.distance == other.distance
            && self.attribute < other.attribute
        ||| self.query_index == other.query_index && self.distance == other.distance
            && self.attribute == other.attribute && self.word_index < other.word_index
        ||| self.query_index == other.query_index && self.distance == other.distance
            && self.attribute == other.attribute && self.word_index == other.word_index && (
        !self.is_exact || other.is_exact)
    }

    proof fn lemma_leq_total(a: Self, b: Self) {
    }

    proof fn lemma_leq_transitive(a: Self, b: Self, c: Self) {
    }

    proof fn lemma_leq_antisymmetric(a: Self, b: Self) {
    }

    fn is_leq(&self, other: &Self) -> (r: bool) {
        if self.query_index != other.query_index {
            self.query_index < other.query_index
        } else if self.distance != other.distance {
            self.distance < other.distance
        } else if self.attribute != other.attribute {
            self.attribute < other.attribute
        } else if self.word_index != other.word_index {
            self.word_index < other.word_index
        } else {
            !self.is_exact || other.is_exact
        }
    }
}

/// Records are ordered as their five fields side by side are: taking the
/// fields of a record as its key orders the records themselves.
pub proof fn lemma_record_order_is_field_order(a: Classic, b: Classic)
    ensures
        a.leq(b) == (a.query_index, a.distance, a.attribute, a.word_index, a.is_exact).leq(
            (b.query_index, b.distance, b.attribute, b.word_index, b.is_exact),
        ),
{
}

/// The records that five columns of one length stand for: the record at `i`
/// takes each of its fields from position `i` of that field's column.
pub open spec fn zip_records(
    query_index: Seq<u32>,
    distance: Seq<u8>,
    attribute: Seq<u16>,
    word_index: Seq<u16>,
    is_exact: Seq<bool>,
) -> Seq<Classic> {
    Seq::new(
        query_index.len(),
        |i: int|
            Classic {
                query_index: query_index[i],
                distance: distance[i],
                attribute: attribute[i],
                word_index: word_index[i],
                is_exact: is_exact[i],
            },
    )
}

/// The `len` records that a seed stands for. Every field is drawn from a
/// generator of its own, started from the same seed.
pub open spec fn sampled_records(seed: Seq<u8>, len: nat) -> Seq<Classic> {
    zip_records(
        sampled_u32s(seed, len),
        sampled_u8s(seed, len),
        sampled_u16s(seed, len),
        sampled_u16s(seed, len),
        sampled_bools(seed, len),
    )
}

/// Builds the records that five columns of one length stand for.
pub fn classics_from_columns(
    query_index: &[u32],
    distance: &[u8],
    attribute: &[u16],
    word_index: &[u16],
    is_exact: &[bool],
) -> (classics: Vec<Classic>)
    requires
        distance@.len() == query_index@.len(),
        attribute@.len() == query_index@.len(),
        word_index@.len() == query_index@.len(),
        is_exact@.len() == query_index@.len(),
    ensures
        classics@ == zip_records(query_index@, distance@, attribute@, word_index@, is_exact@),
{
    let len: usize = query_index.len();
    let mut classics: Vec<Classic> = Vec::with_capacity(len);
    let mut i: usize = 0;
    while i < len
        invariant
            i <= len,
            len == query_index@.len(),
            distance@.len() == len,
            attribute@.len() == len,
            word_index@.len() == len,
            is_exact@.len() == len,
            classics@.len() == i,
            forall|j: int|
                0 <= j < i ==> classics@[j] == zip_records(
                    query_index@,
                    distance@,
                    attribute@,
                    word_index@,
                    is_exact@,
                )[j],
        decreases len - i,
    {
        classics.push(
            Classic {
                query_index: query_index[i],
                distance: distance[i],
                attribute: attribute[i],
                word_index: word_index[i],
                is_exact: is_exact[i],
            },
        );
        i += 1;
    }
    assert(classics@ =~= zip_records(query_index@, distance@, attribute@, word_index@, is_exact@));
    classics
}

/// Generates the `len` records that `seed` stands for, in row-oriented form.
pub fn new_classics(seed: [u8; 32], len: usize) -> (classics: Vec<Classic>)
    ensures
        classics@ == sampled_records(seed@, len as nat),
        classics@.len() == len,
{
    let query_index: Vec<u32> = sample_u32s(seed, len);
    let distance: Vec<u8> = sample_u8s(seed, len);
    let attribute: Vec<u16> = sample_u16s(seed, len);
    let word_index: Vec<u16> = sample_u16s(seed, len);
    let is_exact: Vec<bool> = sample_bools(seed, len);
    classics_from_columns(
        query_index.as_slice(),
        distance.as_slice(),
        attribute.as_slice(),
        word_index.as_slice(),
        is_exact.as_slice(),
    )
}

} // verus!
