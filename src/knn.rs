use vstd::prelude::*;
use crate::error::DbError;
use crate::metrics::Metric;
use crate::ranking::{has_nan, min_len, result_position, sorted_by_score, top_k};
use crate::segment::{is_hyphenated_uuid, SegmentWriter};

verus! {

/// Estimated resident bytes per stored entry, one id and one vector handle.
pub const RECORD_SIZE: u128 = 32;

/// Resident footprint above which the index is written out as a segment.
pub const FLUSH_THRESHOLD: u128 = 1073741824;

/// The estimated footprint of `len` entries of `dims` values exceeds the threshold.
pub open spec fn over_flush_threshold(len: int, dims: int) -> bool {
    len * dims * (RECORD_SIZE as int) > FLUSH_THRESHOLD as int
}

/// Whether `len` entries of `dims` values call for a flush.
pub fn needs_flush(len: usize, dims: usize) -> (r: bool)
    ensures
        r == over_flush_threshold(len as int, dims as int),
{
    proof {
        assert((len as int) * (dims as int) <= 0xFFFF_FFFF_FFFF_FFFF * 0xFFFF_FFFF_FFFF_FFFF) by (nonlinear_arith)
            requires 0 <= len as int <= 0xFFFF_FFFF_FFFF_FFFF, 0 <= dims as int <= 0xFFFF_FFFF_FFFF_FFFF;
    }
    let cells: u128 = (len as u128) * (dims as u128);
    proof {
        assert(cells as int == len as int * dims as int) by (nonlinear_arith)
            requires cells as int == len as int * dims as int;
    }
    cells > FLUSH_THRESHOLD / RECORD_SIZE
}

/// Pairs each id with the score at the same position.
pub open spec fn scored(ids: Seq<u64>, scores: Seq<u32>) -> Seq<(u64, u32)> {
    Seq::new(ids.len(), |i: int| (ids[i], scores[i]))
}

/// Every vector has `dims` values.
pub open spec fn all_of_length(vectors: Seq<Seq<u32>>, dims: int) -> bool {
    forall|i: int| 0 <= i < vectors.len() ==> #[trigger] vectors[i].len() == dims
}

/// An exact nearest-neighbor index over id/vector pairs, in insertion order.
/// Vector values are the bit patterns of single-precision floats.
pub struct KNNIndex {
    dims: usize,
    ids: Vec<u64>,
    vectors: Vec<Vec<u32>>,
    metric: Metric,
}

impl KNNIndex {
    pub closed spec fn dims_view(&self) -> nat {
        self.dims as nat
    }

    pub closed spec fn metric_view(&self) -> Metric {
        self.metric
    }

    pub closed spec fn ids_view(&self) -> Seq<u64> {
        self.ids@
    }

    pub closed spec fn vectors_view(&self) -> Seq<Seq<u32>> {
        self.vectors@.map_values(|v: Vec<u32>| v@)
    }

    /// Ids and vectors pair up one for one, and every vector has `dims` values.
    pub open spec fn well_formed(&self) -> bool {
        &&& self.ids_view().len() == self.vectors_view().len()
        &&& all_of_length(self.vectors_view(), self.dims_view() as int)
    }

    /// Builds an index from parallel ids and vectors. Fails when their counts
    /// differ or a vector's length is not `dims`.
    pub fn new(dims: usize, metric: Metric, ids: Vec<u64>, vectors: Vec<Vec<u32>>) -> (r: Result<
        KNNIndex,
        DbError,
    >)
        ensures
            r is Err <==> (ids@.len() != vectors@.len() || !all_of_length(
                vectors@.map_values(|v: Vec<u32>| v@),
                dims as int,
            )),
            r matches Err(e) ==> e == DbError::PreconditionViolation,
            r matches Ok(index) ==> {
                &&& index.well_formed()
                &&& index.dims_view() == dims
                &&& index.metric_view() == metric
                &&& index.ids_view() == ids@
                &&& index.vectors_view() == vectors@.map_values(|v: Vec<u32>| v@)
            },
    {
        if ids.len() != vectors.len() {
            return Err(DbError::PreconditionViolation);
        }
        let ghost vs = vectors@.map_values(|v: Vec<u32>| v@);
        let mut i: usize = 0;
        while i < vectors.len()
            invariant
                i <= vectors@.len(),
                vs == vectors@.map_values(|v: Vec<u32>| v@),
                forall|j: int| 0 <= j < i ==> #[trigger] vs[j].len() == dims,
            decreases vectors@.len() - i,
        {
            if vectors[i].len() != dims {
                assert(vs[i as int].len() != dims);
                return Err(DbError::PreconditionViolation);
            }
            i = i + 1;
        }
        Ok(KNNIndex { dims, ids, vectors, metric })
    }

    /// The number of stored entries.
    pub fn len(&self) -> (r: usize)
        requires
            self.well_formed(),
        ensures
            r == self.ids_view().len(),
    {
        self.ids.len()
    }

    /// The length of every stored vector.
    pub fn dims(&self) -> (r: usize)
        ensures
            r == self.dims_view(),
    {
        self.dims
    }

    /// The metric that scores this index's vectors.
    pub fn metric(&self) -> (r: Metric)
        ensures
            r == self.metric_view(),
    {
        self.metric
    }

    /// The id stored at position `i`.
    pub fn id_at(&self, i: usize) -> (r: u64)
        requires
            i < self.ids_view().len(),
        ensures
            r == self.ids_view()[i as int],
    {
        self.ids[i]
    }

    /// The vector stored at position `i`.
    pub fn vector_at(&self, i: usize) -> (r: &Vec<u32>)
        requires
            i < self.vectors_view().len(),
        ensures
            r@ == self.vectors_view()[i as int],
    {
        &self.vectors[i]
    }

    /// Appends an entry. Fails, leaving the index as it was, when the vector's
    /// length is not `dims`; otherwise says whether the grown index is now due
    /// to be written out as a segment.
    pub fn add(&mut self, id: u64, vector: Vec<u32>) -> (r: Result<bool, DbError>)
        requires
            old(self).well_formed(),
        ensures
            final(self).well_formed(),
            final(self).dims_view() == old(self).dims_view(),
            final(self).metric_view() == old(self).metric_view(),
            r is Err <==> vector@.len() != old(self).dims_view(),
            r matches Err(e) ==> e == DbError::PreconditionViolation && *final(self) == *old(self),
            r matches Ok(due) ==> {
                &&& final(self).ids_view() == old(self).ids_view().push(id)
                &&& final(self).vectors_view() == old(self).vectors_view().push(vector@)
                &&& due == over_flush_threshold(
                    final(self).ids_view().len() as int,
                    final(self).dims_view() as int,
                )
            },
    {
        if vector.len() != self.dims {
            return Err(DbError::PreconditionViolation);
        }
        let ghost old_vs = self.vectors_view();
        self.ids.push(id);
        self.vectors.push(vector);
        proof {
            assert(self.vectors_view() =~= old_vs.push(vector@));
        }
        Ok(needs_flush(self.ids.len(), self.dims))
    }

    /// The `k` best entries for a query, best first, as (id, score) pairs.
    /// `scores[i]` is the metric's score of the query against the i-th stored
    /// vector. Fails when the query's length is not `dims` or the scores do not
    /// cover the entries one for one, and when a score is NaN.
    pub fn search(&self, query: &Vec<u32>, scores: &Vec<u32>, k: usize) -> (r: Result<
        Vec<(u64, u32)>,
        DbError,
    >)
        requires
            self.well_formed(),
        ensures
            (query@.len() != self.dims_view() || scores@.len() != self.ids_view().len())
                ==> r == Err::<Vec<(u64, u32)>, DbError>(DbError::PreconditionViolation),
            (query@.len() == self.dims_view() && scores@.len() == self.ids_view().len()) ==> {
                let s = scored(self.ids_view(), scores@);
                &&& r is Err <==> has_nan(s)
                &&& r matches Err(e) ==> e == DbError::UnsupportedNumericState
                &&& r matches Ok(v) ==> {
                    &&& v@.len() == min_len(k as int, s.len() as int)
                    &&& forall|i: int|
                        0 <= i < s.len() && 0 <= #[trigger] result_position(s, i) < v@.len()
                            ==> v@[result_position(s, i)] == s[i]
                    &&& sorted_by_score(v@)
                }
            },
    {
        if query.len() != self.dims || scores.len() != self.ids.len() {
            return Err(DbError::PreconditionViolation);
        }
        let mut entries: Vec<(u64, u32)> = Vec::new();
        let mut i: usize = 0;
        while i < self.ids.len()
            invariant
                scores@.len() == self.ids@.len(),
                i <= self.ids@.len(),
                entries@ == scored(self.ids@, scores@).take(i as int),
            decreases self.ids@.len() - i,
        {
            entries.push((self.ids[i], scores[i]));
            i = i + 1;
            assert(entries@ =~= scored(self.ids@, scores@).take(i as int));
        }
        assert(entries@ =~= scored(self.ids@, scores@));
        top_k(&entries, k)
    }

    /// A segment writer named by a fresh random identifier, holding all of this
    /// index's entries in insertion order.
    pub fn write_to_segment(&self) -> (r: SegmentWriter)
        requires
            self.well_formed(),
        ensures
            r.well_formed(),
            is_hyphenated_uuid(r.name_view()),
            forall|i: int|
                0 <= i < r.name_view().len() ==> #[trigger] r.name_view()[i] != '/'
                    && r.name_view()[i] != '.',
            r.dim_view() == self.dims_view(),
            r.metric_view() == self.metric_view(),
            r.ids_view() == self.ids_view(),
            r.rows_view() == self.vectors_view(),
    {
        let name = crate::segment::fresh_segment_name();
        let mut w = SegmentWriter::new(&name, self.dims, self.metric);
        let mut i: usize = 0;
        while i < self.ids.len()
            invariant
                self.well_formed(),
                i <= self.ids@.len(),
                w.well_formed(),
                w.name_view() == name@,
                w.dim_view() == self.dims_view(),
                w.metric_view() == self.metric_view(),
                w.ids_view() == self.ids_view().take(i as int),
                w.rows_view() == self.vectors_view().take(i as int),
            decreases self.ids@.len() - i,
        {
            assert(self.vectors[i as int]@ == self.vectors_view()[i as int]);
            let pushed = w.push(self.ids[i], &self.vectors[i]);
            assert(pushed is Ok);
            i = i + 1;
            assert(w.ids_view() =~= self.ids_view().take(i as int));
            assert(w.rows_view() =~= self.vectors_view().take(i as int));
        }
        assert(w.ids_view() =~= self.ids_view());
        assert(w.rows_view() =~= self.vectors_view());
        w
    }
}

} // verus!
