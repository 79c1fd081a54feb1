use vstd::prelude::*;
use vstd::string::StringExecFns;
use crate::error::DbError;
use crate::knn::{all_of_length, KNNIndex};
use crate::metrics::{metric_name, metric_named, Metric};

verus! {

/// The low `n` bytes of `x`, least significant first.
pub open spec fn le_bytes(x: nat, n: nat) -> Seq<u8>
    decreases n,
{
    if n == 0 {
        Seq::empty()
    } else {
        seq![(x % 256) as u8] + le_bytes(x / 256, (n - 1) as nat)
    }
}

/// The number that little-endian bytes encode.
pub open spec fn le_value(b: Seq<u8>) -> nat
    decreases b.len(),
{
    if b.len() == 0 {
        0
    } else {
        b[0] as nat + 256 * le_value(b.drop_first())
    }
}

/// Numbers laid end to end, each as `w` little-endian bytes.
pub open spec fn encode_words(words: Seq<nat>, w: nat) -> Seq<u8>
    decreases words.len(),
{
    if words.len() == 0 {
        Seq::empty()
    } else {
        encode_words(words.drop_last(), w) + le_bytes(words.last(), w)
    }
}

/// The ids file's contents: each id as eight little-endian bytes.
pub open spec fn encode_ids(s: Seq<u64>) -> Seq<u8> {
    encode_words(s.map_values(|x: u64| x as nat), 8)
}

/// The vectors file's contents: each value as four little-endian bytes.
pub open spec fn encode_values(s: Seq<u32>) -> Seq<u8> {
    encode_words(s.map_values(|x: u32| x as nat), 4)
}

/// The rows laid end to end.
pub open spec fn flatten(rows: Seq<Seq<u32>>) -> Seq<u32>
    decreases rows.len(),
{
    if rows.len() == 0 {
        Seq::empty()
    } else {
        flatten(rows.drop_last()) + rows.last()
    }
}

/// The `i`-th group of `w` bytes, read as a little-endian number.
pub open spec fn word_at(b: Seq<u8>, w: int, i: int) -> nat {
    le_value(b.subrange(w * i, w * i + w))
}

fn push_le(out: &mut Vec<u8>, x: u64, n: usize)
    requires
        n <= 8,
    ensures
        final(out)@ == old(out)@ + le_bytes(x as nat, n as nat),
    decreases n,
{
    if n > 0 {
        out.push((x % 256) as u8);
        push_le(out, x / 256, n - 1);
        assert(out@ =~= old(out)@ + le_bytes(x as nat, n as nat));
    }
}

/// Reads `w` little-endian bytes of `b` from `start`.
fn read_le(b: &Vec<u8>, start: usize, w: usize) -> (r: u64)
    requires
        w <= 8,
        start + w <= b@.len(),
    ensures
        r == le_value(b@.subrange(start as int, start + w)),
{
    let len = b.len();
    let mut v: u64 = 0;
    let mut i: usize = w;
    while i > 0
        invariant
            i <= w <= 8,
            start + w <= b@.len(),
            len == b@.len(),
            v == le_value(b@.subrange(start + i, start + w)),
            v < pow256((w - i) as nat),
        decreases i,
    {
        i = i - 1;
        let ghost tail = b@.subrange(start + i + 1, start + w);
        assert(b@.subrange(start + i, start + w).drop_first() =~= tail);
        proof {
            lemma_pow256_step((w - i - 1) as nat);
            lemma_pow256_bound((w - i) as nat);
            assert(v * 256 + 255 < pow256((w - i) as nat)) by (nonlinear_arith)
                requires v < pow256((w - i - 1) as nat), pow256((w - i) as nat) == 256 * pow256((w - i - 1) as nat);
            assert(v * 256 + 255 < 0x1_0000_0000_0000_0000);
        }
        v = v * 256 + b[start + i] as u64;
    }
    v
}

pub open spec fn pow256(n: nat) -> nat
    decreases n,
{
    if n == 0 { 1 } else { 256 * pow256((n - 1) as nat) }
}

proof fn lemma_pow256_step(n: nat)
    ensures
        pow256(n + 1) == 256 * pow256(n),
{
}

proof fn lemma_pow256_bound(n: nat)
    requires
        n <= 8,
    ensures
        pow256(n) <= 0x1_0000_0000_0000_0000,
{
    reveal_with_fuel(pow256, 9);
    assert(pow256(8) == 0x1_0000_0000_0000_0000);
    lemma_pow256_le(n, 8);
}

proof fn lemma_pow256_le(a: nat, b: nat)
    requires
        a <= b,
    ensures
        pow256(a) <= pow256(b),
    decreases b - a,
{
    if a < b {
        lemma_pow256_le(a, (b - 1) as nat);
    }
}

/// The ids file's bytes for `ids`.
pub fn encode_id_bytes(ids: &Vec<u64>) -> (r: Vec<u8>)
    ensures
        r@ == encode_ids(ids@),
{
    let mut out: Vec<u8> = Vec::new();
    let mut i: usize = 0;
    while i < ids.len()
        invariant
            i <= ids@.len(),
            out@ == encode_ids(ids@.take(i as int)),
        decreases ids@.len() - i,
    {
        push_le(&mut out, ids[i], 8);
        i = i + 1;
        assert(ids@.take(i as int).map_values(|x: u64| x as nat).drop_last() =~= ids@.take(i - 1).map_values(
            |x: u64| x as nat,
        ));
    }
    assert(ids@.take(i as int) =~= ids@);
    out
}

/// The vectors file's bytes for a flat array of values.
pub fn encode_value_bytes(values: &Vec<u32>) -> (r: Vec<u8>)
    ensures
        r@ == encode_values(values@),
{
    let mut out: Vec<u8> = Vec::new();
    let mut i: usize = 0;
    while i < values.len()
        invariant
            i <= values@.len(),
            out@ == encode_values(values@.take(i as int)),
        decreases values@.len() - i,
    {
        push_le(&mut out, values[i] as u64, 4);
        i = i + 1;
        assert(values@.take(i as int).map_values(|x: u32| x as nat).drop_last() =~= values@.take(i - 1).map_values(
            |x: u32| x as nat,
        ));
    }
    assert(values@.take(i as int) =~= values@);
    out
}

/// Reads the bytes as 8-byte little-endian ids; `None` when a partial
/// group is left at the end.
pub fn decode_ids(b: &Vec<u8>) -> (r: Option<Vec<u64>>)
    ensures
        r is None <==> b@.len() % 8 != 0,
        r matches Some(v) ==> {
            &&& b@.len() == 8 * v@.len()
            &&& forall|i: int| 0 <= i < v@.len() ==> #[trigger] v@[i] as nat == word_at(b@, 8, i)
        },
{
    if b.len() % 8 != 0 {
        return None;
    }
    let n = b.len() / 8;
    proof {
        vstd::arithmetic::div_mod::lemma_fundamental_div_mod(b@.len() as int, 8);
    }
    let mut out: Vec<u64> = Vec::new();
    let mut i: usize = 0;
    while i < n
        invariant
            n == b@.len() / 8,
            8 * n <= b@.len(),
            b@.len() <= usize::MAX,
            i <= n,
            out@.len() == i,
            forall|j: int| 0 <= j < i ==> #[trigger] out@[j] as nat == word_at(b@, 8, j),
        decreases n - i,
    {
        proof {
            assert(8 * i + 8 <= b@.len());
        }
        out.push(read_le(b, 8 * i, 8));
        i = i + 1;
    }
    Some(out)
}

/// Reads the bytes as 4-byte little-endian values; `None` when a partial
/// group is left at the end.
pub fn decode_values(b: &Vec<u8>) -> (r: Option<Vec<u32>>)
    ensures
        r is None <==> b@.len() % 4 != 0,
        r matches Some(v) ==> {
            &&& b@.len() == 4 * v@.len()
            &&& forall|i: int| 0 <= i < v@.len() ==> #[trigger] v@[i] as nat == word_at(b@, 4, i)
        },
{
    if b.len() % 4 != 0 {
        return None;
    }
    let n = b.len() / 4;
    proof {
        vstd::arithmetic::div_mod::lemma_fundamental_div_mod(b@.len() as int, 4);
    }
    let mut out: Vec<u32> = Vec::new();
    let mut i: usize = 0;
    while i < n
        invariant
            n == b@.len() / 4,
            4 * n <= b@.len(),
            b@.len() <= usize::MAX,
            i <= n,
            out@.len() == i,
            forall|j: int| 0 <= j < i ==> #[trigger] out@[j] as nat == word_at(b@, 4, j),
        decreases n - i,
    {
        proof {
            assert(4 * i + 4 <= b@.len());
        }
        let v = read_le(b, 4 * i, 4);
        proof {
            reveal_with_fuel(pow256, 5);
            lemma_le_value_bound(b@.subrange(4 * i, 4 * i + 4));
        }
        out.push(v as u32);
        i = i + 1;
    }
    Some(out)
}

proof fn lemma_le_value_bound(b: Seq<u8>)
    ensures
        le_value(b) < pow256(b.len()),
    decreases b.len(),
{
    if b.len() > 0 {
        lemma_le_value_bound(b.drop_first());
        assert(le_value(b) < pow256(b.len())) by (nonlinear_arith)
            requires
                le_value(b) == b[0] as nat + 256 * le_value(b.drop_first()),
                le_value(b.drop_first()) < pow256(b.drop_first().len()),
                pow256(b.len()) == 256 * pow256(b.drop_first().len()),
                b[0] < 256,
        ;
    }
}

proof fn lemma_le_bytes(x: nat, n: nat)
    requires
        x < pow256(n),
    ensures
        le_bytes(x, n).len() == n,
        le_value(le_bytes(x, n)) == x,
    decreases n,
{
    if n > 0 {
        assert(x / 256 < pow256((n - 1) as nat)) by (nonlinear_arith)
            requires x < pow256(n), pow256(n) == 256 * pow256((n - 1) as nat);
        lemma_le_bytes(x / 256, (n - 1) as nat);
        let b = le_bytes(x, n);
        assert(b.drop_first() =~= le_bytes(x / 256, (n - 1) as nat));
        assert(x == x % 256 + 256 * (x / 256)) by (nonlinear_arith);
    }
}

proof fn lemma_encoded_words(words: Seq<nat>, w: nat)
    requires
        w > 0,
        forall|i: int| 0 <= i < words.len() ==> #[trigger] words[i] < pow256(w),
    ensures
        encode_words(words, w).len() == w * words.len(),
        forall|i: int| 0 <= i < words.len() ==> #[trigger] word_at(encode_words(words, w), w as int, i) == words[i],
    decreases words.len(),
{
    if words.len() > 0 {
        let front = words.drop_last();
        lemma_encoded_words(front, w);
        lemma_le_bytes(words.last(), w);
        let e = encode_words(words, w);
        assert(e == encode_words(front, w) + le_bytes(words.last(), w));
        assert(e.len() == w * words.len()) by (nonlinear_arith)
            requires e.len() == w * front.len() + w, front.len() + 1 == words.len();
        assert forall|i: int| 0 <= i < words.len() implies #[trigger] word_at(e, w as int, i) == words[i] by {
            assert(w * i + w <= w * words.len()) by (nonlinear_arith)
                requires i < words.len(), w > 0;
            if i < front.len() {
                assert(w * i + w <= w * front.len()) by (nonlinear_arith)
                    requires i < front.len(), w > 0;
                assert(e.subrange(w * i, w * i + w) =~= encode_words(front, w).subrange(w * i, w * i + w));
                assert(word_at(encode_words(front, w), w as int, i) == front[i]);
            } else {
                assert(e.subrange(w * i, w * i + w) =~= le_bytes(words.last(), w));
            }
        }
    }
}

proof fn lemma_flatten(rows: Seq<Seq<u32>>, dim: int)
    requires
        dim >= 0,
        all_of_length(rows, dim),
    ensures
        flatten(rows).len() == rows.len() * dim,
        forall|i: int, j: int|
            0 <= i < rows.len() && 0 <= j < dim ==> #[trigger] flatten(rows)[i * dim + j] == rows[i][j],
    decreases rows.len(),
{
    if rows.len() == 0 {
        assert(rows.len() * dim == 0) by (nonlinear_arith)
            requires rows.len() == 0;
    }
    if rows.len() > 0 {
        let front = rows.drop_last();
        lemma_flatten(front, dim);
        assert(flatten(rows).len() == rows.len() * dim) by (nonlinear_arith)
            requires flatten(rows).len() == front.len() * dim + dim, front.len() + 1 == rows.len();
        assert forall|i: int, j: int| 0 <= i < rows.len() && 0 <= j < dim implies #[trigger] flatten(rows)[i * dim + j]
            == rows[i][j] by {
            if i < front.len() {
                assert(i * dim + j < front.len() * dim) by (nonlinear_arith)
                    requires 0 <= i < front.len(), 0 <= j < dim;
                assert(front[i] == rows[i]);
            } else {
                assert(i * dim == front.len() * dim);
            }
        }
    }
}

/// The ids file a writer encodes decodes to its ids, and its vectors file to
/// its rows in row-major order.
proof fn lemma_segment_encoding(w: SegmentWriter)
    requires
        w.well_formed(),
    ensures
        encode_ids(w.ids_view()).len() == 8 * w.ids_view().len(),
        forall|i: int|
            0 <= i < w.ids_view().len() ==> #[trigger] word_at(encode_ids(w.ids_view()), 8, i)
                == w.ids_view()[i] as nat,
        encode_values(flatten(w.rows_view())).len() == 4 * (w.ids_view().len() * w.dim_view()),
        forall|i: int, j: int|
            0 <= i < w.ids_view().len() && 0 <= j < w.dim_view() ==> #[trigger] word_at(
                encode_values(flatten(w.rows_view())),
                4,
                i * w.dim_view() + j,
            ) == w.rows_view()[i][j] as nat,
{
    reveal_with_fuel(pow256, 9);
    let ids = w.ids_view().map_values(|x: u64| x as nat);
    let dim = w.dim_view() as int;
    let flat = flatten(w.rows_view());
    let vals = flat.map_values(|x: u32| x as nat);
    assert forall|i: int| 0 <= i < ids.len() implies #[trigger] ids[i] < pow256(8) by {}
    assert forall|i: int| 0 <= i < vals.len() implies #[trigger] vals[i] < pow256(4) by {}
    lemma_encoded_words(ids, 8);
    lemma_encoded_words(vals, 4);
    lemma_flatten(w.rows_view(), dim);
    assert forall|i: int, j: int| 0 <= i < w.ids_view().len() && 0 <= j < dim implies #[trigger] word_at(
        encode_values(flat),
        4,
        i * dim + j,
    ) == w.rows_view()[i][j] as nat by {
        assert(i * dim + j < w.ids_view().len() * dim) by (nonlinear_arith)
            requires 0 <= i < w.ids_view().len(), 0 <= j < dim;
        assert(flat[i * dim + j] == w.rows_view()[i][j]);
    }
}

/// A batch written out and read back is the same index: a well-formed writer's
/// metadata and encoded files, held by a reader, always load, and load as an
/// index with the writer's ids, rows, dimension and metric.
pub proof fn lemma_written_segment_loads(w: SegmentWriter, r: SegmentReader, index: KNNIndex)
    requires
        w.well_formed(),
        r.count_view() == w.ids_view().len(),
        r.dim_view() == w.dim_view(),
        r.metric_name_view() == metric_name(w.metric_view()),
        r.id_bytes_view() == encode_ids(w.ids_view()),
        r.vector_bytes_view() == encode_values(flatten(w.rows_view())),
    ensures
        r.loads(),
        r.loaded_as(index) ==> {
            &&& index.ids_view() == w.ids_view()
            &&& index.vectors_view() == w.rows_view()
            &&& index.dims_view() == w.dim_view()
            &&& index.metric_view() == w.metric_view()
        },
{
    lemma_segment_encoding(w);
    crate::metrics::lemma_name_round_trip(w.metric_view());
    if r.loaded_as(index) {
        let dim = w.dim_view() as int;
        assert(index.ids_view() =~= w.ids_view());
        assert forall|i: int| 0 <= i < w.rows_view().len() implies #[trigger] index.vectors_view()[i]
            == w.rows_view()[i] by {
            assert(index.vectors_view()[i].len() == dim);
            assert(w.rows_view()[i].len() == dim);
            assert forall|j: int| 0 <= j < dim implies index.vectors_view()[i][j] == w.rows_view()[i][j] by {
                assert(index.vectors_view()[i][j] as nat == w.rows_view()[i][j] as nat);
            }
            assert(index.vectors_view()[i] =~= w.rows_view()[i]);
        }
        assert(index.vectors_view() =~= w.rows_view());
    }
}

/// The hyphenated text form of a UUID: 36 characters, hyphens at positions
/// 8, 13, 18 and 23, lowercase hexadecimal digits elsewhere.
pub open spec fn is_hyphenated_uuid(s: Seq<char>) -> bool {
    &&& s.len() == 36
    &&& forall|i: int|
        0 <= i < 36 ==> if i == 8 || i == 13 || i == 18 || i == 23 {
            #[trigger] s[i] == '-'
        } else {
            ('0' <= s[i] <= '9') || ('a' <= s[i] <= 'f')
        }
}

/// Relies on uuid's `Uuid::new_v4` and its `Display`, which writes the
/// lowercase hyphenated form: a random identifier in that form.
#[verifier::external_body]
pub(crate) fn fresh_segment_name() -> (r: String)
    ensures
        is_hyphenated_uuid(r@),
{
    uuid::Uuid::new_v4().to_string()
}

/// What a segment's metadata file records.
pub struct Metadata {
    pub count: u32,
    pub dim: usize,
    pub metric: String,
}

/// A batch of entries on its way to becoming one segment.
pub struct SegmentWriter {
    seg_name: String,
    dim: usize,
    metric: Metric,
    ids: Vec<u64>,
    rows: Vec<Vec<u32>>,
}

impl SegmentWriter {
    pub closed spec fn name_view(&self) -> Seq<char> {
        self.seg_name@
    }

    pub closed spec fn dim_view(&self) -> nat {
        self.dim as nat
    }

    pub closed spec fn metric_view(&self) -> Metric {
        self.metric
    }

    pub closed spec fn ids_view(&self) -> Seq<u64> {
        self.ids@
    }

    pub closed spec fn rows_view(&self) -> Seq<Seq<u32>> {
        self.rows@.map_values(|v: Vec<u32>| v@)
    }

    /// Ids and rows pair up one for one, and every row has `dim` values.
    pub open spec fn well_formed(&self) -> bool {
        &&& self.ids_view().len() == self.rows_view().len()
        &&& all_of_length(self.rows_view(), self.dim_view() as int)
    }

    /// An empty batch for the segment `seg_name`.
    pub fn new(seg_name: &str, dim: usize, metric: Metric) -> (r: SegmentWriter)
        ensures
            r.well_formed(),
            r.name_view() == seg_name@,
            r.dim_view() == dim,
            r.metric_view() == metric,
            r.ids_view() == Seq::<u64>::empty(),
            r.rows_view() == Seq::<Seq<u32>>::empty(),
    {
        let w = SegmentWriter {
            seg_name: String::from_str(seg_name),
            dim,
            metric,
            ids: Vec::new(),
            rows: Vec::new(),
        };
        assert(w.rows_view() =~= Seq::<Seq<u32>>::empty());
        w
    }

    /// Appends an entry; fails, leaving the batch as it was, when the vector's
    /// length is not `dim`.
    pub fn push(&mut self, id: u64, vector: &Vec<u32>) -> (r: Result<(), DbError>)
        requires
            old(self).well_formed(),
        ensures
            final(self).well_formed(),
            final(self).name_view() == old(self).name_view(),
            final(self).dim_view() == old(self).dim_view(),
            final(self).metric_view() == old(self).metric_view(),
            r is Err <==> vector@.len() != old(self).dim_view(),
            r matches Err(e) ==> e == DbError::PreconditionViolation,
            r is Err ==> final(self).ids_view() == old(self).ids_view() && final(self).rows_view()
                == old(self).rows_view(),
            r is Ok ==> final(self).ids_view() == old(self).ids_view().push(id)
                && final(self).rows_view() == old(self).rows_view().push(vector@),
    {
        if vector.len() != self.dim {
            return Err(DbError::PreconditionViolation);
        }
        let ghost old_rows = self.rows_view();
        let mut row: Vec<u32> = Vec::new();
        let mut i: usize = 0;
        while i < vector.len()
            invariant
                i <= vector@.len(),
                row@ == vector@.take(i as int),
            decreases vector@.len() - i,
        {
            row.push(vector[i]);
            i = i + 1;
            assert(row@ =~= vector@.take(i as int));
        }
        assert(row@ =~= vector@);
        self.ids.push(id);
        self.rows.push(row);
        assert(self.rows_view() =~= old_rows.push(vector@));
        Ok(())
    }

    /// The segment's final name.
    pub fn name(&self) -> (r: String)
        ensures
            r@ == self.name_view(),
    {
        self.seg_name.clone()
    }

    /// The name of the working directory the segment is built in before it is
    /// committed: the final name followed by `.tmp`.
    pub fn tmp_name(&self) -> (r: String)
        ensures
            r@ == self.name_view() + ".tmp"@,
    {
        let mut s = self.seg_name.clone();
        s.append(".tmp");
        s
    }

    /// The ids file's bytes: each id as eight little-endian bytes, in order.
    pub fn id_bytes(&self) -> (r: Vec<u8>)
        ensures
            r@ == encode_ids(self.ids_view()),
    {
        encode_id_bytes(&self.ids)
    }

    /// The vectors file's bytes: the rows laid end to end, each value as four
    /// little-endian bytes.
    pub fn vector_bytes(&self) -> (r: Vec<u8>)
        ensures
            r@ == encode_values(flatten(self.rows_view())),
    {
        let mut flat: Vec<u32> = Vec::new();
        let mut i: usize = 0;
        while i < self.rows.len()
            invariant
                i <= self.rows@.len(),
                flat@ == flatten(self.rows_view().take(i as int)),
            decreases self.rows@.len() - i,
        {
            let row = &self.rows[i];
            let ghost before = flat@;
            let mut j: usize = 0;
            while j < row.len()
                invariant
                    j <= row@.len(),
                    flat@ == before + row@.take(j as int),
                decreases row@.len() - j,
            {
                flat.push(row[j]);
                j = j + 1;
                assert(flat@ =~= before + row@.take(j as int));
            }
            assert(row@.take(j as int) =~= row@);
            i = i + 1;
            assert(self.rows_view().take(i as int).drop_last() =~= self.rows_view().take(i - 1));
        }
        assert(self.rows_view().take(i as int) =~= self.rows_view());
        encode_value_bytes(&flat)
    }

    /// The metadata record for this batch; fails when the count does not fit
    /// the format's 32 bits.
    pub fn metadata(&self) -> (r: Result<Metadata, DbError>)
        ensures
            r is Err <==> self.ids_view().len() > u32::MAX,
            r matches Err(e) ==> e == DbError::PreconditionViolation,
            r matches Ok(m) ==> m.count == self.ids_view().len() && m.dim == self.dim_view()
                && m.metric@ == metric_name(self.metric_view()),
    {
        if self.ids.len() > u32::MAX as usize {
            return Err(DbError::PreconditionViolation);
        }
        Ok(Metadata { count: self.ids.len() as u32, dim: self.dim, metric: self.metric.name() })
    }
}

/// A committed segment's contents: its metadata and the two binary files.
pub struct SegmentReader {
    meta: Metadata,
    id_bytes: Vec<u8>,
    vector_bytes: Vec<u8>,
}

impl SegmentReader {
    pub closed spec fn count_view(&self) -> nat {
        self.meta.count as nat
    }

    pub closed spec fn dim_view(&self) -> nat {
        self.meta.dim as nat
    }

    pub closed spec fn metric_name_view(&self) -> Seq<char> {
        self.meta.metric@
    }

    pub closed spec fn id_bytes_view(&self) -> Seq<u8> {
        self.id_bytes@
    }

    pub closed spec fn vector_bytes_view(&self) -> Seq<u8> {
        self.vector_bytes@
    }

    /// Holds a segment read from storage.
    pub fn open(meta: Metadata, id_bytes: Vec<u8>, vector_bytes: Vec<u8>) -> (r: SegmentReader)
        ensures
            r.count_view() == meta.count,
            r.dim_view() == meta.dim,
            r.metric_name_view() == meta.metric@,
            r.id_bytes_view() == id_bytes@,
            r.vector_bytes_view() == vector_bytes@,
    {
        SegmentReader { meta, id_bytes, vector_bytes }
    }

    /// The segment's metadata; fails when it names no known metric.
    pub fn meta(&self) -> (r: Result<Metadata, DbError>)
        ensures
            r is Err <==> metric_named(self.metric_name_view()) is None,
            r matches Err(e) ==> e == DbError::DataCorruption,
            r matches Ok(m) ==> m.count == self.count_view() && m.dim == self.dim_view()
                && m.metric@ == self.metric_name_view(),
    {
        match Metric::from_name(self.meta.metric.as_str()) {
            None => Err(DbError::DataCorruption),
            Some(_) => Ok(
                Metadata {
                    count: self.meta.count,
                    dim: self.meta.dim,
                    metric: self.meta.metric.clone(),
                },
            ),
        }
    }

    /// The segment is consistent: the ids file holds exactly `count` ids, the
    /// vectors file exactly `count * dim` values, and the metric is known.
    pub open spec fn loads(&self) -> bool {
        &&& self.id_bytes_view().len() == 8 * self.count_view()
        &&& self.vector_bytes_view().len() == 4 * (self.count_view() * self.dim_view())
        &&& metric_named(self.metric_name_view()) is Some
    }

    /// `index` holds what the segment's files encode, with its dimension and metric.
    pub open spec fn loaded_as(&self, index: KNNIndex) -> bool {
        &&& index.well_formed()
        &&& Some(index.metric_view()) == metric_named(self.metric_name_view())
        &&& index.dims_view() == self.dim_view()
        &&& index.ids_view().len() == self.count_view()
        &&& index.vectors_view().len() == self.count_view()
        &&& forall|i: int|
            0 <= i < self.count_view() ==> #[trigger] index.ids_view()[i] as nat == word_at(
                self.id_bytes_view(),
                8,
                i,
            )
        &&& forall|i: int, j: int|
            0 <= i < self.count_view() && 0 <= j < self.dim_view()
                ==> #[trigger] index.vectors_view()[i][j] as nat == word_at(
                self.vector_bytes_view(),
                4,
                i * self.dim_view() + j,
            )
    }

    /// Rebuilds the index the segment holds. Fails unless the segment is
    /// consistent; no partly built index is ever returned.
    pub fn load_index(&self) -> (r: Result<KNNIndex, DbError>)
        ensures
            r is Err <==> !self.loads(),
            r matches Err(e) ==> e == DbError::DataCorruption,
            r matches Ok(index) ==> self.loaded_as(index),
    {
        let count = self.meta.count as usize;
        let dim = self.meta.dim;
        proof {
            vstd::arithmetic::div_mod::lemma_fundamental_div_mod(self.id_bytes@.len() as int, 8);
            vstd::arithmetic::div_mod::lemma_fundamental_div_mod(self.vector_bytes@.len() as int, 4);
        }
        let ids = match decode_ids(&self.id_bytes) {
            None => return Err(DbError::DataCorruption),
            Some(v) => v,
        };
        let flat = match decode_values(&self.vector_bytes) {
            None => return Err(DbError::DataCorruption),
            Some(v) => v,
        };
        if ids.len() != count {
            return Err(DbError::DataCorruption);
        }
        proof {
            assert((count as int) * (dim as int) <= 0xFFFF_FFFF_FFFF_FFFF * 0xFFFF_FFFF_FFFF_FFFF) by (nonlinear_arith)
                requires 0 <= count as int <= 0xFFFF_FFFF_FFFF_FFFF, 0 <= dim as int <= 0xFFFF_FFFF_FFFF_FFFF;
        }
        let cells: u128 = (count as u128) * (dim as u128);
        proof {
            assert(cells as int == count as int * dim as int) by (nonlinear_arith)
                requires cells as int == count as int * dim as int;
        }
        let flat_len = flat.len();
        if cells != flat_len as u128 {
            return Err(DbError::DataCorruption);
        }
        let metric = match Metric::from_name(self.meta.metric.as_str()) {
            None => return Err(DbError::DataCorruption),
            Some(m) => m,
        };
        let mut rows: Vec<Vec<u32>> = Vec::new();
        let mut i: usize = 0;
        while i < count
            invariant
                i <= count,
                flat@.len() == count * dim,
                count * dim <= usize::MAX,
                rows@.len() == i,
                forall|a: int| 0 <= a < i ==> #[trigger] rows@[a]@.len() == dim,
                forall|a: int, b: int|
                    0 <= a < i && 0 <= b < dim ==> #[trigger] rows@[a]@[b] == flat@[a * dim + b],
            decreases count - i,
        {
            proof {
                assert(i * dim + dim <= count * dim) by (nonlinear_arith)
                    requires i < count;
            }
            let start = i * dim;
            let mut row: Vec<u32> = Vec::new();
            let mut j: usize = 0;
            while j < dim
                invariant
                    j <= dim,
                    start == i * dim,
                    start + dim <= flat@.len(),
                    flat@.len() <= usize::MAX,
                    row@.len() == j,
                    forall|b: int| 0 <= b < j ==> #[trigger] row@[b] == flat@[start + b],
                decreases dim - j,
            {
                row.push(flat[start + j]);
                j = j + 1;
            }
            rows.push(row);
            i = i + 1;
        }
        let ghost vs = rows@.map_values(|v: Vec<u32>| v@);
        assert(all_of_length(vs, dim as int));
        assert forall|a: int, c: int| 0 <= a < count && 0 <= c < dim implies #[trigger] vs[a][c] as nat
            == word_at(self.vector_bytes@, 4, a * dim + c) by {
            assert(a * dim + c < count * dim) by (nonlinear_arith)
                requires a < count, c < dim;
        }
        let r = KNNIndex::new(dim, metric, ids, rows);
        match r {
            Ok(index) => Ok(index),
            Err(_) => Err(DbError::DataCorruption),
        }
    }
}

} // verus!
