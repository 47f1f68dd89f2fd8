use vstd::prelude::*;
use vstd::slice::slice_subrange;
use crate::column::ListColumn;

verus! {

/// The last row (exclusive) of the batch that starts at `start`.
pub open spec fn batch_end(start: nat, batch_size: nat, total: nat) -> nat {
    if start + batch_size <= total {
        start + batch_size
    } else {
        total
    }
}

/// The next batch of up to `batch_size` rows from row `start` on: the flat
/// values of those rows, the row where the following batch starts, and the
/// number of rows taken. `None` once no row is left.
pub fn create_batched_tensor<'a, T>(
    start: usize,
    batch_size: usize,
    col: &'a ListColumn<T>,
) -> (r: Option<(&'a [T], usize, usize)>)
    requires
        col.wf(),
    ensures
        ({
            let end = batch_end(start as nat, batch_size as nat, col.num_rows());
            match r {
                None => start >= col.num_rows() || end <= start,
                Some((t, next, rows)) => {
                    &&& start < end
                    &&& next == end
                    &&& rows == end - start
                    &&& t@ == col.values@.subrange(
                        col.offsets@[start as int] as int,
                        col.offsets@[end as int] as int,
                    )
                },
            }
        }),
{
    let total = col.offsets.len() - 1;
    if start >= total {
        return None;
    }
    let end = if batch_size <= total - start {
        start + batch_size
    } else {
        total
    };
    if end <= start {
        None
    } else {
        let index_start = col.offsets[start];
        let index_end = col.offsets[end];
        let current = slice_subrange(col.values.as_slice(), index_start, index_end);
        Some((current, end, end - start))
    }
}

/// The batches of a column, taken one after another: a finite sequence that
/// can be walked once and never restarted.
pub struct Batches<'a, T> {
    col: &'a ListColumn<T>,
    batch_size: usize,
    start: usize,
}

impl<'a, T> Batches<'a, T> {
    pub closed spec fn column(&self) -> ListColumn<T> {
        *self.col
    }

    pub closed spec fn size(&self) -> nat {
        self.batch_size as nat
    }

    /// The first row that no batch handed out so far holds.
    pub closed spec fn position(&self) -> nat {
        self.start as nat
    }

    pub open spec fn wf(&self) -> bool {
        self.column().wf() && self.position() <= self.column().num_rows()
    }

    /// The batches of `col`, each of up to `batch_size` rows.
    pub fn new(col: &'a ListColumn<T>, batch_size: usize) -> (r: Self)
        requires
            col.wf(),
        ensures
            r.wf(),
            r.column() == *col,
            r.size() == batch_size,
            r.position() == 0,
    {
        Batches { col, batch_size, start: 0 }
    }

    /// The first row that the next batch will hold.
    pub fn next_row(&self) -> (r: usize)
        ensures
            r == self.position(),
    {
        self.start
    }

    /// The next batch: its flat values and its number of rows.
    pub fn next_batch(&mut self) -> (r: Option<(&'a [T], usize)>)
        requires
            old(self).wf(),
        ensures
            final(self).wf(),
            final(self).column() == old(self).column(),
            final(self).size() == old(self).size(),
            ({
                let col = old(self).column();
                let start = old(self).position();
                let end = batch_end(start, old(self).size(), col.num_rows());
                match r {
                    None => end <= start && final(self).position() == start,
                    Some((t, rows)) => {
                        &&& start < end
                        &&& final(self).position() == end
                        &&& rows == end - start
                        &&& t@ == col.values@.subrange(
                            col.offsets@[start as int] as int,
                            col.offsets@[end as int] as int,
                        )
                    },
                }
            }),
    {
        match create_batched_tensor(self.start, self.batch_size, self.col) {
            None => None,
            Some((t, next, rows)) => {
                self.start = next;
                Some((t, rows))
            },
        }
    }
}

/// `x * k <= n * k` for `x <= n`.
proof fn lemma_mul_le(x: int, n: int, k: int)
    requires
        0 <= x <= n,
        0 <= k,
    ensures
        0 <= x * k <= n * k,
{
    assert(0 <= x * k <= n * k) by (nonlinear_arith)
        requires
            0 <= x <= n,
            0 <= k,
    ;
}

/// Appends the scores of one batch of `items` rows to `result`, as `items`
/// new rows of equal length, in order.
pub fn flatten_batched_tensor<R: Copy>(logits: &[R], items: usize, result: &mut ListColumn<R>)
    requires
        old(result).wf(),
        items > 0,
        (logits@.len() as int) % (items as int) == 0,
        old(result).values@.len() + logits@.len() <= usize::MAX,
    ensures
        final(result).wf(),
        final(result).num_rows() == old(result).num_rows() + items,
        final(result).values@ == old(result).values@ + logits@,
        forall|i: int|
            0 <= i < old(result).num_rows() ==> #[trigger] final(result).row(i) == old(
                result,
            ).row(i),
        forall|j: int|
            0 <= j < items ==> #[trigger] final(result).row(old(result).num_rows() + j)
                == logits@.subrange(
                j * ((logits@.len() as int) / (items as int)),
                (j + 1) * ((logits@.len() as int) / (items as int)),
            ),
        forall|i: int|
            0 <= i <= old(result).num_rows() ==> #[trigger] final(result).offsets@[i] == old(
                result,
            ).offsets@[i],
        forall|j: int|
            0 <= j <= items ==> #[trigger] final(result).offsets@[old(result).num_rows() + j]
                == old(result).values@.len() + j * ((logits@.len() as int) / (items as int)),
{
    let ghost old_values = result.values@;
    let ghost old_offsets = result.offsets@;
    let start = result.values.len();
    let mut p: usize = 0;
    while p < logits.len()
        invariant
            p <= logits@.len(),
            start == old_values.len(),
            start + logits@.len() <= usize::MAX,
            result.values@ == old_values + logits@.subrange(0, p as int),
            result.offsets@ == old_offsets,
        decreases logits@.len() - p,
    {
        result.values.push(logits[p]);
        p = p + 1;
        assert(logits@.subrange(0, p as int) == logits@.subrange(0, p - 1).push(logits@[p - 1]));
    }
    assert(logits@.subrange(0, p as int) == logits@);
    let end = result.values.len();
    let elements = (end - start) / items;
    proof {
        assert(items * elements == logits@.len()) by (nonlinear_arith)
            requires
                elements == (logits@.len() as int) / (items as int),
                (logits@.len() as int) % (items as int) == 0,
                items > 0,
        ;
    }
    let mut i: usize = 0;
    while i < items
        invariant
            0 <= i <= items,
            items * elements == logits@.len(),
            end == start + logits@.len(),
            old_offsets.len() >= 1,
            old_offsets.last() == start,
            forall|a: int, c: int|
                0 <= a <= c < old_offsets.len() ==> old_offsets[a] <= old_offsets[c],
            end <= usize::MAX,
            start == old_values.len(),
            elements == (logits@.len() as int) / (items as int),
            result.values@ == old_values + logits@,
            result.offsets@.len() == old_offsets.len() + i,
            forall|a: int| 0 <= a < old_offsets.len() ==> result.offsets@[a] == old_offsets[a],
            forall|a: int|
                old_offsets.len() <= a < result.offsets@.len() ==> #[trigger] result.offsets@[a]
                    == start + (a - (old_offsets.len() - 1)) * elements,
        decreases items - i,
    {
        proof {
            lemma_mul_le(i + 1, items as int, elements as int);
            assert((i + 1) * elements <= logits@.len());
        }
        result.offsets.push(start + (i + 1) * elements);
        i = i + 1;
    }
    proof {
        let n0 = old_offsets.len() - 1;
        let offs = result.offsets@;
        assert forall|a: int| n0 <= a <= n0 + items implies #[trigger] offs[a] == start + (a
            - n0) * elements by {
            if a == n0 {
                assert(offs[n0] == old_offsets[n0]);
                assert((a - n0) * elements == 0) by (nonlinear_arith)
                    requires
                        a == n0,
                ;
            } else {
                assert(old_offsets.len() <= a < offs.len());
            }
        }
        assert forall|a: int, c: int| 0 <= a <= c < offs.len() implies offs[a] <= offs[c] by {
            if c > n0 {
                if a > n0 {
                    lemma_mul_le(a - n0, c - n0, elements as int);
                } else {
                    lemma_mul_le(0, c - n0, elements as int);
                    assert(offs[a] == old_offsets[a]);
                    assert(offs[a] <= old_offsets[n0]);
                }
            } else {
                assert(offs[a] == old_offsets[a]);
                assert(offs[c] == old_offsets[c]);
            }
        }
        lemma_mul_le(items as int, items as int, elements as int);
        assert forall|x: int| 0 <= x < n0 implies #[trigger] result.row(x) == old(result).row(x) by {
            assert(offs[x] <= offs[x + 1] <= offs[n0]);
        }
        assert forall|j: int| 0 <= j < items implies #[trigger] result.row(n0 + j)
            == logits@.subrange(j * elements, (j + 1) * elements) by {
            assert(offs[n0 + j] == start + j * elements);
            assert(offs[n0 + j + 1] == start + (j + 1) * elements);
            lemma_mul_le(j, j + 1, elements as int);
            lemma_mul_le(j + 1, items as int, elements as int);
            assert((j + 1) * elements <= logits@.len());
            assert((j + 1) * elements == j * elements + elements) by (nonlinear_arith);
            assert(result.row(n0 + j) =~= logits@.subrange(j * elements, (j + 1) * elements));
        }
    }
}

/// Why an invocation over a list column failed.
#[derive(Debug)]
pub enum BridgeError<E> {
    /// The model failed on a batch; its own error is handed on.
    Model(E),
    /// The row named here holds another number of values than the row before
    /// it, in the same batch, so the batch cannot be cut into equal feature vectors.
    RaggedRows(usize),
    /// The model returned a number of scores that the batch's rows do not divide.
    UnevenScores,
    /// The scores would not fit in memory.
    TooLarge,
}

/// `predict` scores each row on its own: a tensor made of rows of `n`
/// values each, with `n > 0`, gets back `score(row)` for each of its rows in
/// order, every one `k` values long, whatever the mode flag says.
pub open spec fn row_wise<I, R, E, F: Fn(&[I], usize, bool) -> Result<Vec<R>, E>>(
    predict: F,
    score: spec_fn(Seq<I>) -> Seq<R>,
    k: nat,
) -> bool {
    &&& forall|s: Seq<I>| #[trigger] score(s).len() == k
    &&& forall|t: &[I], n: usize, multi: bool, r: Result<Vec<R>, E>|
        #![trigger predict.ensures((t, n, multi), r)]
        n > 0 && (t@.len() as int) % (n as int) == 0 && predict.ensures((t, n, multi), r)
            && r is Ok ==> {
            let v = r->Ok_0@;
            &&& v.len() == ((t@.len() as int) / (n as int)) * k
            &&& forall|j: int|
                0 <= j < (t@.len() as int) / (n as int) ==> #[trigger] v.subrange(
                    j * k,
                    (j + 1) * k,
                ) == score(t@.subrange(j * n, (j + 1) * n))
        }
}

/// In a column whose rows all hold `n` values, the rows of a batch are the
/// consecutive `n`-value pieces of its tensor.
proof fn lemma_uniform_piece<T>(col: &ListColumn<T>, n: nat, start: int, end: int, j: int)
    requires
        col.wf(),
        col.uniform(n),
        0 <= start <= start + j < end <= col.num_rows(),
    ensures
        col.values@.subrange(start * n, end * n).subrange(j * n, (j + 1) * n) == col.row(
            start + j,
        ),
{
    assert(col.offsets@[start + j] == (start + j) * n);
    assert(col.offsets@[start + j + 1] == (start + j + 1) * n);
    assert(col.offsets@[start] == start * n);
    assert(col.offsets@[end] == end * n);
    assert((start + j) * n == start * n + j * n) by (nonlinear_arith);
    assert((start + j + 1) * n == start * n + (j + 1) * n) by (nonlinear_arith);
    assert(col.values@.subrange(start * n, end * n).subrange(j * n, (j + 1) * n) =~= col.row(
        start + j,
    ));
}

/// One batch of a column whose rows all hold `n` values, scored by a
/// row-wise model: the model was handed exactly `n` features, and piece `j`
/// of its scores is the score of the batch's row `j`.
proof fn lemma_row_wise_batch<I, R, E, F: Fn(&[I], usize, bool) -> Result<Vec<R>, E>>(
    col: &ListColumn<I>,
    predict: F,
    score: spec_fn(Seq<I>) -> Seq<R>,
    k: nat,
    n: nat,
    start: int,
    next: int,
    tensor: &[I],
    n_features: usize,
    res: Result<Vec<R>, E>,
)
    requires
        col.wf(),
        n > 0,
        col.uniform(n),
        row_wise(predict, score, k),
        0 <= start < next <= col.num_rows(),
        tensor@ == col.values@.subrange(col.offsets@[start] as int, col.offsets@[next] as int),
        n_features == (tensor@.len() as int) / (next - start),
        predict.ensures((tensor, n_features, next - start > 1), res),
        res is Ok,
    ensures
        n_features == n,
        res->Ok_0@.len() == (next - start) * k,
        (res->Ok_0@.len() as int) % (next - start) == 0,
        (res->Ok_0@.len() as int) / (next - start) == k,
        forall|j: int|
            0 <= j < next - start ==> #[trigger] res->Ok_0@.subrange(j * k, (j + 1) * k) == score(
                col.row(start + j),
            ),
{
    let rows = next - start;
    let scores = res->Ok_0@;
    assert(col.offsets@[start] == start * n);
    assert(col.offsets@[next] == next * n);
    assert(tensor@.len() == rows * n) by (nonlinear_arith)
        requires
            tensor@.len() == next * n - start * n,
            rows == next - start,
    ;
    assert(n_features == n) by (nonlinear_arith)
        requires
            tensor@.len() == rows * n,
            rows > 0,
            n_features == (tensor@.len() as int) / rows,
    ;
    assert((tensor@.len() as int) / (n as int) == rows) by (nonlinear_arith)
        requires
            tensor@.len() == rows * n,
            n > 0,
    ;
    assert((tensor@.len() as int) % (n as int) == 0) by (nonlinear_arith)
        requires
            tensor@.len() == rows * n,
            n > 0,
    ;
    assert(scores.len() == rows * k);
    assert((scores.len() as int) / rows == k && (scores.len() as int) % rows == 0)
        by (nonlinear_arith)
        requires
            scores.len() == rows * k,
            rows > 0,
    ;
    assert forall|j: int| 0 <= j < rows implies #[trigger] scores.subrange(j * k, (j + 1) * k)
        == score(col.row(start + j)) by {
        lemma_uniform_piece(col, n, start, next, j);
    }
}

/// The first row of `s .. e` whose length differs from the row before it.
pub fn uneven_row<T>(col: &ListColumn<T>, s: usize, e: usize) -> (r: Option<usize>)
    requires
        col.wf(),
        s < e <= col.num_rows(),
    ensures
        r is None <==> even_rows(*col, s as nat, e as nat),
        r matches Some(q) ==> s < q < e && col.row(q as int).len() != col.row(q - 1).len()
            && forall|q2: int| s < q2 < q ==> #[trigger] col.row(q2).len() == col.row(q2 - 1).len(),
{
    let mut q: usize = s + 1;
    while q < e
        invariant
            col.wf(),
            s < q <= e || q == s + 1,
            s < e <= col.num_rows(),
            forall|q2: int| s < q2 < q ==> #[trigger] col.row(q2).len() == col.row(q2 - 1).len(),
        decreases e - q,
    {
        assert(col.offsets@[q - 1] <= col.offsets@[q as int] <= col.offsets@[q + 1]);
        if col.offsets[q + 1] - col.offsets[q] != col.offsets[q] - col.offsets[q - 1] {
            assert(col.row(q as int).len() == col.offsets@[q + 1] - col.offsets@[q as int]);
            assert(col.row(q - 1).len() == col.offsets@[q as int] - col.offsets@[q - 1]);
            assert(!even_rows(*col, s as nat, e as nat));
            return Some(q);
        }
        q = q + 1;
    }
    None
}

/// Appends the scores of a batch of `rows` rows to `out`: refused when the
/// rows do not share the scores equally, or when they would not fit.
pub fn absorb_scores<R: Copy, E>(out: &mut ListColumn<R>, scores: &[R], rows: usize) -> (r: Result<
    (),
    BridgeError<E>,
>)
    requires
        old(out).wf(),
        rows > 0,
    ensures
        final(out).wf(),
        (r matches Err(BridgeError::UnevenScores)) <==> (scores@.len() as int) % (rows as int) != 0,
        (r matches Err(BridgeError::TooLarge)) <==> (scores@.len() as int) % (rows as int) == 0
            && old(out).values@.len() + scores@.len() > usize::MAX,
        r is Err ==> *final(out) == *old(out) && ((r matches Err(BridgeError::UnevenScores)) || (
        r matches Err(BridgeError::TooLarge))),
        r is Ok ==> {
            let k = (scores@.len() as int) / (rows as int);
            &&& final(out).num_rows() == old(out).num_rows() + rows
            &&& final(out).values@ == old(out).values@ + scores@
            &&& forall|i: int|
                0 <= i < old(out).num_rows() ==> #[trigger] final(out).row(i) == old(out).row(i)
            &&& forall|j: int|
                0 <= j < rows ==> #[trigger] final(out).row(old(out).num_rows() + j)
                    == scores@.subrange(j * k, (j + 1) * k)
            &&& forall|i: int|
                0 <= i <= old(out).num_rows() ==> #[trigger] final(out).offsets@[i] == old(
                    out,
                ).offsets@[i]
            &&& forall|j: int|
                0 <= j <= rows ==> #[trigger] final(out).offsets@[old(out).num_rows() + j]
                    == old(out).values@.len() + j * k
        },
{
    if scores.len() % rows != 0 {
        return Err(BridgeError::UnevenScores);
    }
    if scores.len() > usize::MAX - out.values.len() {
        return Err(BridgeError::TooLarge);
    }
    flatten_batched_tensor(scores, rows, out);
    Ok(())
}

/// The first row of batch `b`.
pub open spec fn span_start(bs: nat, b: nat) -> nat {
    b * bs
}

/// The end (exclusive) of batch `b` of a column of `n` rows.
pub open spec fn span_end(n: nat, bs: nat, b: nat) -> nat {
    batch_end(b * bs, bs, n)
}

/// Batch `b` holds at least one row.
pub open spec fn is_batch(n: nat, bs: nat, b: nat) -> bool {
    b * bs < n
}

/// The flag handed to the model: rows `s .. e` are more than one.
pub open spec fn many_rows(s: nat, e: nat) -> bool {
    e - s > 1
}

/// The flat values of rows `s .. e`.
pub open spec fn batch_tensor<T>(col: ListColumn<T>, s: nat, e: nat) -> Seq<T> {
    col.values@.subrange(col.offsets@[s as int] as int, col.offsets@[e as int] as int)
}

/// The number of values per row that the model is told for rows `s .. e`.
pub open spec fn feature_count<T>(col: ListColumn<T>, s: nat, e: nat) -> usize {
    ((col.offsets@[e as int] - col.offsets@[s as int]) / (e - s) as int) as usize
}

/// Rows `s .. e` all hold the same number of values.
pub open spec fn even_rows<T>(col: ListColumn<T>, s: nat, e: nat) -> bool {
    forall|q: int| s < q < e ==> #[trigger] col.row(q).len() == col.row(q - 1).len()
}

/// Every batch holds rows of one length.
pub open spec fn all_even<T>(col: ListColumn<T>, bs: nat) -> bool {
    forall|b: nat|
        #[trigger] is_batch(col.num_rows(), bs, b) ==> even_rows(
            col,
            span_start(bs, b),
            span_end(col.num_rows(), bs, b),
        )
}

/// `scores` is what `predict` may return for rows `s .. e`, handed their
/// values, their number of values per row, and whether they are more than one.
pub open spec fn scored_by<I, R, E, F: Fn(&[I], usize, bool) -> Result<Vec<R>, E>>(
    predict: F,
    col: ListColumn<I>,
    s: nat,
    e: nat,
    scores: Seq<R>,
) -> bool {
    exists|t: &[I], v: Vec<R>|
        #[trigger] predict.ensures((t, feature_count(col, s, e), many_rows(s, e)), Ok::<Vec<R>, E>(v))
            && t@ == batch_tensor(col, s, e) && v@ == scores
}

/// `e` is what `predict` may fail with for rows `s .. e2`.
pub open spec fn fails_with<I, R, E, F: Fn(&[I], usize, bool) -> Result<Vec<R>, E>>(
    predict: F,
    col: ListColumn<I>,
    s: nat,
    e2: nat,
    e: E,
) -> bool {
    exists|t: &[I]|
        #[trigger] predict.ensures((t, feature_count(col, s, e2), many_rows(s, e2)), Err::<Vec<R>, E>(e))
            && t@ == batch_tensor(col, s, e2)
}

/// Piece `j` of `scores` shared out equally among `rows` rows.
pub open spec fn piece<R>(scores: Seq<R>, rows: nat, j: int) -> Seq<R> {
    let k = (scores.len() as int) / (rows as int);
    scores.subrange(j * k, (j + 1) * k)
}

/// Batch `b` had rows of one length and the model scored it, with scores
/// that its rows share equally.
pub open spec fn batch_succeeded<I, R, E, F: Fn(&[I], usize, bool) -> Result<Vec<R>, E>>(
    predict: F,
    col: ListColumn<I>,
    bs: nat,
    b: nat,
) -> bool {
    let s = span_start(bs, b);
    let e = span_end(col.num_rows(), bs, b);
    &&& even_rows(col, s, e)
    &&& exists|scores: Seq<R>|
        #[trigger] scored_by::<I, R, E, F>(predict, col, s, e, scores) && (scores.len() as int) % (
        (e - s) as int) == 0
}

/// As `batch_succeeded`, and the rows of batch `b` in `out` are the pieces of
/// those scores.
pub open spec fn batch_done<I, R, E, F: Fn(&[I], usize, bool) -> Result<Vec<R>, E>>(
    predict: F,
    col: ListColumn<I>,
    bs: nat,
    out: ListColumn<R>,
    b: nat,
) -> bool {
    let s = span_start(bs, b);
    let e = span_end(col.num_rows(), bs, b);
    &&& even_rows(col, s, e)
    &&& exists|scores: Seq<R>|
        #[trigger] scored_by::<I, R, E, F>(predict, col, s, e, scores) && (scores.len() as int) % (
        (e - s) as int) == 0 && forall|j: int|
            0 <= j < e - s ==> #[trigger] out.row(s + j) == piece(scores, (e - s) as nat, j)
}

/// Every call that the batches of `col` can make succeeds with `c` scores
/// for each row.
pub open spec fn gives_per_row<I, R, E, F: Fn(&[I], usize, bool) -> Result<Vec<R>, E>>(
    predict: F,
    col: ListColumn<I>,
    bs: nat,
    c: nat,
) -> bool {
    forall|b: nat, t: &[I], res: Result<Vec<R>, E>|
        is_batch(col.num_rows(), bs, b) && t@ == batch_tensor(
            col,
            span_start(bs, b),
            span_end(col.num_rows(), bs, b),
        ) && #[trigger] predict.ensures(
            (
                t,
                feature_count(col, span_start(bs, b), span_end(col.num_rows(), bs, b)),
                many_rows(span_start(bs, b), span_end(col.num_rows(), bs, b)),
            ),
            res,
        ) ==> res is Ok && res->Ok_0@.len() == (span_end(col.num_rows(), bs, b) - span_start(
            bs,
            b,
        )) * c
}

/// Runs `predict` over `col` in batches of up to `batch_size` rows, in
/// order, and gathers the scores into one list column with a row for each
/// row of `col`. Batch `b` covers rows `b * batch_size` up to the next
/// multiple or the end; the model is handed its flat values, its number of
/// values per row, and a flag that is set when it holds more than one row.
/// A batch whose rows differ in length is refused before the model sees it,
/// and the scores of a batch are shared out equally among its rows. The
/// first failure ends the work.
///
/// An empty column gives an empty result and the model is never called.
/// When the rows all hold the same number of values and the model scores
/// each row on its own, row `i` of the result is the score of row `i` of
/// `col`, whatever the batch size: batching changes neither the scores nor
/// their order.
pub fn call_model<I: Copy, R: Copy, E, F: Fn(&[I], usize, bool) -> Result<Vec<R>, E>>(
    col: &ListColumn<I>,
    batch_size: usize,
    predict: F,
) -> (r: Result<ListColumn<R>, BridgeError<E>>)
    requires
        col.wf(),
        batch_size > 0,
        forall|b: nat, t: &[I]|
            is_batch(col.num_rows(), batch_size as nat, b) && even_rows(
                *col,
                span_start(batch_size as nat, b),
                span_end(col.num_rows(), batch_size as nat, b),
            ) && t@ == batch_tensor(
                *col,
                span_start(batch_size as nat, b),
                span_end(col.num_rows(), batch_size as nat, b),
            ) ==> #[trigger] predict.requires(
                (
                    t,
                    feature_count(
                        *col,
                        span_start(batch_size as nat, b),
                        span_end(col.num_rows(), batch_size as nat, b),
                    ),
                    many_rows(
                        span_start(batch_size as nat, b),
                        span_end(col.num_rows(), batch_size as nat, b),
                    ),
                ),
            ),
    ensures
        col.num_rows() == 0 ==> (r matches Ok(out) && out.num_rows() == 0),
        r matches Ok(out) ==> {
            &&& out.wf()
            &&& out.num_rows() == col.num_rows()
            &&& forall|b: nat|
                #[trigger] is_batch(col.num_rows(), batch_size as nat, b) ==> batch_done(
                    predict,
                    *col,
                    batch_size as nat,
                    out,
                    b,
                )
        },
        forall|c: nat|
            #![trigger gives_per_row(predict, *col, batch_size as nat, c)]
            col.num_rows() * c <= usize::MAX && gives_per_row(predict, *col, batch_size as nat, c)
                ==> (all_even(*col, batch_size as nat) ==> (r matches Ok(out) && forall|i: int|
                0 <= i <= col.num_rows() ==> #[trigger] out.offsets@[i] == i * c)) && (!all_even(
                *col,
                batch_size as nat,
            ) ==> r matches Err(BridgeError::RaggedRows(_))),
        forall|score: spec_fn(Seq<I>) -> Seq<R>, k: nat, n: nat|
            n > 0 && col.uniform(n) && row_wise(predict, score, k) && r is Ok ==> #[trigger] r->Ok_0.rows()
                == col.rows().map_values(score),
        r matches Err(BridgeError::Model(e)) ==> exists|b: nat|
            #[trigger] is_batch(col.num_rows(), batch_size as nat, b) && even_rows(
                *col,
                span_start(batch_size as nat, b),
                span_end(col.num_rows(), batch_size as nat, b),
            ) && fails_with(
                predict,
                *col,
                span_start(batch_size as nat, b),
                span_end(col.num_rows(), batch_size as nat, b),
                e,
            ) && forall|b2: nat|
                b2 < b ==> #[trigger] batch_succeeded(predict, *col, batch_size as nat, b2),
        r matches Err(BridgeError::RaggedRows(i)) ==> exists|b: nat|
            #[trigger] is_batch(col.num_rows(), batch_size as nat, b) && span_start(
                batch_size as nat,
                b,
            ) < i < span_end(col.num_rows(), batch_size as nat, b) && col.row(i as int).len()
                != col.row(i - 1).len() && forall|b2: nat|
                b2 < b ==> #[trigger] batch_succeeded(predict, *col, batch_size as nat, b2),
        (r matches Err(BridgeError::UnevenScores)) || (r matches Err(BridgeError::TooLarge))
            ==> exists|b: nat|
            #[trigger] is_batch(col.num_rows(), batch_size as nat, b) && even_rows(
                *col,
                span_start(batch_size as nat, b),
                span_end(col.num_rows(), batch_size as nat, b),
            ) && forall|b2: nat|
                b2 < b ==> #[trigger] batch_succeeded(predict, *col, batch_size as nat, b2),
{
    let ghost bs = batch_size as nat;
    let ghost n = col.num_rows();
    let ghost mut k: nat = 0;
    let mut out: ListColumn<R> = ListColumn::empty();
    let mut batches = Batches::new(col, batch_size);
    loop
        invariant
            batches.wf(),
            batches.column() == *col,
            batches.size() == batch_size,
            col.wf(),
            batch_size > 0,
            bs == batch_size,
            n == col.num_rows(),
            forall|b: nat, t: &[I]|
                is_batch(n, bs, b) && even_rows(*col, span_start(bs, b), span_end(n, bs, b)) && t@
                    == batch_tensor(*col, span_start(bs, b), span_end(n, bs, b))
                    ==> #[trigger] predict.requires(
                    (
                        t,
                        feature_count(*col, span_start(bs, b), span_end(n, bs, b)),
                        many_rows(span_start(bs, b), span_end(n, bs, b)),
                    ),
                ),
            out.wf(),
            out.num_rows() == batches.position(),
            k * bs <= n ==> batches.position() == k * bs,
            k * bs > n ==> batches.position() == n,
            forall|b: nat| b < k ==> #[trigger] batch_done(predict, *col, bs, out, b),
            forall|c: nat|
                #![trigger gives_per_row(predict, *col, bs, c)]
                n * c <= usize::MAX && gives_per_row(predict, *col, bs, c) ==> {
                    &&& out.values@.len() == batches.position() * c
                    &&& forall|i: int|
                        0 <= i <= batches.position() ==> #[trigger] out.offsets@[i] == i * c
                },
            forall|score: spec_fn(Seq<I>) -> Seq<R>, kk: nat, m: nat|
                m > 0 && col.uniform(m) && row_wise(predict, score, kk) ==> forall|i: int|
                    0 <= i < batches.position() ==> #[trigger] out.row(i) == score(col.row(i)),
        ensures
            batches.position() == n,
            forall|b: nat| #[trigger] is_batch(n, bs, b) ==> b < k,
        decreases n - batches.position(),
    {
        let start = batches.next_row();
        let (tensor, rows) = match batches.next_batch() {
            Some(batch) => batch,
            None => {
                proof {
                    assert forall|b: nat| #[trigger] is_batch(n, bs, b) implies b < k by {
                        if b >= k {
                            lemma_mul_le(k as int, b as int, bs as int);
                        }
                    }
                }
                break ;
            },
        };
        let next = batches.next_row();
        proof {
            assert(start == k * bs);
            assert(is_batch(n, bs, k));
            assert(next == span_end(n, bs, k));
        }
        match uneven_row(col, start, next) {
            Some(q) => {
                proof {
                    assert(!even_rows(*col, span_start(bs, k), span_end(n, bs, k)));
                    assert forall|b2: nat| b2 < k implies #[trigger] batch_succeeded(
                        predict,
                        *col,
                        bs,
                        b2,
                    ) by {
                        assert(batch_done(predict, *col, bs, out, b2));
                    }
                    assert forall|c: nat|
                        n * c <= usize::MAX && gives_per_row(predict, *col, bs, c) implies !all_even(
                        *col,
                        bs,
                    ) by {
                        assert(is_batch(n, bs, k));
                    }
                }
                return Err(BridgeError::RaggedRows(q));
            },
            None => {},
        }
        let ghost fc = feature_count(*col, start as nat, next as nat);
        let n_features = tensor.len() / rows;
        proof {
            assert(n_features == fc);
        }
        proof {
            assert(many_rows(start as nat, next as nat) == (rows > 1));
            assert(tensor@ == batch_tensor(*col, span_start(bs, k), span_end(n, bs, k)));
            assert(predict.requires(
                (
                    tensor,
                    feature_count(*col, span_start(bs, k), span_end(n, bs, k)),
                    many_rows(span_start(bs, k), span_end(n, bs, k)),
                ),
            ));
        }
        let res = predict(tensor, n_features, rows > 1);
        let ghost called = res;
        let scores = match res {
            Ok(v) => v,
            Err(e) => {
                proof {
                    assert(fails_with(predict, *col, start as nat, next as nat, e));
                    assert forall|b2: nat| b2 < k implies #[trigger] batch_succeeded(
                        predict,
                        *col,
                        bs,
                        b2,
                    ) by {
                        assert(batch_done(predict, *col, bs, out, b2));
                    }
                }
                return Err(BridgeError::Model(e));
            },
        };
        proof {
            assert(scored_by::<I, R, E, F>(predict, *col, start as nat, next as nat, scores@));
        }
        let ghost before = out;
        match absorb_scores::<R, E>(&mut out, scores.as_slice(), rows) {
            Ok(()) => {},
            Err(e) => {
                proof {
                    assert forall|b2: nat| b2 < k implies #[trigger] batch_succeeded(
                        predict,
                        *col,
                        bs,
                        b2,
                    ) by {
                        assert(batch_done(predict, *col, bs, before, b2));
                    }
                    assert forall|c: nat|
                        n * c <= usize::MAX && gives_per_row(predict, *col, bs, c) implies false by {
                        assert(scores@.len() == rows * c);
                        lemma_mul_le(next as int, n as int, c as int);
                        assert(next * c == start * c + rows * c) by (nonlinear_arith)
                            requires
                                next == start + rows,
                        ;
                        assert((scores@.len() as int) % (rows as int) == 0) by (nonlinear_arith)
                            requires
                                scores@.len() == rows * c,
                                rows > 0,
                        ;
                    }
                }
                return Err(e);
            },
        }
        proof {
            assert forall|score: spec_fn(Seq<I>) -> Seq<R>, kk: nat, m: nat|
                m > 0 && col.uniform(m) && row_wise(predict, score, kk) implies forall|i: int|
                0 <= i < next ==> #[trigger] out.row(i) == score(col.row(i)) by {
                lemma_row_wise_batch(
                    col, predict, score, kk, m, start as int, next as int, tensor, n_features,
                    called,
                );
                assert forall|i: int| 0 <= i < next implies #[trigger] out.row(i) == score(
                    col.row(i),
                ) by {
                    if i < start {
                        assert(out.row(i) == before.row(i));
                    } else {
                        let j = i - start;
                        assert(out.row(before.num_rows() + j) == scores@.subrange(
                            j * kk,
                            (j + 1) * kk,
                        ));
                    }
                }
            }
            assert forall|b: nat| b < k + 1 implies #[trigger] batch_done(
                predict,
                *col,
                bs,
                out,
                b,
            ) by {
                if b < k {
                    assert(batch_done(predict, *col, bs, before, b));
                    let s = span_start(bs, b);
                    let e = span_end(n, bs, b);
                    let sc = choose|sc: Seq<R>|
                        #[trigger] scored_by::<I, R, E, F>(predict, *col, s, e, sc) && (
                        sc.len() as int) % ((e - s) as int) == 0 && forall|j: int|
                            0 <= j < e - s ==> #[trigger] before.row(s + j) == piece(
                                sc,
                                (e - s) as nat,
                                j,
                            );
                    lemma_mul_le(b as int + 1, k as int, bs as int);
                    assert((b + 1) * bs == b * bs + bs) by (nonlinear_arith);
                    assert forall|j: int| 0 <= j < e - s implies #[trigger] out.row(s + j) == piece(
                        sc,
                        (e - s) as nat,
                        j,
                    ) by {
                        assert(before.row(s + j) == piece(sc, (e - s) as nat, j));
                    }
                } else {
                    assert forall|j: int| 0 <= j < next - start implies #[trigger] out.row(
                        start + j,
                    ) == piece(scores@, (next - start) as nat, j) by {
                        assert(out.row(before.num_rows() + j) == piece(
                            scores@,
                            rows as nat,
                            j,
                        ));
                    }
                }
            }
            assert forall|c: nat|
                #![trigger gives_per_row(predict, *col, bs, c)]
                n * c <= usize::MAX && gives_per_row(predict, *col, bs, c) implies {
                    &&& out.values@.len() == next * c
                    &&& forall|i: int| 0 <= i <= next ==> #[trigger] out.offsets@[i] == i * c
                } by {
                assert(scores@.len() == rows * c);
                assert(next * c == start * c + rows * c) by (nonlinear_arith)
                    requires
                        next == start + rows,
                ;
                assert((scores@.len() as int) / (rows as int) == c) by (nonlinear_arith)
                    requires
                        scores@.len() == rows * c,
                        rows > 0,
                ;
                assert forall|i: int| 0 <= i <= next implies #[trigger] out.offsets@[i] == i * c by {
                    if i > start {
                        let j = i - start;
                        assert(out.offsets@[before.num_rows() + j] == before.values@.len() + j * c);
                        assert(i * c == start * c + j * c) by (nonlinear_arith)
                            requires
                                i == start + j,
                        ;
                    } else {
                        assert(out.offsets@[i] == before.offsets@[i]);
                    }
                }
            }
            assert((k + 1) * bs == k * bs + bs) by (nonlinear_arith);
            k = k + 1;
        }
    }
    proof {
        assert forall|score: spec_fn(Seq<I>) -> Seq<R>, kk: nat, m: nat|
            m > 0 && col.uniform(m) && row_wise(predict, score, kk) implies #[trigger] out.rows()
            == col.rows().map_values(score) by {
            assert(out.rows() =~= col.rows().map_values(score));
        }
        assert forall|c: nat|
            #![trigger gives_per_row(predict, *col, bs, c)]
            n * c <= usize::MAX && gives_per_row(predict, *col, bs, c) implies all_even(*col, bs) by {
            assert forall|b: nat| #[trigger] is_batch(n, bs, b) implies even_rows(
                *col,
                span_start(bs, b),
                span_end(n, bs, b),
            ) by {
                assert(batch_done(predict, *col, bs, out, b));
            }
        }
    }
    Ok(out)
}

} // verus!
