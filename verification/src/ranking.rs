//! The ranking engine: every stored chunk is scored against the query vector
//! by dot product, the scores are sorted descending (ties keep insertion
//! order), an optional minimum-score filter is applied, and the list is cut
//! to at most `top_k` results.
//!
//! Vectors are fixed-point: a component `e` stands for `e / EMBED_SCALE`, so
//! a score is in units of `EMBED_SCALE * EMBED_SCALE`.

use vstd::prelude::*;
use crate::models::{ChunkView, ResultView, SearchResult, TextChunk, chunk_views, res_views, MAX_DIM};
use crate::EMBED_SCALE;

verus! {

/// All components of `v` lie in `[-bound, bound]`.
pub open spec fn bounded(v: Seq<i64>, bound: int) -> bool {
    forall|k: int| 0 <= k < v.len() ==> -bound <= #[trigger] v[k] <= bound
}

pub open spec fn min_len(a: Seq<i64>, b: Seq<i64>) -> int {
    if a.len() <= b.len() {
        a.len() as int
    } else {
        b.len() as int
    }
}

/// Sum of the products of the first `i` component pairs.
pub open spec fn dot_upto(a: Seq<i64>, b: Seq<i64>, i: int) -> int
    decreases i,
{
    if 0 < i <= min_len(a, b) {
        dot_upto(a, b, i - 1) + a[i - 1] * b[i - 1]
    } else {
        0
    }
}

/// The dot product of `a` and `b`, over their common prefix.
pub open spec fn dot_spec(a: Seq<i64>, b: Seq<i64>) -> int {
    dot_upto(a, b, min_len(a, b))
}

/// Computes the dot product of two fixed-point vectors. Shorter input decides
/// the summed length, as pairing the components does.
pub fn dot_product(a: &Vec<i64>, b: &Vec<i64>) -> (r: i64)
    requires
        bounded(a@, EMBED_SCALE as int),
        bounded(b@, EMBED_SCALE as int),
        min_len(a@, b@) <= MAX_DIM as int,
    ensures
        r as int == dot_spec(a@, b@),
{
    let m = if a.len() <= b.len() {
        a.len()
    } else {
        b.len()
    };
    let mut acc: i64 = 0;
    let mut i: usize = 0;
    while i < m
        invariant
            i <= m,
            m as int == min_len(a@, b@),
            m <= a@.len() && m <= b@.len(),
            bounded(a@, EMBED_SCALE as int),
            bounded(b@, EMBED_SCALE as int),
            m <= MAX_DIM,
            acc as int == dot_upto(a@, b@, i as int),
            -(i as int) * 1000000000000 <= acc as int <= (i as int) * 1000000000000,
        decreases m - i,
    {
        proof {
            let x = a@[i as int] as int;
            let y = b@[i as int] as int;
            assert(-1000000000000 <= x * y <= 1000000000000) by (nonlinear_arith)
                requires
                    -1000000 <= x <= 1000000,
                    -1000000 <= y <= 1000000,
            ;
        }
        let p = a[i] * b[i];
        acc = acc + p;
        i = i + 1;
    }
    acc
}

/// Sum of the squared components of `v`.
pub open spec fn sum_squares(v: Seq<i64>) -> int
    decreases v.len(),
{
    if v.len() == 0 {
        0
    } else {
        sum_squares(v.drop_last()) + v.last() * v.last()
    }
}

/// The vector is unit-normalized in fixed point: its sum of squares lies
/// within `EMBED_NORM_TOL` of `EMBED_SCALE * EMBED_SCALE`.
pub open spec fn norm_ok(v: Seq<i64>) -> bool {
    (EMBED_SCALE as int) * (EMBED_SCALE as int) - (crate::EMBED_NORM_TOL as int) <= sum_squares(v)
        <= (EMBED_SCALE as int) * (EMBED_SCALE as int) + (crate::EMBED_NORM_TOL as int)
}

/// Every chunk index paired with its score against the query.
pub open spec fn scored_spec(chunks: Seq<ChunkView>, q: Seq<i64>) -> Seq<(int, int)> {
    Seq::new(chunks.len(), |i: int| (i, dot_spec(q, chunks[i].embedding)))
}

/// Inserts `x` directly before the first pair whose score is below `x`'s:
/// descending order, with ties placed after the earlier entries.
pub open spec fn insert_desc(s: Seq<(int, int)>, x: (int, int)) -> Seq<(int, int)>
    decreases s.len(),
{
    if s.len() == 0 {
        seq![x]
    } else if s[0].1 >= x.1 {
        seq![s[0]] + insert_desc(s.drop_first(), x)
    } else {
        seq![x] + s
    }
}

/// Stable insertion sort of the score pairs, descending by score.
pub open spec fn sort_desc(s: Seq<(int, int)>) -> Seq<(int, int)>
    decreases s.len(),
{
    if s.len() == 0 {
        Seq::empty()
    } else {
        insert_desc(sort_desc(s.drop_last()), s.last())
    }
}

/// Scores never increase along the sequence.
pub open spec fn sorted_desc(s: Seq<(int, int)>) -> bool {
    forall|p: int, q: int| 0 <= p < q < s.len() ==> s[p].1 >= s[q].1
}

pub open spec fn pass_threshold(p: (int, int), t: Option<i64>) -> bool {
    match t {
        Option::Some(tt) => p.1 >= tt as int,
        Option::None => true,
    }
}

/// The pairs whose score meets the threshold, in order. Without a threshold
/// the filter keeps everything.
pub open spec fn filter_ge(s: Seq<(int, int)>, t: Option<i64>) -> Seq<(int, int)>
    decreases s.len(),
{
    if s.len() == 0 {
        Seq::empty()
    } else {
        let init = filter_ge(s.drop_last(), t);
        if pass_threshold(s.last(), t) {
            init.push(s.last())
        } else {
            init
        }
    }
}

pub open spec fn mk_result(chunks: Seq<ChunkView>, p: (int, int)) -> ResultView {
    ResultView {
        doc_id: chunks[p.0].doc_id,
        content: chunks[p.0].content,
        sender: chunks[p.0].sender,
        date: chunks[p.0].date,
        score: p.1,
    }
}

/// What a query returns: chunks scored, sorted descending, filtered by the
/// optional threshold, cut to at most `top_k`, and dressed as results.
pub open spec fn rank_spec(
    chunks: Seq<ChunkView>,
    q: Seq<i64>,
    top_k: usize,
    t: Option<i64>,
) -> Seq<ResultView> {
    let sorted = sort_desc(scored_spec(chunks, q));
    let kept = filter_ge(sorted, t);
    let cut = kept.take(if top_k as int <= kept.len() {
        top_k as int
    } else {
        kept.len() as int
    });
    cut.map_values(|p: (int, int)| mk_result(chunks, p))
}

proof fn lemma_insert_desc_len(s: Seq<(int, int)>, x: (int, int))
    ensures
        insert_desc(s, x).len() == s.len() + 1,
    decreases s.len(),
{
    if s.len() > 0 && s[0].1 >= x.1 {
        lemma_insert_desc_len(s.drop_first(), x);
    }
}

proof fn lemma_sort_desc_len(s: Seq<(int, int)>)
    ensures
        sort_desc(s).len() == s.len(),
    decreases s.len(),
{
    if s.len() > 0 {
        lemma_sort_desc_len(s.drop_last());
        lemma_insert_desc_len(sort_desc(s.drop_last()), s.last());
    }
}

proof fn lemma_insert_desc_elems(s: Seq<(int, int)>, x: (int, int))
    ensures
        forall|j: int|
            0 <= j < insert_desc(s, x).len() ==> insert_desc(s, x)[j] == x || s.contains(
                insert_desc(s, x)[j],
            ),
    decreases s.len(),
{
    lemma_insert_desc_len(s, x);
    if s.len() == 0 {
    } else if s[0].1 >= x.1 {
        lemma_insert_desc_elems(s.drop_first(), x);
        assert forall|j: int| 0 <= j < insert_desc(s, x).len() implies insert_desc(s, x)[j] == x
            || s.contains(insert_desc(s, x)[j]) by {
            if j == 0 {
                assert(s.contains(s[0]));
            } else {
                let r = insert_desc(s.drop_first(), x)[j - 1];
                assert(insert_desc(s, x)[j] == r);
                if r != x {
                    let w = choose|w: int| 0 <= w < s.drop_first().len() && s.drop_first()[w] == r;
                    assert(s[w + 1] == r);
                }
            }
        }
    }
}

proof fn lemma_insert_desc_sorted(s: Seq<(int, int)>, x: (int, int))
    requires
        sorted_desc(s),
    ensures
        sorted_desc(insert_desc(s, x)),
    decreases s.len(),
{
    lemma_insert_desc_len(s, x);
    if s.len() == 0 {
    } else if s[0].1 >= x.1 {
        assert(sorted_desc(s.drop_first()));
        lemma_insert_desc_sorted(s.drop_first(), x);
        lemma_insert_desc_elems(s.drop_first(), x);
        let r = insert_desc(s, x);
        assert forall|p: int, q: int| 0 <= p < q < r.len() implies r[p].1 >= r[q].1 by {
            if p == 0 {
                let e = insert_desc(s.drop_first(), x)[q - 1];
                assert(e == x || s.drop_first().contains(e));
                if e == x {
                } else {
                    let w = choose|w: int|
                        0 <= w < s.drop_first().len() && s.drop_first()[w] == e;
                    assert(s[0].1 >= s[w + 1].1);
                }
            }
        }
    }
}

proof fn lemma_sort_desc_sorted(s: Seq<(int, int)>)
    ensures
        sorted_desc(sort_desc(s)),
    decreases s.len(),
{
    if s.len() > 0 {
        lemma_sort_desc_sorted(s.drop_last());
        lemma_insert_desc_sorted(sort_desc(s.drop_last()), s.last());
    }
}

/// `insert_desc` places `x` exactly at the first position whose score is
/// below `x`'s.
proof fn lemma_insert_desc_at(s: Seq<(int, int)>, x: (int, int), pos: int)
    requires
        0 <= pos <= s.len(),
        forall|q: int| 0 <= q < pos ==> s[q].1 >= x.1,
        pos < s.len() ==> s[pos].1 < x.1,
    ensures
        insert_desc(s, x) == s.insert(pos, x),
    decreases s.len(),
{
    if pos == 0 {
        if s.len() == 0 {
            assert(insert_desc(s, x) =~= s.insert(0, x));
        } else {
            assert(insert_desc(s, x) =~= s.insert(0, x));
        }
    } else {
        assert(s[0].1 >= x.1);
        lemma_insert_desc_at(s.drop_first(), x, pos - 1);
        assert(seq![s[0]] + s.drop_first().insert(pos - 1, x) =~= s.insert(pos, x));
    }
}

proof fn lemma_filter_ge_len(s: Seq<(int, int)>, t: Option<i64>)
    ensures
        filter_ge(s, t).len() <= s.len(),
    decreases s.len(),
{
    if s.len() > 0 {
        lemma_filter_ge_len(s.drop_last(), t);
    }
}

proof fn lemma_filter_ge_all_pass(s: Seq<(int, int)>, t: Option<i64>)
    requires
        forall|j: int| 0 <= j < s.len() ==> pass_threshold(s[j], t),
    ensures
        filter_ge(s, t) == s,
    decreases s.len(),
{
    if s.len() > 0 {
        lemma_filter_ge_all_pass(s.drop_last(), t);
        assert(filter_ge(s, t) =~= s);
    }
}

/// On a descending sequence the surviving pairs form a prefix: the filter
/// equals a `take`.
proof fn lemma_filter_ge_is_take(s: Seq<(int, int)>, t: Option<i64>)
    requires
        sorted_desc(s),
    ensures
        filter_ge(s, t) == s.take(filter_ge(s, t).len() as int),
    decreases s.len(),
{
    lemma_filter_ge_len(s, t);
    if s.len() > 0 {
        let init = s.drop_last();
        assert(sorted_desc(init));
        if pass_threshold(s.last(), t) {
            assert forall|j: int| 0 <= j < s.len() implies pass_threshold(s[j], t) by {
                if j < s.len() - 1 {
                    assert(s[j].1 >= s[s.len() - 1].1);
                }
            }
            lemma_filter_ge_all_pass(s, t);
            assert(filter_ge(s, t) =~= s.take(s.len() as int));
        } else {
            lemma_filter_ge_is_take(init, t);
            lemma_filter_ge_len(init, t);
            let n = filter_ge(init, t).len() as int;
            assert(filter_ge(s, t) == init.take(n));
            assert(init.take(n) =~= s.take(n));
        }
    }
}

/// Raising the threshold never grows the surviving count.
proof fn lemma_filter_ge_len_monotone(s: Seq<(int, int)>, t1: i64, t2: i64)
    requires
        t1 <= t2,
    ensures
        filter_ge(s, Option::Some(t2)).len() <= filter_ge(s, Option::Some(t1)).len(),
    decreases s.len(),
{
    if s.len() > 0 {
        lemma_filter_ge_len_monotone(s.drop_last(), t1, t2);
    }
}

/// Results are at most `top_k` and at most the number of chunks.
pub proof fn lemma_rank_spec_len(chunks: Seq<ChunkView>, q: Seq<i64>, top_k: usize, t: Option<i64>)
    ensures
        rank_spec(chunks, q, top_k, t).len() <= top_k as int,
        rank_spec(chunks, q, top_k, t).len() <= chunks.len(),
    decreases chunks.len(),
{
    let scored = scored_spec(chunks, q);
    lemma_sort_desc_len(scored);
    lemma_filter_ge_len(sort_desc(scored), t);
}

/// Ranking is idempotent: two rankings of the same store, query, cutoff and
/// threshold are the same sequence, ordering and scores included.
pub proof fn lemma_rank_deterministic(
    chunks: Seq<ChunkView>,
    q: Seq<i64>,
    top_k: usize,
    t: Option<i64>,
    r1: Seq<ResultView>,
    r2: Seq<ResultView>,
)
    requires
        r1 == rank_spec(chunks, q, top_k, t),
        r2 == rank_spec(chunks, q, top_k, t),
    ensures
        r1 == r2,
{
}

/// Monotone filtering: with thresholds `t1 <= t2` and the same store, query
/// and cutoff, the `t2` results are a prefix of the `t1` results.
pub proof fn lemma_threshold_monotone(
    chunks: Seq<ChunkView>,
    q: Seq<i64>,
    top_k: usize,
    t1: i64,
    t2: i64,
)
    requires
        t1 <= t2,
    ensures
        rank_spec(chunks, q, top_k, Option::Some(t2)).is_prefix_of(
            rank_spec(chunks, q, top_k, Option::Some(t1)),
        ),
{
    let sorted = sort_desc(scored_spec(chunks, q));
    lemma_sort_desc_sorted(scored_spec(chunks, q));
    lemma_filter_ge_len(sorted, Option::Some(t1));
    lemma_filter_ge_len(sorted, Option::Some(t2));
    lemma_filter_ge_is_take(sorted, Option::Some(t1));
    lemma_filter_ge_is_take(sorted, Option::Some(t2));
    lemma_filter_ge_len_monotone(sorted, t1, t2);
    let r1 = rank_spec(chunks, q, top_k, Option::Some(t1));
    let r2 = rank_spec(chunks, q, top_k, Option::Some(t2));
    assert(r2.len() <= r1.len());
    assert forall|j: int| 0 <= j < r2.len() implies r2[j] == r1[j] by {
        let n1 = filter_ge(sorted, Option::Some(t1)).len() as int;
        let n2 = filter_ge(sorted, Option::Some(t2)).len() as int;
        assert(filter_ge(sorted, Option::Some(t1))[j] == sorted[j]);
        assert(filter_ge(sorted, Option::Some(t2))[j] == sorted[j]);
    }
    assert(r2 =~= r1.take(r2.len() as int));
}

pub open spec fn pair_views(s: Seq<(usize, i64)>) -> Seq<(int, int)> {
    s.map_values(|p: (usize, i64)| (p.0 as int, p.1 as int))
}

/// Scores, sorts, filters and cuts the chunks for one query.
pub fn rank_chunks(
    chunks: &Vec<TextChunk>,
    q: &Vec<i64>,
    top_k: usize,
    threshold: Option<i64>,
) -> (res: Vec<SearchResult>)
    requires
        bounded(q@, EMBED_SCALE as int),
        q@.len() <= MAX_DIM as int,
        forall|j: int|
            0 <= j < chunks@.len() ==> bounded(#[trigger] chunks@[j].embedding@, EMBED_SCALE as int),
    ensures
        res_views(res@) == rank_spec(chunk_views(chunks@), q@, top_k, threshold),
        res@.len() <= top_k,
        res@.len() <= chunks@.len(),
{
    let ghost cviews = chunk_views(chunks@);
    let n = chunks.len();
    let mut scores: Vec<(usize, i64)> = Vec::new();
    let mut i: usize = 0;
    while i < n
        invariant
            i <= n,
            n == chunks@.len(),
            cviews == chunk_views(chunks@),
            bounded(q@, EMBED_SCALE as int),
            q@.len() <= MAX_DIM as int,
            forall|j: int|
                0 <= j < chunks@.len() ==> bounded(
                    #[trigger] chunks@[j].embedding@,
                    EMBED_SCALE as int,
                ),
            pair_views(scores@) =~= scored_spec(cviews, q@).take(i as int),
            scores@.len() == i,
            forall|j: int| 0 <= j < scores@.len() ==> (#[trigger] scores@[j].0) < n,
        decreases n - i,
    {
        let ghost prev = pair_views(scores@);
        let s = dot_product(q, &chunks[i].embedding);
        scores.push((i, s));
        proof {
            assert(pair_views(scores@) =~= prev.push((i as int, s as int)));
            assert(scored_spec(cviews, q@).take(i as int + 1) =~= scored_spec(cviews, q@).take(
                i as int,
            ).push(scored_spec(cviews, q@)[i as int]));
        }
        i = i + 1;
    }
    proof {
        assert(scored_spec(cviews, q@).take(n as int) =~= scored_spec(cviews, q@));
    }
    let ghost spairs = scored_spec(cviews, q@);
    let mut sorted: Vec<(usize, i64)> = Vec::new();
    let mut t: usize = 0;
    while t < n
        invariant
            t <= n,
            n == chunks@.len(),
            scores@.len() == n,
            pair_views(scores@) == spairs,
            pair_views(sorted@) =~= sort_desc(spairs.take(t as int)),
            sorted@.len() == t,
            forall|j: int| 0 <= j < sorted@.len() ==> (#[trigger] sorted@[j].0) < n,
            forall|j: int| 0 <= j < scores@.len() ==> (#[trigger] scores@[j].0) < n,
        decreases n - t,
    {
        let x = scores[t];
        let mut pos: usize = 0;
        while pos < sorted.len() && sorted[pos].1 >= x.1
            invariant
                pos <= sorted@.len(),
                forall|j: int| 0 <= j < pos ==> (#[trigger] sorted@[j].1) >= x.1,
            decreases sorted@.len() - pos,
        {
            pos = pos + 1;
        }
        let ghost prev = pair_views(sorted@);
        sorted.insert(pos, x);
        proof {
            lemma_insert_desc_at(prev, (x.0 as int, x.1 as int), pos as int);
            assert(pair_views(sorted@) =~= prev.insert(pos as int, (x.0 as int, x.1 as int)));
            assert(spairs.take(t as int + 1).drop_last() =~= spairs.take(t as int));
            assert(spairs.take(t as int + 1).last() == spairs[t as int]);
            assert(spairs[t as int] == (x.0 as int, x.1 as int));
        }
        t = t + 1;
    }
    proof {
        assert(spairs.take(n as int) =~= spairs);
    }
    let ghost sortedv = sort_desc(spairs);
    let mut res: Vec<SearchResult> = Vec::new();
    let mut w: usize = 0;
    while w < sorted.len()
        invariant
            w <= sorted@.len(),
            n == chunks@.len(),
            cviews == chunk_views(chunks@),
            pair_views(sorted@) == sortedv,
            forall|j: int| 0 <= j < sorted@.len() ==> (#[trigger] sorted@[j].0) < n,
            res_views(res@) =~= filter_ge(sortedv.take(w as int), threshold).map_values(
                |p: (int, int)| mk_result(cviews, p),
            ),
            res@.len() <= w,
        decreases sorted@.len() - w,
    {
        let (ci, sc) = sorted[w];
        let keep = match threshold {
            Some(tt) => sc >= tt,
            None => true,
        };
        let ghost prevr = res_views(res@);
        if keep {
            let c = &chunks[ci];
            let r = SearchResult {
                doc_id: c.doc_id.clone(),
                content: c.content.clone(),
                sender: crate::models::clone_opt_string(&c.sender),
                date: crate::models::clone_opt_string(&c.date),
                score: sc,
            };
            res.push(r);
            proof {
                assert(res_views(res@) =~= prevr.push(mk_result(cviews, sortedv[w as int])));
            }
        }
        proof {
            assert(sortedv.take(w as int + 1).drop_last() =~= sortedv.take(w as int));
            let f = filter_ge(sortedv.take(w as int + 1), threshold);
            let fi = filter_ge(sortedv.take(w as int), threshold);
            if pass_threshold(sortedv[w as int], threshold) {
                assert(f =~= fi.push(sortedv[w as int]));
                assert(f.map_values(|p: (int, int)| mk_result(cviews, p)) =~= fi.map_values(
                    |p: (int, int)| mk_result(cviews, p),
                ).push(mk_result(cviews, sortedv[w as int])));
            }
        }
        w = w + 1;
    }
    proof {
        assert(sortedv.take(sorted@.len() as int) =~= sortedv);
        lemma_filter_ge_len(sortedv, threshold);
        lemma_sort_desc_len(spairs);
        assert(res_views(res@) =~= filter_ge(sortedv, threshold).map_values(
            |p: (int, int)| mk_result(cviews, p),
        ));
    }
    let ghost pre = res@;
    res.truncate(top_k);
    proof {
        let kept = filter_ge(sortedv, threshold);
        let m = if top_k as int <= kept.len() {
            top_k as int
        } else {
            kept.len() as int
        };
        assert(pre.len() == kept.len());
        assert(res@ =~= pre.take(m));
        assert forall|j: int| 0 <= j < m implies res_views(res@)[j] == rank_spec(
            cviews,
            q@,
            top_k,
            threshold,
        )[j] by {
            assert(res@[j] == pre[j]);
            assert(res_views(pre)[j] == mk_result(cviews, kept[j]));
        }
        assert(res_views(res@) =~= rank_spec(cviews, q@, top_k, threshold));
    }
    res
}

} // verus!
