//! The retrieval engine's verified logic: score filtering, ordering,
//! reciprocal-rank fusion with deduplication, adjacency windows and
//! context stitching.

use vstd::prelude::*;

use vstd::seq_lib::lemma_multiset_commutative;

use crate::types::EmbeddingVectorValue;

verus! {

broadcast use vstd::seq_lib::group_to_multiset_ensures;

/// The id of every row, in order.
pub open spec fn row_ids(s: Seq<EmbeddingVectorValue>) -> Seq<i64> {
    s.map_values(|v: EmbeddingVectorValue| v.id)
}

/// Scores never increase along the sequence.
pub open spec fn sorted_desc(s: Seq<EmbeddingVectorValue>) -> bool {
    forall|i: int, j: int| 0 <= i < j < s.len() ==> s[i].score >= s[j].score
}

/// No two rows share an id.
pub open spec fn distinct_ids(s: Seq<EmbeddingVectorValue>) -> bool {
    forall|i: int, j: int| 0 <= i < j < s.len() ==> s[i].id != s[j].id
}

/// The rows whose score reaches the threshold, in their original order.
pub open spec fn spec_passing(s: Seq<EmbeddingVectorValue>, min_score: int) -> Seq<
    EmbeddingVectorValue,
> {
    s.filter(|v: EmbeddingVectorValue| v.score >= min_score)
}

/// The reciprocal-rank-fusion contribution of a 1-based rank, in millionths:
/// `1 / (rank + 50)`.
pub open spec fn spec_rrf(rank: int) -> int {
    1000000int / (rank + 50)
}

/// The position of the first occurrence of `id`, or `-1`.
pub open spec fn spec_first_index(ids: Seq<i64>, id: i64) -> int
    decreases ids.len(),
{
    if ids.len() == 0 {
        -1
    } else if ids.first() == id {
        0
    } else {
        let r = spec_first_index(ids.drop_first(), id);
        if r == -1 {
            -1
        } else {
            r + 1
        }
    }
}

/// The fused score of a candidate id: the sum of the reciprocal-rank terms
/// of the lists it appears in; a list it is absent from contributes nothing.
pub open spec fn spec_fused_score(sem_ids: Seq<i64>, kw_ids: Seq<i64>, id: i64) -> int {
    (if sem_ids.contains(id) {
        spec_rrf(spec_first_index(sem_ids, id) + 1)
    } else {
        0
    }) + (if kw_ids.contains(id) {
        spec_rrf(spec_first_index(kw_ids, id) + 1)
    } else {
        0
    })
}

/// How many distinct candidates two pools hold together.
pub open spec fn spec_pool_size(sem_ids: Seq<i64>, kw_ids: Seq<i64>) -> int {
    sem_ids.len() + kw_ids.filter(|x: i64| !sem_ids.contains(x)).len() as int
}

/// What `spec_first_index` returns: the first position of `id`, if any.
pub proof fn lemma_first_index(ids: Seq<i64>, id: i64)
    ensures
        spec_first_index(ids, id) == -1 <==> !ids.contains(id),
        spec_first_index(ids, id) != -1 ==> {
            let f = spec_first_index(ids, id);
            &&& 0 <= f < ids.len()
            &&& ids[f] == id
            &&& forall|k: int| 0 <= k < f ==> ids[k] != id
        },
    decreases ids.len(),
{
    if ids.len() == 0 {
        assert(!ids.contains(id));
    } else if ids.first() == id {
        assert(ids.contains(id));
    } else {
        lemma_first_index(ids.drop_first(), id);
        let d = ids.drop_first();
        assert(forall|k: int| 0 <= k < d.len() ==> d[k] == ids[k + 1]);
        if d.contains(id) {
            let w = choose|w: int| 0 <= w < d.len() && d[w] == id;
            assert(ids[w + 1] == id);
            assert(ids.contains(id));
            let fd = spec_first_index(d, id);
            let f = spec_first_index(ids, id);
            assert(f == fd + 1);
            assert(ids[f] == d[fd] == id);
            assert forall|k: int| 0 <= k < f implies ids[k] != id by {
                if k > 0 {
                    assert(d[k - 1] != id);
                }
            }
        } else {
            if ids.contains(id) {
                let w = choose|w: int| 0 <= w < ids.len() && ids[w] == id;
                assert(w != 0);
                assert(d[w - 1] == id);
            }
        }
    }
}

/// The reciprocal-rank-fusion term of a 1-based rank, in millionths.
pub fn rrf_score_micros(rank: u64) -> (r: i64)
    requires
        1 <= rank <= 1000000000,
    ensures
        r == spec_rrf(rank as int),
        0 <= r <= 1000000,
{
    let d: u64 = rank + 50;
    let q: u64 = 1000000 / d;
    proof {
        assert(q <= 1000000) by (nonlinear_arith)
            requires
                d >= 1 && q == 1000000 as int / d as int,
        {}
    }
    q as i64
}

/// The first position holding `id`, scanned left to right.
fn find_first_id(ids: &Vec<i64>, id: i64) -> (r: Option<usize>)
    ensures
        match r {
            Some(k) => k == spec_first_index(ids@, id) && ids@.contains(id),
            None => !ids@.contains(id),
        },
{
    let mut i: usize = 0;
    while i < ids.len()
        invariant
            0 <= i <= ids@.len(),
            forall|k: int| 0 <= k < i ==> ids@[k] != id,
        decreases ids@.len() - i,
    {
        if ids[i] == id {
            proof {
                lemma_first_index(ids@, id);
                assert(ids@.contains(id));
                let f = spec_first_index(ids@, id);
                assert(f != -1);
                assert(f <= i) by {
                    if f > i {
                        assert(ids@[i as int] != id);
                    }
                }
                assert(f >= i);
            }
            return Some(i);
        }
        i = i + 1;
    }
    proof {
        lemma_first_index(ids@, id);
        if ids@.contains(id) {
            let w = choose|w: int| 0 <= w < ids@.len() && ids@[w] == id;
            assert(false);
        }
    }
    None
}

/// The position of a row with the greatest score.
fn find_max_index(v: &Vec<EmbeddingVectorValue>) -> (r: usize)
    requires
        v@.len() > 0,
    ensures
        0 <= r < v@.len(),
        forall|j: int| 0 <= j < v@.len() ==> v@[j].score <= v@[r as int].score,
{
    let mut best: usize = 0;
    let mut j: usize = 1;
    while j < v.len()
        invariant
            0 <= best < v@.len(),
            1 <= j <= v@.len(),
            forall|k: int| 0 <= k < j ==> v@[k].score <= v@[best as int].score,
        decreases v@.len() - j,
    {
        if v[j].score > v[best].score {
            best = j;
        }
        j = j + 1;
    }
    best
}

/// Sorts rows by score, highest first; the result is a permutation of the
/// input.
pub fn sort_rows_desc(rows: Vec<EmbeddingVectorValue>) -> (r: Vec<EmbeddingVectorValue>)
    ensures
        sorted_desc(r@),
        r@.to_multiset() == rows@.to_multiset(),
        r@.len() == rows@.len(),
{
    let ghost orig = rows@;
    let mut src = rows;
    let mut out: Vec<EmbeddingVectorValue> = Vec::new();
    while src.len() > 0
        invariant
            out@.to_multiset().add(src@.to_multiset()) == orig.to_multiset(),
            out@.len() + src@.len() == orig.len(),
            sorted_desc(out@),
            forall|i: int, j: int|
                0 <= i < out@.len() && 0 <= j < src@.len() ==> out@[i].score >= src@[j].score,
        decreases src@.len(),
    {
        let ghost src_before = src@;
        let ghost out_before = out@;
        let m = find_max_index(&src);
        let x = src.remove(m);
        out.push(x);
        proof {
            assert(src@.to_multiset() =~= src_before.to_multiset().remove(x));
            assert(out@.to_multiset() =~= out_before.to_multiset().insert(x));
            assert(out@.to_multiset().add(src@.to_multiset()) =~= orig.to_multiset());
            assert forall|i: int, j: int|
                0 <= i < out@.len() && 0 <= j < src@.len() implies out@[i].score
                >= src@[j].score by {
                assert(src@[j] == if j < m {
                    src_before[j]
                } else {
                    src_before[j + 1]
                });
            }
            assert(sorted_desc(out@));
        }
    }
    proof {
        assert(src@.to_multiset().len() == 0);
        assert(out@.to_multiset() =~= orig.to_multiset());
    }
    out
}

/// Keeps the `limit` best-scoring rows, highest first. Whatever is cut away
/// scores no better than anything kept.
pub fn top_k(pool: Vec<EmbeddingVectorValue>, limit: usize) -> (r: Vec<EmbeddingVectorValue>)
    ensures
        sorted_desc(r@),
        r@.len() == if limit as int <= pool@.len() {
            limit as int
        } else {
            pool@.len() as int
        },
        forall|i: int| 0 <= i < r@.len() ==> pool@.contains(r@[i]),
        exists|rest: Seq<EmbeddingVectorValue>|
            r@.to_multiset().add(rest.to_multiset()) == pool@.to_multiset() && (forall|
                i: int,
                j: int,
            |
                0 <= i < rest.len() && 0 <= j < r@.len() ==> rest[i].score <= r@[j].score),
{
    let ghost pool0 = pool@;
    let sorted = sort_rows_desc(pool);
    let ghost all = sorted@;
    let mut res = sorted;
    res.truncate(limit);
    let ghost kept = res@;
    let ghost rest = if limit as int <= all.len() {
        all.skip(limit as int)
    } else {
        Seq::<EmbeddingVectorValue>::empty()
    };
    proof {
        assert(kept + rest =~= all);
        lemma_multiset_commutative(kept, rest);
        assert(kept.to_multiset().add(rest.to_multiset()) == pool0.to_multiset());
        assert forall|i: int| 0 <= i < kept.len() implies pool0.contains(kept[i]) by {
            assert(all.contains(all[i]));
            assert(pool0.to_multiset().count(all[i]) > 0);
        }
        assert forall|i: int, j: int|
            0 <= i < rest.len() && 0 <= j < kept.len() implies rest[i].score <= kept[j].score by {
            assert(rest[i] == all[kept.len() + i]);
        }
    }
    res
}

/// Semantic-mode post-processing: keep the rows whose similarity reaches
/// `min_score`, order them best first, and cap the count at `limit`. No
/// returned row scores under the threshold, and nothing cut away outscores
/// anything returned.
pub fn filter_by_min_score(
    rows: Vec<EmbeddingVectorValue>,
    min_score: i64,
    limit: usize,
) -> (r: Vec<EmbeddingVectorValue>)
    ensures
        forall|i: int| 0 <= i < r@.len() ==> r@[i].score >= min_score,
        sorted_desc(r@),
        r@.len() == if limit as int <= spec_passing(rows@, min_score as int).len() {
            limit as int
        } else {
            spec_passing(rows@, min_score as int).len() as int
        },
        exists|rest: Seq<EmbeddingVectorValue>|
            r@.to_multiset().add(rest.to_multiset()) == spec_passing(
                rows@,
                min_score as int,
            ).to_multiset() && (forall|i: int, j: int|
                0 <= i < rest.len() && 0 <= j < r@.len() ==> rest[i].score <= r@[j].score),
{
    let ghost orig = rows@;
    let ghost pred = |v: EmbeddingVectorValue| v.score >= min_score as int;
    let mut src = rows;
    let n = src.len();
    let mut keep: Vec<EmbeddingVectorValue> = Vec::new();
    let mut i: usize = 0;
    while src.len() > 0
        invariant
            n == orig.len(),
            i + src@.len() == orig.len(),
            src@ == orig.skip(i as int),
            keep@ == orig.take(i as int).filter(pred),
            pred == (|v: EmbeddingVectorValue| v.score >= min_score as int),
        decreases src@.len(),
    {
        let x = src.remove(0);
        proof {
            assert(x == orig[i as int]);
            assert(orig.take(i + 1) =~= orig.take(i as int).push(orig[i as int]));
            crate::seqtools::lemma_filter_push(orig.take(i as int), pred, orig[i as int]);
            assert(src@ =~= orig.skip(i + 1));
        }
        if x.score >= min_score {
            keep.push(x);
        }
        i = i + 1;
    }
    proof {
        assert(orig.take(orig.len() as int) =~= orig);
        assert(keep@ == spec_passing(orig, min_score as int));
        crate::seqtools::lemma_filter_members(orig, pred);
    }
    let r = top_k(keep, limit);
    proof {
        let kept = keep@;
        assert forall|i2: int| 0 <= i2 < r@.len() implies r@[i2].score >= min_score by {
            assert(kept.contains(r@[i2]));
        }
    }
    r
}

/// Whether the row's chunk, id and metadata come from one of the two
/// candidate lists; only its score may have been replaced.
pub open spec fn from_candidates(
    row: EmbeddingVectorValue,
    sem: Seq<EmbeddingVectorValue>,
    kw: Seq<EmbeddingVectorValue>,
) -> bool {
    (exists|j: int| 0 <= j < sem.len() && payload_eq(row, sem[j])) || (exists|j: int|
        0 <= j < kw.len() && payload_eq(row, kw[j]))
}

/// Whether two rows carry the same chunk, id and metadata; only the score
/// may differ.
pub open spec fn payload_eq(a: EmbeddingVectorValue, b: EmbeddingVectorValue) -> bool {
    &&& a.id == b.id
    &&& a.content_id == b.content_id
    &&& a.content_chunk == b.content_chunk
    &&& a.chunk_number == b.chunk_number
    &&& a.embedding == b.embedding
    &&& a.metadata == b.metadata
    &&& a.created_at == b.created_at
}

/// The ids of the rows, in order.
fn collect_ids(rows: &Vec<EmbeddingVectorValue>) -> (r: Vec<i64>)
    ensures
        r@ == row_ids(rows@),
{
    let mut out: Vec<i64> = Vec::new();
    let mut i: usize = 0;
    while i < rows.len()
        invariant
            0 <= i <= rows@.len(),
            out@ == row_ids(rows@).take(i as int),
        decreases rows@.len() - i,
    {
        out.push(rows[i].id);
        proof {
            assert(out@ =~= row_ids(rows@).take(i + 1));
        }
        i = i + 1;
    }
    proof {
        assert(row_ids(rows@).take(rows@.len() as int) =~= row_ids(rows@));
    }
    out
}

/// Hybrid fusion with deduplication: every candidate id of either ranked
/// list appears at most once, scored by reciprocal-rank fusion over the
/// lists it appears in, ordered best first and capped at `limit`.
pub fn fuse_candidates(
    semantic: Vec<EmbeddingVectorValue>,
    keyword: Vec<EmbeddingVectorValue>,
    limit: usize,
) -> (r: Vec<EmbeddingVectorValue>)
    requires
        distinct_ids(semantic@),
        distinct_ids(keyword@),
        semantic@.len() < 1000000000,
        keyword@.len() < 1000000000,
    ensures
        sorted_desc(r@),
        distinct_ids(r@),
        forall|i: int|
            0 <= i < r@.len() ==> #[trigger] r@[i].score == spec_fused_score(
                row_ids(semantic@),
                row_ids(keyword@),
                r@[i].id,
            ),
        forall|i: int|
            0 <= i < r@.len() ==> from_candidates(#[trigger] r@[i], semantic@, keyword@),
        r@.len() == if limit as int <= spec_pool_size(row_ids(semantic@), row_ids(keyword@)) {
            limit as int
        } else {
            spec_pool_size(row_ids(semantic@), row_ids(keyword@))
        },
{
    let ghost sem0 = semantic@;
    let ghost kw0 = keyword@;
    let ghost sids = row_ids(sem0);
    let ghost kids = row_ids(kw0);
    let ghost away = |x: i64| !sids.contains(x);
    let sem_ids = collect_ids(&semantic);
    let kw_ids = collect_ids(&keyword);
    let mut pool: Vec<EmbeddingVectorValue> = Vec::new();

    let mut src = semantic;
    let ns = src.len();
    let mut i: usize = 0;
    while src.len() > 0
        invariant
            ns == sem0.len(),
            i + src@.len() == sem0.len(),
            src@ == sem0.skip(i as int),
            sem_ids@ == sids && kw_ids@ == kids,
            sids == row_ids(sem0) && kids == row_ids(kw0),
            distinct_ids(sem0) && distinct_ids(kw0),
            sem0.len() < 1000000000 && kw0.len() < 1000000000,
            pool@.len() == i,
            forall|p: int| 0 <= p < i ==> payload_eq(#[trigger] pool@[p], sem0[p]),
            forall|p: int|
                0 <= p < i ==> #[trigger] pool@[p].score == spec_fused_score(
                    sids,
                    kids,
                    pool@[p].id,
                ),
        decreases src@.len(),
    {
        let mut row = src.remove(0);
        proof {
            assert(row == sem0[i as int]);
            assert(src@ =~= sem0.skip(i + 1));
            assert(sids[i as int] == row.id);
            assert(sids.contains(row.id));
            lemma_first_index(sids, row.id);
            let f = spec_first_index(sids, row.id);
            assert(sids[f] == row.id);
            assert(sem0[f].id == sem0[i as int].id);
            assert(f == i);
        }
        let base = rrf_score_micros((i as u64) + 1);
        let score = match find_first_id(&kw_ids, row.id) {
            Some(k) => {
                proof {
                    lemma_first_index(kids, row.id);
                }
                base + rrf_score_micros((k as u64) + 1)
            },
            None => base,
        };
        row.score = score;
        proof {
            assert(row.score == spec_fused_score(sids, kids, row.id));
        }
        pool.push(row);
        i = i + 1;
    }
    proof {
        assert(row_ids(pool@) =~= sids);
        assert(kids.take(0).filter(away) =~= Seq::<i64>::empty());
        assert(row_ids(pool@) =~= sids + kids.take(0).filter(away));
    }

    let mut src2 = keyword;
    let nk = src2.len();
    let mut j: usize = 0;
    while src2.len() > 0
        invariant
            ns == sem0.len() && nk == kw0.len(),
            j + src2@.len() == kw0.len(),
            src2@ == kw0.skip(j as int),
            sem_ids@ == sids && kw_ids@ == kids,
            sids == row_ids(sem0) && kids == row_ids(kw0),
            distinct_ids(sem0) && distinct_ids(kw0),
            sem0.len() < 1000000000 && kw0.len() < 1000000000,
            away == (|x: i64| !sids.contains(x)),
            row_ids(pool@) == sids + kids.take(j as int).filter(away),
            ns <= pool@.len(),
            forall|p: int| 0 <= p < ns ==> payload_eq(#[trigger] pool@[p], sem0[p]),
            forall|p: int|
                ns <= p < pool@.len() ==> exists|q: int|
                    0 <= q < kw0.len() && payload_eq(#[trigger] pool@[p], kw0[q]),
            forall|p: int|
                0 <= p < pool@.len() ==> #[trigger] pool@[p].score == spec_fused_score(
                    sids,
                    kids,
                    pool@[p].id,
                ),
        decreases src2@.len(),
    {
        let ghost pool_before = pool@;
        let mut row = src2.remove(0);
        proof {
            assert(row == kw0[j as int]);
            assert(src2@ =~= kw0.skip(j + 1));
            assert(kids[j as int] == row.id);
            assert(kids.take(j + 1) =~= kids.take(j as int).push(row.id));
            crate::seqtools::lemma_filter_push(kids.take(j as int), away, row.id);
        }
        match find_first_id(&sem_ids, row.id) {
            Some(_) => {
                proof {
                    assert(!away(row.id));
                    assert(row_ids(pool@) == sids + kids.take(j + 1).filter(away));
                }
            },
            None => {
                proof {
                    assert(away(row.id));
                    assert(kids.contains(row.id));
                    lemma_first_index(kids, row.id);
                    let f = spec_first_index(kids, row.id);
                    assert(kids[f] == row.id);
                    assert(kw0[f].id == kw0[j as int].id);
                    assert(f == j);
                }
                row.score = rrf_score_micros((j as u64) + 1);
                proof {
                    assert(row.score == spec_fused_score(sids, kids, row.id));
                }
                pool.push(row);
                proof {
                    assert(row_ids(pool@) =~= row_ids(pool_before).push(row.id));
                    assert(row_ids(pool@) =~= sids + kids.take(j + 1).filter(away));
                    assert(payload_eq(pool@[pool@.len() - 1], kw0[j as int]));
                }
            },
        }
        j = j + 1;
    }
    proof {
        assert(kids.take(kw0.len() as int) =~= kids);
        assert(row_ids(pool@) == sids + kids.filter(away));
        lemma_pool_distinct(pool@, sids, kids, away);
    }
    let ghost pool0 = pool@;
    let r = top_k(pool, limit);
    proof {
        assert forall|i2: int|
            0 <= i2 < r@.len() implies #[trigger] r@[i2].score == spec_fused_score(
            sids,
            kids,
            r@[i2].id,
        ) by {
            assert(pool0.contains(r@[i2]));
            let p = choose|p: int| 0 <= p < pool0.len() && pool0[p] == r@[i2];
            assert(pool0[p].score == spec_fused_score(sids, kids, pool0[p].id));
        }
        // Deduplication: the result keeps at most one row per id.
        let rest = choose|rest: Seq<EmbeddingVectorValue>|
            r@.to_multiset().add(rest.to_multiset()) == pool0.to_multiset() && (forall|
                a: int,
                b: int,
            |
                0 <= a < rest.len() && 0 <= b < r@.len() ==> rest[a].score <= r@[b].score);
        assert(pool0.no_duplicates()) by {
            assert forall|a: int, b: int|
                0 <= a < pool0.len() && 0 <= b < pool0.len() && a != b implies pool0[a]
                != pool0[b] by {
                assert(row_ids(pool0)[a] == pool0[a].id);
                assert(row_ids(pool0)[b] == pool0[b].id);
            }
        }
        pool0.lemma_multiset_has_no_duplicates();
        assert forall|x: EmbeddingVectorValue| #[trigger]
            r@.to_multiset().count(x) <= pool0.to_multiset().count(x) by {}
        r@.lemma_multiset_has_no_duplicates_conv();
        assert forall|a: int, b: int|
            0 <= a < b < r@.len() implies r@[a].id != r@[b].id by {
            if r@[a].id == r@[b].id {
                assert(r@[a] != r@[b]);
                assert(pool0.contains(r@[a]) && pool0.contains(r@[b]));
                let pa = choose|p: int| 0 <= p < pool0.len() && pool0[p] == r@[a];
                let pb = choose|p: int| 0 <= p < pool0.len() && pool0[p] == r@[b];
                assert(pa != pb);
                assert(row_ids(pool0)[pa] == row_ids(pool0)[pb]);
                lemma_ids_distinct(pool0, sids, kids, away);
            }
        }
        assert(spec_pool_size(sids, kids) == pool0.len());
        assert forall|i2: int|
            0 <= i2 < r@.len() implies from_candidates(#[trigger] r@[i2], sem0, kw0) by {
            assert(pool0.contains(r@[i2]));
            let p = choose|p: int| 0 <= p < pool0.len() && pool0[p] == r@[i2];
            if p < ns {
                assert(payload_eq(r@[i2], sem0[p]));
            } else {
                let q = choose|q: int| 0 <= q < kw0.len() && payload_eq(pool0[p], kw0[q]);
                assert(payload_eq(r@[i2], kw0[q]));
            }
        }
    }
    r
}

/// A character a full-text search term keeps: an ASCII letter or digit.
pub open spec fn is_search_char(c: char) -> bool {
    ('a' <= c && c <= 'z') || ('A' <= c && c <= 'Z') || ('0' <= c && c <= '9')
}

/// One tokenizer step over `(expression so far, inside a term)`: a search
/// character extends the current term, opening a new one — after the AND
/// connective, when terms precede — if none is open; whitespace closes the
/// term; any other character is dropped without closing it.
pub open spec fn spec_kw_step(acc: (Seq<char>, bool), c: char) -> (Seq<char>, bool) {
    if is_search_char(c) {
        (
            acc.0 + (if !acc.1 && acc.0.len() > 0 {
                " & "@
            } else {
                Seq::<char>::empty()
            }) + seq![c],
            true,
        )
    } else if crate::text_splitter::is_wsp(c) {
        (acc.0, false)
    } else {
        acc
    }
}

pub open spec fn spec_kw_fold(s: Seq<char>) -> (Seq<char>, bool)
    decreases s.len(),
{
    if s.len() == 0 {
        (Seq::<char>::empty(), false)
    } else {
        spec_kw_step(spec_kw_fold(s.drop_last()), s.last())
    }
}

/// The full-text search expression of a query: its words, each stripped to
/// ASCII letters and digits, joined with the AND connective.
pub open spec fn spec_keyword_expression(s: Seq<char>) -> Seq<char> {
    spec_kw_fold(s).0
}

/// Tokenizes a query into the full-text search expression the keyword
/// statement binds: terms of letters and digits joined by `&`, safe to hand
/// to the store's search-expression parser.
pub fn keyword_query_expression(query: &str) -> (r: String)
    ensures
        r@ == spec_keyword_expression(query@),
{
    let n = query.unicode_len();
    let mut out = String::new();
    let mut in_term = false;
    let mut i: usize = 0;
    while i < n
        invariant
            n == query@.len(),
            0 <= i <= n,
            (out@, in_term) == spec_kw_fold(query@.take(i as int)),
        decreases n - i,
    {
        proof {
            reveal_strlit(" & ");
        }
        let ghost prev = spec_kw_fold(query@.take(i as int));
        let c = query.get_char(i);
        if (('a' <= c && c <= 'z') || ('A' <= c && c <= 'Z')) || ('0' <= c && c <= '9') {
            if !in_term && !out.as_str().is_empty() {
                out = out.concat(" & ");
            }
            let piece = query.substring_char(i, i + 1);
            out = out.concat(piece);
            in_term = true;
            proof {
                assert(piece@ =~= seq![c]);
                assert(out@ =~= prev.0 + (if !prev.1 && prev.0.len() > 0 {
                    " & "@
                } else {
                    Seq::<char>::empty()
                }) + seq![c]);
            }
        } else if crate::text_splitter::is_wsp_char(c) {
            in_term = false;
        }
        proof {
            assert(query@.take(i + 1).drop_last() =~= query@.take(i as int));
            assert(query@.take(i + 1).last() == c);
            assert((out@, in_term) == spec_kw_step(prev, c));
        }
        i = i + 1;
    }
    proof {
        assert(query@.take(n as int) =~= query@);
    }
    out
}

/// The chunk-number window fetched around a hit: `upper` chunks before and
/// `lower` chunks after, with `upper` capped at the hit's own chunk number
/// so the window's lower edge never drops below zero.
pub fn adjacency_window(chunk_number: i32, upper: i32, lower: i32) -> (r: (i32, i32))
    requires
        chunk_number >= 0,
        upper >= 0,
        lower >= 0,
        chunk_number + lower <= i32::MAX,
    ensures
        r.0 == chunk_number - (if upper > chunk_number {
            chunk_number as int
        } else {
            upper as int
        }),
        r.1 == chunk_number + lower,
        0 <= r.0 <= chunk_number <= r.1,
{
    let capped = if upper > chunk_number {
        chunk_number
    } else {
        upper
    };
    (chunk_number - capped, chunk_number + lower)
}

/// The chunk text of every row, in order.
pub open spec fn chunk_texts(rows: Seq<EmbeddingVectorValue>) -> Seq<Seq<char>> {
    rows.map_values(|v: EmbeddingVectorValue| v.content_chunk@)
}

/// The stitched context: each chunk followed by one space, in order.
pub open spec fn spec_stitched(contents: Seq<Seq<char>>) -> Seq<char>
    decreases contents.len(),
{
    if contents.len() == 0 {
        Seq::<char>::empty()
    } else {
        spec_stitched(contents.drop_last()) + contents.last() + seq![' ']
    }
}

/// Concatenates the adjacent chunks, space-separated, into one context
/// string.
pub fn stitch_chunks(rows: &Vec<EmbeddingVectorValue>) -> (r: String)
    ensures
        r@ == spec_stitched(chunk_texts(rows@)),
{
    proof {
        reveal_strlit(" ");
    }
    let mut out = String::new();
    let mut i: usize = 0;
    while i < rows.len()
        invariant
            0 <= i <= rows@.len(),
            out@ == spec_stitched(chunk_texts(rows@).take(i as int)),
        decreases rows@.len() - i,
    {
        proof {
            reveal_strlit(" ");
        }
        let piece = out.concat(rows[i].content_chunk.as_str());
        out = piece.concat(" ");
        proof {
            let ct = chunk_texts(rows@);
            assert(ct.take(i + 1).drop_last() =~= ct.take(i as int));
            assert(ct.take(i + 1).last() == ct[i as int]);
            assert(out@ =~= spec_stitched(ct.take(i + 1)));
        }
        i = i + 1;
    }
    proof {
        assert(chunk_texts(rows@).take(rows@.len() as int) =~= chunk_texts(rows@));
    }
    out
}

/// A ranked, context-expanded passage handed back to the transport layer;
/// never persisted.
pub struct RetrievedPassage {
    pub content_id: String,
    pub chunk_number: i32,
    pub content: String,
    pub stitched_content: String,
    pub embedding: crate::types::Embedding,
    pub metadata: crate::types::Metadata,
    pub score: i64,
}

/// Builds the passage for one hit: the hit's own chunk, embedding and
/// score, and the space-joined text of its adjacent chunks as stitched
/// context.
pub fn expand_hit(
    hit: &EmbeddingVectorValue,
    related: &Vec<EmbeddingVectorValue>,
) -> (r: RetrievedPassage)
    ensures
        r.content_id == hit.content_id,
        r.chunk_number == hit.chunk_number,
        r.content == hit.content_chunk,
        r.stitched_content@ == spec_stitched(chunk_texts(related@)),
        r.embedding@ == hit.embedding@,
        r.metadata == hit.metadata,
        r.score == hit.score,
{
    RetrievedPassage {
        content_id: hit.content_id.clone(),
        chunk_number: hit.chunk_number,
        content: hit.content_chunk.clone(),
        stitched_content: stitch_chunks(related),
        embedding: hit.embedding.duplicate(),
        metadata: hit.metadata.duplicate(),
        score: hit.score,
    }
}

/// The three retrieval strategies.
#[derive(Clone, Copy, Debug, PartialEq, Eq, Structural)]
pub enum SearchMode {
    Semantic,
    Keyword,
    Hybrid,
}

/// The ids of the fused pool are pairwise distinct: the semantic ids were
/// distinct, the appended keyword ids were filtered against them and kept
/// their own distinctness.
proof fn lemma_ids_distinct(
    pool: Seq<EmbeddingVectorValue>,
    sids: Seq<i64>,
    kids: Seq<i64>,
    away: spec_fn(i64) -> bool,
)
    requires
        row_ids(pool) == sids + kids.filter(away),
        sids.no_duplicates(),
        kids.no_duplicates(),
        away == (|x: i64| !sids.contains(x)),
    ensures
        row_ids(pool).no_duplicates(),
{
    let f = kids.filter(away);
    crate::seqtools::lemma_filter_no_duplicates(kids, away);
    crate::seqtools::lemma_filter_members(kids, away);
    let ids = row_ids(pool);
    assert forall|a: int, b: int|
        0 <= a < ids.len() && 0 <= b < ids.len() && a != b implies ids[a] != ids[b] by {
        if a < sids.len() && b < sids.len() {
        } else if a >= sids.len() && b >= sids.len() {
            assert(ids[a] == f[a - sids.len()]);
            assert(ids[b] == f[b - sids.len()]);
        } else {
            let lo = if a < sids.len() {
                a
            } else {
                b
            };
            let hi = if a < sids.len() {
                b
            } else {
                a
            };
            assert(ids[lo] == sids[lo]);
            assert(sids.contains(sids[lo]));
            assert(ids[hi] == f[hi - sids.len()]);
            assert(away(f[hi - sids.len()]));
        }
    }
}

proof fn lemma_pool_distinct(
    pool: Seq<EmbeddingVectorValue>,
    sids: Seq<i64>,
    kids: Seq<i64>,
    away: spec_fn(i64) -> bool,
)
    requires
        row_ids(pool) == sids + kids.filter(away),
        sids.no_duplicates(),
        kids.no_duplicates(),
        away == (|x: i64| !sids.contains(x)),
    ensures
        distinct_ids(pool),
{
    lemma_ids_distinct(pool, sids, kids, away);
    let ids = row_ids(pool);
    assert forall|a: int, b: int|
        0 <= a < b < pool.len() implies pool[a].id != pool[b].id by {
        assert(ids[a] == pool[a].id && ids[b] == pool[b].id);
    }
}

} // verus!
