//! Picking the card that the most descriptor matches of a camera frame
//! point at: matches are grouped by the card image they hit, each image gets
//! a score, and a keyed priority queue hands out the best one.

use vstd::prelude::*;
use keyed_priority_queue::KeyedPriorityQueue;
use std::collections::hash_map::RandomState;
use std::hash::{BuildHasher, Hash};

verus! {

/// `keyed_priority_queue::KeyedPriorityQueue`, declared to Verus as an opaque
/// type; what it holds is spoken of through `queue_entries`.
#[verifier::external_type_specification]
#[verifier::external_body]
#[verifier::reject_recursive_types(TKey)]
#[verifier::reject_recursive_types(TPriority)]
#[verifier::reject_recursive_types(S)]
pub struct ExKeyedPriorityQueue<TKey, TPriority, S = RandomState>(
    KeyedPriorityQueue<TKey, TPriority, S>,
) where TKey: Hash + Eq, TPriority: Ord, S: BuildHasher;

/// The keys in a queue, each with its current priority.
pub uninterp spec fn queue_entries(q: KeyedPriorityQueue<i32, u64>) -> Map<i32, u64>;

/// `KeyedPriorityQueue::new`: a queue with no entries.
#[verifier::external_body]
fn queue_new() -> (q: KeyedPriorityQueue<i32, u64>)
    ensures
        queue_entries(q).dom() =~= Set::<i32>::empty(),
{
    KeyedPriorityQueue::new()
}

/// `KeyedPriorityQueue::push`: adds the key with the priority, or replaces the
/// priority of a key already present and returns the one it had.
#[verifier::external_body]
fn queue_push(q: &mut KeyedPriorityQueue<i32, u64>, key: i32, priority: u64) -> (previous: Option<
    u64,
>)
    ensures
        queue_entries(*final(q)) == queue_entries(*old(q)).insert(key, priority),
        previous == (if queue_entries(*old(q)).contains_key(key) {
            Some(queue_entries(*old(q))[key])
        } else {
            None
        }),
{
    q.push(key, priority)
}

/// `KeyedPriorityQueue::pop`: removes and returns an entry of maximal
/// priority, or `None` when the queue is empty. Which of several entries of
/// equal maximal priority comes out is left open.
#[verifier::external_body]
fn queue_pop(q: &mut KeyedPriorityQueue<i32, u64>) -> (top: Option<(i32, u64)>)
    ensures
        top is None <==> queue_entries(*old(q)).dom() =~= Set::<i32>::empty(),
        top is None ==> queue_entries(*final(q)) == queue_entries(*old(q)),
        top matches Some((k, p)) ==> {
            &&& queue_entries(*old(q)).contains_key(k)
            &&& queue_entries(*old(q))[k] == p
            &&& forall|k2: i32| #[trigger]
                queue_entries(*old(q)).contains_key(k2) ==> queue_entries(*old(q))[k2] <= p
            &&& queue_entries(*final(q)) == queue_entries(*old(q)).remove(k)
        },
{
    q.pop()
}

/// The priority each image ends up with after pushing the scores in order:
/// a later score for the same image replaces an earlier one.
pub open spec fn scores_map(scores: Seq<(i32, u64)>) -> Map<i32, u64>
    decreases scores.len(),
{
    if scores.len() == 0 {
        Map::empty()
    } else {
        scores_map(scores.drop_last()).insert(scores.last().0, scores.last().1)
    }
}

proof fn lemma_scores_map(scores: Seq<(i32, u64)>)
    ensures
        scores.len() == 0 <==> scores_map(scores).dom() =~= Set::<i32>::empty(),
        forall|k: i32| #[trigger]
            scores_map(scores).contains_key(k) ==> exists|i: int|
                0 <= i < scores.len() && scores[i] == (k, scores_map(scores)[k]),
    decreases scores.len(),
{
    if scores.len() > 0 {
        let prev = scores.drop_last();
        lemma_scores_map(prev);
        let last = scores.last();
        assert(scores_map(scores).contains_key(last.0));
        assert forall|k: i32| #[trigger]
            scores_map(scores).contains_key(k) implies exists|i: int|
                0 <= i < scores.len() && scores[i] == (k, scores_map(scores)[k]) by {
            if k == last.0 {
                assert(scores[scores.len() - 1] == (k, scores_map(scores)[k]));
            } else {
                let i = choose|i: int| 0 <= i < prev.len() && prev[i] == (k, scores_map(prev)[k]);
                assert(scores[i] == prev[i]);
            }
        }
    }
}

/// No image has two scores.
pub open spec fn keys_distinct(scores: Seq<(i32, u64)>) -> bool {
    forall|i: int, j: int| 0 <= i < j < scores.len() ==> (#[trigger] scores[i]).0 != (#[trigger] scores[j]).0
}

proof fn lemma_scores_map_distinct(scores: Seq<(i32, u64)>)
    requires
        keys_distinct(scores),
    ensures
        forall|i: int|
            0 <= i < scores.len() ==> scores_map(scores).contains_key((#[trigger] scores[i]).0)
                && scores_map(scores)[scores[i].0] == scores[i].1,
    decreases scores.len(),
{
    if scores.len() > 0 {
        let prev = scores.drop_last();
        assert forall|i: int, j: int| 0 <= i < j < prev.len() implies (#[trigger] prev[i]).0 != (#[trigger] prev[j]).0 by {
            assert(prev[i] == scores[i] && prev[j] == scores[j]);
        }
        lemma_scores_map_distinct(prev);
        assert forall|i: int|
            0 <= i < scores.len() implies scores_map(scores).contains_key((#[trigger] scores[i]).0)
                && scores_map(scores)[scores[i].0] == scores[i].1 by {
            if i < scores.len() - 1 {
                assert(prev[i] == scores[i]);
                assert(scores[i].0 != scores[scores.len() - 1].0);
            }
        }
    }
}

/// The image with the highest score, with that score: `None` only when
/// there are no scores. The returned pair is one of the scores, and no
/// image's final score exceeds it.
pub fn best_match(scores: &Vec<(i32, u64)>) -> (top: Option<(i32, u64)>)
    ensures
        top is None <==> scores@.len() == 0,
        top matches Some((k, p)) ==> {
            &&& scores_map(scores@).contains_key(k)
            &&& scores_map(scores@)[k] == p
            &&& exists|i: int| 0 <= i < scores@.len() && scores@[i] == (k, p)
            &&& forall|k2: i32| #[trigger]
                scores_map(scores@).contains_key(k2) ==> scores_map(scores@)[k2] <= p
            &&& keys_distinct(scores@) ==> forall|i: int|
                0 <= i < scores@.len() ==> (#[trigger] scores@[i]).1 <= p
        },
{
    let mut q = queue_new();
    let n = scores.len();
    let mut i: usize = 0;
    while i < n
        invariant
            n == scores@.len(),
            i <= n,
            queue_entries(q) == scores_map(scores@.subrange(0, i as int)),
        decreases n - i,
    {
        let (k, p) = scores[i];
        queue_push(&mut q, k, p);
        assert(scores@.subrange(0, i + 1).drop_last() =~= scores@.subrange(0, i as int));
        i = i + 1;
    }
    assert(scores@.subrange(0, n as int) =~= scores@);
    proof {
        lemma_scores_map(scores@);
        if keys_distinct(scores@) {
            lemma_scores_map_distinct(scores@);
        }
    }
    let top = queue_pop(&mut q);
    proof {
        if keys_distinct(scores@) {
            if let Some((k, p)) = top {
                assert forall|i: int| 0 <= i < scores@.len() implies (#[trigger] scores@[i]).1 <= p by {
                    assert(scores_map(scores@).contains_key(scores@[i].0));
                }
            }
        }
    }
    top
}


proof fn lemma_lists_hits_contains(m: Seq<Vec<i32>>, img: i32, r: Seq<(usize, usize)>)
    requires
        lists_hits(m, img, r),
    ensures
        forall|p: (usize, usize)|
            #[trigger] r.contains(p) <==> (p.0 < m.len() && p.1 < m[p.0 as int]@.len()
                && m[p.0 as int]@[p.1 as int] == img),
{
    assert forall|p: (usize, usize)|
        #[trigger] r.contains(p) implies (p.0 < m.len() && p.1 < m[p.0 as int]@.len()
            && m[p.0 as int]@[p.1 as int] == img) by {
        let k = choose|k: int| 0 <= k < r.len() && r[k] == p;
        assert(is_hit(m, img, r[k]));
    }
    assert forall|p: (usize, usize)|
        (p.0 < m.len() && p.1 < m[p.0 as int]@.len() && m[p.0 as int]@[p.1 as int] == img) implies
        #[trigger] r.contains(p) by {
        assert(is_hit(m, img, p));
    }
}

/// Row-major order of match positions `(query, neighbour)`.
pub open spec fn pos_before(a: (usize, usize), b: (usize, usize)) -> bool {
    a.0 < b.0 || (a.0 == b.0 && a.1 < b.1)
}

/// The match at position `p` of the match table hits image `img`.
pub open spec fn is_hit(m: Seq<Vec<i32>>, img: i32, p: (usize, usize)) -> bool {
    p.0 < m.len() && p.1 < m[p.0 as int]@.len() && m[p.0 as int]@[p.1 as int] == img
}

/// `r` lists exactly the positions of the table that hit `img`, in
/// row-major order.
pub open spec fn lists_hits(m: Seq<Vec<i32>>, img: i32, r: Seq<(usize, usize)>) -> bool {
    &&& forall|k: int| 0 <= k < r.len() ==> is_hit(m, img, #[trigger] r[k])
    &&& forall|k1: int, k2: int|
        0 <= k1 < k2 < r.len() ==> pos_before(#[trigger] r[k1], #[trigger] r[k2])
    &&& forall|p: (usize, usize)| #[trigger] is_hit(m, img, p) ==> r.contains(p)
}

/// The positions of the matches that hit image `img`, row by row: for each
/// query descriptor (a row of the table), its neighbours (the row's
/// entries) whose image index is `img`.
pub fn image_matches(img_idxs: &Vec<Vec<i32>>, img: i32) -> (r: Vec<(usize, usize)>)
    ensures
        lists_hits(img_idxs@, img, r@),
        forall|p: (usize, usize)|
            #[trigger] r@.contains(p) <==> (p.0 < img_idxs@.len() && p.1 < img_idxs@[p.0 as int]@.len()
                && img_idxs@[p.0 as int]@[p.1 as int] == img),
        forall|k: int|
            0 <= k < r@.len() - 1 ==> (#[trigger] r@[k]).0 < r@[k + 1].0 || (r@[k].0 == r@[k + 1].0
                && r@[k].1 < r@[k + 1].1),
{
    let r = image_matches_rows(img_idxs, img);
    proof {
        assert forall|p: (usize, usize)|
            #[trigger] r@.contains(p) implies (p.0 < img_idxs@.len() && p.1 < img_idxs@[p.0 as int]@.len()
                && img_idxs@[p.0 as int]@[p.1 as int] == img) by {
            let k = choose|k: int| 0 <= k < r@.len() && r@[k] == p;
            assert(is_hit(img_idxs@, img, r@[k]));
        }
        assert forall|p: (usize, usize)|
            (p.0 < img_idxs@.len() && p.1 < img_idxs@[p.0 as int]@.len()
                && img_idxs@[p.0 as int]@[p.1 as int] == img) implies #[trigger] r@.contains(p) by {
            assert(is_hit(img_idxs@, img, p));
        }
        assert forall|k: int| 0 <= k < r@.len() - 1 implies (#[trigger] r@[k]).0 < r@[k + 1].0 || (r@[k].0
            == r@[k + 1].0 && r@[k].1 < r@[k + 1].1) by {
            assert(pos_before(r@[k], r@[k + 1]));
        }
    }
    r
}

fn image_matches_rows(img_idxs: &Vec<Vec<i32>>, img: i32) -> (r: Vec<(usize, usize)>)
    ensures
        lists_hits(img_idxs@, img, r@),
{
    let ghost m = img_idxs@;
    let n = img_idxs.len();
    let mut r: Vec<(usize, usize)> = Vec::new();
    let mut i: usize = 0;
    while i < n
        invariant
            m == img_idxs@,
            n == m.len(),
            i <= n,
            forall|k: int| 0 <= k < r@.len() ==> is_hit(m, img, #[trigger] r@[k]),
            forall|k: int| 0 <= k < r@.len() ==> (#[trigger] r@[k]).0 < i,
            forall|k1: int, k2: int|
                0 <= k1 < k2 < r@.len() ==> pos_before(#[trigger] r@[k1], #[trigger] r@[k2]),
            forall|p: (usize, usize)| #[trigger] is_hit(m, img, p) && p.0 < i ==> r@.contains(p),
        decreases n - i,
    {
        let row = &img_idxs[i];
        let w = row.len();
        let mut j: usize = 0;
        while j < w
            invariant
                m == img_idxs@,
                n == m.len(),
                i < n,
                row@ == m[i as int]@,
                w == row@.len(),
                j <= w,
                forall|k: int| 0 <= k < r@.len() ==> is_hit(m, img, #[trigger] r@[k]),
                forall|k: int|
                    0 <= k < r@.len() ==> pos_before(#[trigger] r@[k], (i, j)),
                forall|k1: int, k2: int|
                    0 <= k1 < k2 < r@.len() ==> pos_before(#[trigger] r@[k1], #[trigger] r@[k2]),
                forall|p: (usize, usize)| #[trigger]
                    is_hit(m, img, p) && (p.0 < i || (p.0 == i && p.1 < j)) ==> r@.contains(p),
            decreases w - j,
        {
            if row[j] == img {
                let ghost before = r@;
                r.push((i, j));
                assert(r@[r@.len() - 1] == (i, j));
                assert forall|p: (usize, usize)| #[trigger]
                    is_hit(m, img, p) && (p.0 < i || (p.0 == i && p.1 < j + 1)) implies r@.contains(
                    p,
                ) by {
                    if p == (i, j) {
                        assert(r@[r@.len() - 1] == p);
                    } else {
                        assert(before.contains(p));
                        let k = choose|k: int| 0 <= k < before.len() && before[k] == p;
                        assert(r@[k] == p);
                    }
                }
            } else {
                assert forall|p: (usize, usize)| #[trigger]
                    is_hit(m, img, p) && (p.0 < i || (p.0 == i && p.1 < j + 1)) implies r@.contains(
                    p,
                ) by {
                    if p == (i, j) {
                        assert(m[i as int]@[j as int] != img);
                    }
                }
            }
            j = j + 1;
        }
        i = i + 1;
    }
    r
}


fn has_group(groups: &Vec<(i32, Vec<(usize, usize)>)>, img: i32) -> (b: bool)
    ensures
        b == exists|a: int| 0 <= a < groups@.len() && (#[trigger] groups@[a]).0 == img,
{
    let n = groups.len();
    let mut a: usize = 0;
    while a < n
        invariant
            n == groups@.len(),
            a <= n,
            forall|c: int| 0 <= c < a ==> (#[trigger] groups@[c]).0 != img,
        decreases n - a,
    {
        if groups[a].0 == img {
            assert(groups@[a as int].0 == img);
            return true;
        }
        a = a + 1;
    }
    false
}

/// The matches of the table grouped by the image they hit: one group per
/// image index that occurs, each listing that image's match positions in
/// row-major order. Groups come in the order in which their image first
/// occurs.
pub fn group_by_image(img_idxs: &Vec<Vec<i32>>) -> (groups: Vec<(i32, Vec<(usize, usize)>)>)
    ensures
        forall|a: int, b: int|
            0 <= a < b < groups@.len() ==> (#[trigger] groups@[a]).0 != (#[trigger] groups@[b]).0,
        forall|a: int|
            0 <= a < groups@.len() ==> lists_hits(
                img_idxs@,
                (#[trigger] groups@[a]).0,
                groups@[a].1@,
            ) && groups@[a].1@.len() > 0,
        forall|p: (usize, usize)|
            p.0 < img_idxs@.len() && p.1 < img_idxs@[p.0 as int]@.len() ==> exists|a: int|
                0 <= a < groups@.len() && (#[trigger] groups@[a]).0 == img_idxs@[p.0 as int]@[p.1 as int],
        forall|a: int, p: (usize, usize)|
            0 <= a < groups@.len() ==> (#[trigger] groups@[a].1@.contains(p) <==> (p.0 < img_idxs@.len()
                && p.1 < img_idxs@[p.0 as int]@.len() && img_idxs@[p.0 as int]@[p.1 as int]
                == groups@[a].0)),
{
    let ghost m = img_idxs@;
    let n = img_idxs.len();
    let mut groups: Vec<(i32, Vec<(usize, usize)>)> = Vec::new();
    let mut i: usize = 0;
    while i < n
        invariant
            m == img_idxs@,
            n == m.len(),
            i <= n,
            forall|a: int, b: int|
                0 <= a < b < groups@.len() ==> (#[trigger] groups@[a]).0 != (#[trigger] groups@[b]).0,
            forall|a: int|
                0 <= a < groups@.len() ==> lists_hits(m, (#[trigger] groups@[a]).0, groups@[a].1@)
                    && groups@[a].1@.len() > 0,
            forall|p: (usize, usize)|
                p.0 < i && p.1 < m[p.0 as int]@.len() ==> exists|a: int|
                    0 <= a < groups@.len() && (#[trigger] groups@[a]).0 == m[p.0 as int]@[p.1 as int],
        decreases n - i,
    {
        let w = img_idxs[i].len();
        let mut j: usize = 0;
        while j < w
            invariant
                m == img_idxs@,
                n == m.len(),
                i < n,
                w == m[i as int]@.len(),
                j <= w,
                forall|a: int, b: int|
                    0 <= a < b < groups@.len() ==> (#[trigger] groups@[a]).0 != (#[trigger] groups@[b]).0,
                forall|a: int|
                    0 <= a < groups@.len() ==> lists_hits(m, (#[trigger] groups@[a]).0, groups@[a].1@)
                        && groups@[a].1@.len() > 0,
                forall|p: (usize, usize)|
                    (p.0 < i || (p.0 == i && p.1 < j)) && p.1 < m[p.0 as int]@.len() ==> exists|a: int|
                        0 <= a < groups@.len() && (#[trigger] groups@[a]).0 == m[p.0 as int]@[p.1 as int],
            decreases w - j,
        {
            let v = img_idxs[i][j];
            let ghost before = groups@;
            if !has_group(&groups, v) {
                let hits = image_matches_rows(img_idxs, v);
                assert(is_hit(m, v, (i, j)));
                assert(hits@.contains((i, j)));
                groups.push((v, hits));
                assert(groups@[groups@.len() - 1].0 == v);
                assert forall|a: int|
                    0 <= a < groups@.len() implies lists_hits(m, (#[trigger] groups@[a]).0, groups@[a].1@)
                        && groups@[a].1@.len() > 0 by {
                    if a < before.len() {
                        assert(groups@[a] == before[a]);
                    }
                }
                assert forall|p: (usize, usize)|
                    (p.0 < i || (p.0 == i && p.1 < j + 1)) && p.1 < m[p.0 as int]@.len() implies exists|a: int|
                        0 <= a < groups@.len() && (#[trigger] groups@[a]).0 == m[p.0 as int]@[p.1 as int] by {
                    if p.0 == i && p.1 == j {
                        assert(groups@[groups@.len() - 1].0 == m[p.0 as int]@[p.1 as int]);
                    } else {
                        let a = choose|a: int|
                            0 <= a < before.len() && (#[trigger] before[a]).0 == m[p.0 as int]@[p.1 as int];
                        assert(groups@[a] == before[a]);
                    }
                }
            }
            j = j + 1;
        }
        i = i + 1;
    }
    proof {
        assert forall|a: int, p: (usize, usize)|
            0 <= a < groups@.len() implies (#[trigger] groups@[a].1@.contains(p) <==> (p.0 < img_idxs@.len()
                && p.1 < img_idxs@[p.0 as int]@.len() && img_idxs@[p.0 as int]@[p.1 as int]
                == groups@[a].0)) by {
            lemma_lists_hits_contains(m, groups@[a].0, groups@[a].1@);
        }
    }
    groups
}


proof fn lemma_sorted_unique(r1: Seq<(usize, usize)>, r2: Seq<(usize, usize)>)
    requires
        forall|k1: int, k2: int|
            0 <= k1 < k2 < r1.len() ==> pos_before(#[trigger] r1[k1], #[trigger] r1[k2]),
        forall|k1: int, k2: int|
            0 <= k1 < k2 < r2.len() ==> pos_before(#[trigger] r2[k1], #[trigger] r2[k2]),
        forall|p: (usize, usize)| r1.contains(p) <==> r2.contains(p),
    ensures
        r1 == r2,
    decreases r1.len(),
{
    if r1.len() == 0 {
        if r2.len() > 0 {
            assert(r2.contains(r2[0]));
        }
        assert(r2 =~= r1);
    } else {
        assert(r1.contains(r1[0]));
        assert(r2.len() > 0);
        assert(r2.contains(r2[0]));
        let k = choose|k: int| 0 <= k < r2.len() && r2[k] == r1[0];
        let k2 = choose|k2: int| 0 <= k2 < r1.len() && r1[k2] == r2[0];
        if k > 0 {
            assert(pos_before(r2[0], r2[k]));
            if k2 > 0 {
                assert(pos_before(r1[0], r1[k2]));
            }
        }
        assert(r1[0] == r2[0]);
        let t1 = r1.drop_first();
        let t2 = r2.drop_first();
        assert forall|p: (usize, usize)| t1.contains(p) <==> t2.contains(p) by {
            if t1.contains(p) {
                let i = choose|i: int| 0 <= i < t1.len() && t1[i] == p;
                assert(pos_before(r1[0], r1[i + 1]));
                assert(r1.contains(p));
                let j = choose|j: int| 0 <= j < r2.len() && r2[j] == p;
                assert(j != 0);
                assert(t2[j - 1] == p);
            }
            if t2.contains(p) {
                let i = choose|i: int| 0 <= i < t2.len() && t2[i] == p;
                assert(pos_before(r2[0], r2[i + 1]));
                assert(r2.contains(p));
                let j = choose|j: int| 0 <= j < r1.len() && r1[j] == p;
                assert(j != 0);
                assert(t1[j - 1] == p);
            }
        }
        assert forall|k1: int, k2: int|
            0 <= k1 < k2 < t1.len() implies pos_before(#[trigger] t1[k1], #[trigger] t1[k2]) by {
            assert(pos_before(r1[k1 + 1], r1[k2 + 1]));
        }
        assert forall|k1: int, k2: int|
            0 <= k1 < k2 < t2.len() implies pos_before(#[trigger] t2[k1], #[trigger] t2[k2]) by {
            assert(pos_before(r2[k1 + 1], r2[k2 + 1]));
        }
        lemma_sorted_unique(t1, t2);
        assert(r1 =~= seq![r1[0]] + t1);
        assert(r2 =~= seq![r2[0]] + t2);
    }
}

/// An image has one list of match positions in row-major order: whatever
/// two lists both list exactly its hits in that order are equal. So the
/// group that `group_by_image` forms for an image is the list that
/// `image_matches` gives for it.
pub proof fn law_hit_lists_unique(
    m: Seq<Vec<i32>>,
    img: i32,
    r1: Seq<(usize, usize)>,
    r2: Seq<(usize, usize)>,
)
    requires
        lists_hits(m, img, r1),
        lists_hits(m, img, r2),
    ensures
        r1 == r2,
{
    assert forall|p: (usize, usize)| r1.contains(p) <==> r2.contains(p) by {
        if r1.contains(p) {
            let i = choose|i: int| 0 <= i < r1.len() && r1[i] == p;
            assert(is_hit(m, img, r1[i]));
        }
        if r2.contains(p) {
            let i = choose|i: int| 0 <= i < r2.len() && r2[i] == p;
            assert(is_hit(m, img, r2[i]));
        }
    }
    lemma_sorted_unique(r1, r2);
}

/// The position of the card whose image index the matcher reported, when
/// that index names one of the `n_cards` loaded cards.
pub fn card_index(img_idx: i32, n_cards: usize) -> (r: Option<usize>)
    ensures
        r == (if 0 <= img_idx < n_cards {
            Some(img_idx as usize)
        } else {
            None
        }),
{
    if img_idx >= 0 && (img_idx as usize) < n_cards {
        Some(img_idx as usize)
    } else {
        None
    }
}

} // verus!
