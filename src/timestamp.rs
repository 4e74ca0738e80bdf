//! Queries over sequences sorted by timestamp.
use vstd::prelude::*;
use vstd::slice::slice_subrange;
use crate::decimal::Decimal;
use crate::model::{BeatmapFile, Event, HitObject, TimingPoint};

verus! {

/// An element placed in time.
pub trait Timestamped {
    spec fn spec_timestamp(&self) -> Decimal;

    fn timestamp(&self) -> (r: Decimal)
        ensures
            r == self.spec_timestamp(),
    ;
}

impl Timestamped for TimingPoint {
    open spec fn spec_timestamp(&self) -> Decimal {
        self.time
    }

    fn timestamp(&self) -> (r: Decimal) {
        self.time
    }
}

impl Timestamped for HitObject {
    open spec fn spec_timestamp(&self) -> Decimal {
        self.time
    }

    fn timestamp(&self) -> (r: Decimal) {
        self.time
    }
}

impl Timestamped for Event {
    open spec fn spec_timestamp(&self) -> Decimal {
        self.start_time
    }

    fn timestamp(&self) -> (r: Decimal) {
        self.start_time
    }
}

/// Time of an element in units of `10^-MAX_SCALE` milliseconds.
pub open spec fn key<T: Timestamped>(e: T) -> int {
    e.spec_timestamp().fixed()
}

/// Every timestamp is a well-formed decimal.
pub open spec fn times_wf<T: Timestamped>(s: Seq<T>) -> bool {
    forall|i: int| 0 <= i < s.len() ==> (#[trigger] s[i]).spec_timestamp().wf()
}

/// Timestamps never decrease along the sequence.
pub open spec fn sorted<T: Timestamped>(s: Seq<T>) -> bool {
    forall|i: int, j: int| 0 <= i <= j < s.len() ==> key(#[trigger] s[i]) <= key(#[trigger] s[j])
}

fn time_key<T: Timestamped>(e: &T) -> (r: i128)
    requires
        e.spec_timestamp().wf(),
    ensures
        r == key(*e),
        -1_000_000_000_000_000_000_000_000_000_000_000_000 < r < 1_000_000_000_000_000_000_000_000_000_000_000_000,
{
    e.timestamp().fixed_value()
}

/// One end of a time range.
#[derive(Clone, Copy, Debug, PartialEq, Eq, Structural)]
pub enum TimeBound {
    Included(Decimal),
    Excluded(Decimal),
    Unbounded,
}

impl TimeBound {
    pub open spec fn wf(self) -> bool {
        match self {
            TimeBound::Included(d) => d.wf(),
            TimeBound::Excluded(d) => d.wf(),
            TimeBound::Unbounded => true,
        }
    }
}

/// A time `t` comes before a range that starts at `b`.
pub open spec fn before_start(t: int, b: TimeBound) -> bool {
    match b {
        TimeBound::Included(d) => t < d.fixed(),
        TimeBound::Excluded(d) => t <= d.fixed(),
        TimeBound::Unbounded => false,
    }
}

/// A time `t` comes no later than the end `b` of a range.
pub open spec fn before_end(t: int, b: TimeBound) -> bool {
    match b {
        TimeBound::Included(d) => t <= d.fixed(),
        TimeBound::Excluded(d) => t < d.fixed(),
        TimeBound::Unbounded => true,
    }
}

/// `t` lies in the range from `start` to `end`.
pub open spec fn in_range(t: int, start: TimeBound, end: TimeBound) -> bool {
    !before_start(t, start) && before_end(t, end)
}

/// `p` holds of exactly the first `k` elements.
pub open spec fn splits_at<T: Timestamped>(s: Seq<T>, p: spec_fn(int) -> bool, k: int) -> bool {
    &&& 0 <= k <= s.len()
    &&& forall|i: int| 0 <= i < k ==> p(key(#[trigger] s[i]))
    &&& forall|i: int| k <= i < s.len() ==> !p(key(#[trigger] s[i]))
}

pub open spec fn start_pred(b: TimeBound) -> spec_fn(int) -> bool {
    |t: int| before_start(t, b)
}

pub open spec fn end_pred(b: TimeBound) -> spec_fn(int) -> bool {
    |t: int| before_end(t, b)
}

/// Index of the first element not before the range start.
pub open spec fn start_index<T: Timestamped>(s: Seq<T>, b: TimeBound) -> int {
    choose|k: int| #[trigger] splits_at(s, start_pred(b), k)
}

/// Index of the first element past the range end.
pub open spec fn end_index<T: Timestamped>(s: Seq<T>, b: TimeBound) -> int {
    choose|k: int| #[trigger] splits_at(s, end_pred(b), k)
}

proof fn lemma_split_unique<T: Timestamped>(s: Seq<T>, p: spec_fn(int) -> bool, k: int, j: int)
    requires
        splits_at(s, p, k),
        splits_at(s, p, j),
    ensures
        k == j,
{
    if k < j {
        assert(p(key(s[k])));
    } else if j < k {
        assert(p(key(s[j])));
    }
}

fn bound_fixed(b: TimeBound) -> (r: i128)
    requires
        b.wf(),
        !(b is Unbounded),
    ensures
        match b {
            TimeBound::Included(d) => r == d.fixed(),
            TimeBound::Excluded(d) => r == d.fixed(),
            TimeBound::Unbounded => true,
        },
{
    match b {
        TimeBound::Included(d) => d.fixed_value(),
        TimeBound::Excluded(d) => d.fixed_value(),
        TimeBound::Unbounded => 0,
    }
}

/// First index at which `t < key` (strict) or `t <= key` stops holding.
fn partition_point<T: Timestamped>(s: &[T], bound: i128, strict: bool) -> (r: usize)
    requires
        times_wf(s@),
        sorted(s@),
    ensures
        r <= s@.len(),
        forall|i: int| 0 <= i < r ==> (if strict { key(#[trigger] s@[i]) < bound } else { key(s@[i]) <= bound }),
        forall|i: int| r <= i < s@.len() ==> !(if strict { key(#[trigger] s@[i]) < bound } else { key(s@[i]) <= bound }),
{
    let mut lo: usize = 0;
    let mut hi: usize = s.len();
    while lo < hi
        invariant
            lo <= hi <= s@.len(),
            times_wf(s@),
            sorted(s@),
            forall|i: int| 0 <= i < lo ==> (if strict { key(#[trigger] s@[i]) < bound } else { key(s@[i]) <= bound }),
            forall|i: int| hi <= i < s@.len() ==> !(if strict { key(#[trigger] s@[i]) < bound } else { key(s@[i]) <= bound }),
        decreases hi - lo,
    {
        let mid = lo + (hi - lo) / 2;
        let k = time_key(&s[mid]);
        let below = if strict { k < bound } else { k <= bound };
        if below {
            assert forall|i: int| 0 <= i < mid + 1 implies (if strict { key(#[trigger] s@[i]) < bound } else { key(s@[i]) <= bound }) by {
                assert(key(s@[i]) <= key(s@[mid as int]));
            }
            lo = mid + 1;
        } else {
            assert forall|i: int| mid <= i < s@.len() implies !(if strict { key(#[trigger] s@[i]) < bound } else { key(s@[i]) <= bound }) by {
                assert(key(s@[mid as int]) <= key(s@[i]));
            }
            hi = mid;
        }
    }
    lo
}

fn start_point<T: Timestamped>(s: &[T], b: TimeBound) -> (r: usize)
    requires
        times_wf(s@),
        sorted(s@),
        b.wf(),
    ensures
        r == start_index(s@, b),
        r <= s@.len(),
{
    let r = match b {
        TimeBound::Included(_) => partition_point(s, bound_fixed(b), true),
        TimeBound::Excluded(_) => partition_point(s, bound_fixed(b), false),
        TimeBound::Unbounded => 0,
    };
    let ghost p = start_pred(b);
    assert(splits_at(s@, p, r as int));
    proof {
        lemma_split_unique(s@, p, r as int, start_index(s@, b));
    }
    r
}

fn end_point<T: Timestamped>(s: &[T], b: TimeBound) -> (r: usize)
    requires
        times_wf(s@),
        sorted(s@),
        b.wf(),
    ensures
        r == end_index(s@, b),
        r <= s@.len(),
{
    let r = match b {
        TimeBound::Included(_) => partition_point(s, bound_fixed(b), false),
        TimeBound::Excluded(_) => partition_point(s, bound_fixed(b), true),
        TimeBound::Unbounded => s.len(),
    };
    let ghost p = end_pred(b);
    assert(splits_at(s@, p, r as int));
    proof {
        lemma_split_unique(s@, p, r as int, end_index(s@, b));
    }
    r
}

/// The elements whose time lies between `start` and `end`: on sorted input,
/// a contiguous run, found by two binary searches.
pub fn between<'a, T: Timestamped>(s: &'a [T], start: TimeBound, end: TimeBound) -> (r: &'a [T])
    requires
        times_wf(s@),
        sorted(s@),
        start.wf(),
        end.wf(),
    ensures
        0 <= start_index(s@, start) <= s@.len(),
        0 <= end_index(s@, end) <= s@.len(),
        start_index(s@, start) <= end_index(s@, end) ==> r@ == s@.subrange(
            start_index(s@, start),
            end_index(s@, end),
        ),
        start_index(s@, start) > end_index(s@, end) ==> r@.len() == 0,
{
    let lo = start_point(s, start);
    let hi = end_point(s, end);
    if lo <= hi {
        slice_subrange(s, lo, hi)
    } else {
        slice_subrange(s, 0, 0)
    }
}

/// On sorted input the two indices bound exactly the elements in the range.
pub proof fn lemma_between_exact<T: Timestamped>(s: Seq<T>, start: TimeBound, end: TimeBound)
    requires
        sorted(s),
    ensures
        0 <= start_index(s, start) <= s.len(),
        0 <= end_index(s, end) <= s.len(),
        forall|i: int|
            0 <= i < s.len() ==> (in_range(key(#[trigger] s[i]), start, end) <==> start_index(s, start)
                <= i < end_index(s, end)),
{
    let ps = start_pred(start);
    let pe = end_pred(end);
    lemma_split_exists(s, ps);
    lemma_split_exists(s, pe);
}

/// A predicate that, once false, stays false for later times splits a sorted sequence.
proof fn lemma_split_exists<T: Timestamped>(s: Seq<T>, p: spec_fn(int) -> bool)
    requires
        sorted(s),
        forall|a: int, b: int| a <= b && #[trigger] p(b) ==> #[trigger] p(a),
    ensures
        splits_at(s, p, choose|k: int| #[trigger] splits_at(s, p, k)),
{
    let k = find_split(s, p, 0);
    assert(splits_at(s, p, k));
}

proof fn find_split<T: Timestamped>(s: Seq<T>, p: spec_fn(int) -> bool, k: int) -> (j: int)
    requires
        sorted(s),
        forall|a: int, b: int| a <= b && #[trigger] p(b) ==> #[trigger] p(a),
        0 <= k <= s.len(),
        forall|i: int| 0 <= i < k ==> p(key(#[trigger] s[i])),
    ensures
        splits_at(s, p, j),
    decreases s.len() - k,
{
    if k == s.len() || !p(key(s[k])) {
        assert forall|i: int| k <= i < s.len() implies !p(key(#[trigger] s[i])) by {
            assert(key(s[k]) <= key(s[i]));
        }
        k
    } else {
        find_split(s, p, k + 1)
    }
}

/// `k` lies within `tol` of `t`.
pub open spec fn close(k: int, t: int, tol: int) -> bool {
    t - tol <= k <= t + tol
}

/// An element whose time lies within `tolerance` of `t`, found by binary
/// search; `None` exactly where no element lies that close.
pub fn at_timestamp<'a, T: Timestamped>(s: &'a [T], t: Decimal, tolerance: Decimal) -> (r: Option<
    &'a T,
>)
    requires
        times_wf(s@),
        sorted(s@),
        t.wf(),
        tolerance.wf(),
    ensures
        match r {
            Some(e) => s@.contains(*e) && close(key(*e), t.fixed(), tolerance.fixed()),
            None => forall|i: int|
                0 <= i < s@.len() ==> !close(key(#[trigger] s@[i]), t.fixed(), tolerance.fixed()),
        },
{
    let tf = t.fixed_value();
    let tol = tolerance.fixed_value();
    let mut lo: usize = 0;
    let mut hi: usize = s.len();
    while lo < hi
        invariant
            lo <= hi <= s@.len(),
            times_wf(s@),
            sorted(s@),
            tf == t.fixed(),
            tol == tolerance.fixed(),
            -1_000_000_000_000_000_000_000_000_000_000_000_000 < tf < 1_000_000_000_000_000_000_000_000_000_000_000_000,
            -1_000_000_000_000_000_000_000_000_000_000_000_000 < tol < 1_000_000_000_000_000_000_000_000_000_000_000_000,
            forall|i: int| 0 <= i < lo ==> key(#[trigger] s@[i]) < tf - tol,
            forall|i: int| hi <= i < s@.len() ==> key(#[trigger] s@[i]) > tf + tol,
        decreases hi - lo,
    {
        let mid = lo + (hi - lo) / 2;
        let k = time_key(&s[mid]);
        if tf - tol <= k && k <= tf + tol {
            return Some(&s[mid]);
        } else if k < tf - tol {
            assert forall|i: int| 0 <= i < mid + 1 implies key(#[trigger] s@[i]) < tf - tol by {
                assert(key(s@[i]) <= key(s@[mid as int]));
            }
            lo = mid + 1;
        } else {
            assert forall|i: int| mid <= i < s@.len() implies key(#[trigger] s@[i]) > tf + tol by {
                assert(key(s@[mid as int]) <= key(s@[i]));
            }
            hi = mid;
        }
    }
    None
}

/// Elements more than twice the tolerance apart from each other.
pub open spec fn spaced<T: Timestamped>(s: Seq<T>, tol: int) -> bool {
    forall|i: int, j: int| 0 <= i < j < s.len() ==> key(#[trigger] s[j]) - key(#[trigger] s[i]) > 2 * tol
}

/// Where elements lie more than twice the tolerance apart, at most one lies
/// within the tolerance of any time: the one `at_timestamp` finds.
pub proof fn lemma_near_match_unique<T: Timestamped>(s: Seq<T>, t: int, tol: int, i: int, j: int)
    requires
        spaced(s, tol),
        0 <= i < s.len(),
        0 <= j < s.len(),
        close(key(s[i]), t, tol),
        close(key(s[j]), t, tol),
    ensures
        i == j,
{
    if i < j {
        assert(key(s[j]) - key(s[i]) > 2 * tol);
    } else if j < i {
        assert(key(s[i]) - key(s[j]) > 2 * tol);
    }
}

pub open spec fn keys<T: Timestamped>(s: Seq<T>) -> Seq<int> {
    s.map_values(|e: T| key(e))
}

/// The order in which an interleave takes elements from two sequences read
/// from positions `i` and `j`: `Ok` from the left, `Err` from the right,
/// always the one with the smaller time, the left on ties.
pub open spec fn merge_from(ka: Seq<int>, kb: Seq<int>, i: int, j: int) -> Seq<Result<int, int>>
    decreases ka.len() - i + kb.len() - j,
{
    if i < 0 || j < 0 || i > ka.len() || j > kb.len() || (i == ka.len() && j == kb.len()) {
        Seq::empty()
    } else if j == kb.len() || (i < ka.len() && ka[i] <= kb[j]) {
        seq![Ok(i)] + merge_from(ka, kb, i + 1, j)
    } else {
        seq![Err(j)] + merge_from(ka, kb, i, j + 1)
    }
}

pub open spec fn side_int(x: Result<usize, usize>) -> Result<int, int> {
    match x {
        Ok(i) => Ok(i as int),
        Err(j) => Err(j as int),
    }
}

/// Walks both sorted sequences together in time order: the positions taken,
/// `Ok` from `a` and `Err` from `b`.
pub fn interleave_timestamped<T: Timestamped, U: Timestamped>(a: &[T], b: &[U]) -> (r: Vec<
    Result<usize, usize>,
>)
    requires
        times_wf(a@),
        times_wf(b@),
    ensures
        r@.map_values(|x: Result<usize, usize>| side_int(x)) == merge_from(keys(a@), keys(b@), 0, 0),
{
    let ghost ka = keys(a@);
    let ghost kb = keys(b@);
    let mut out: Vec<Result<usize, usize>> = Vec::new();
    let mut i: usize = 0;
    let mut j: usize = 0;
    while i < a.len() || j < b.len()
        invariant
            i <= a@.len(),
            j <= b@.len(),
            times_wf(a@),
            times_wf(b@),
            ka == keys(a@),
            kb == keys(b@),
            out@.map_values(|x: Result<usize, usize>| side_int(x)) + merge_from(ka, kb, i as int, j as int)
                == merge_from(ka, kb, 0, 0),
        decreases a@.len() - i + b@.len() - j,
    {
        let ghost before = out@;
        let take_left = if j == b.len() {
            true
        } else if i < a.len() {
            time_key(&a[i]) <= time_key(&b[j])
        } else {
            false
        };
        if take_left {
            out.push(Ok(i));
            assert(out@.map_values(|x: Result<usize, usize>| side_int(x)) =~= before.map_values(
                |x: Result<usize, usize>| side_int(x),
            ) + seq![Ok(i as int)]);
            i = i + 1;
        } else {
            out.push(Err(j));
            assert(out@.map_values(|x: Result<usize, usize>| side_int(x)) =~= before.map_values(
                |x: Result<usize, usize>| side_int(x),
            ) + seq![Err(j as int)]);
            j = j + 1;
        }
    }
    assert(merge_from(ka, kb, i as int, j as int) =~= Seq::<Result<int, int>>::empty());
    assert(out@.map_values(|x: Result<usize, usize>| side_int(x)) + Seq::<Result<int, int>>::empty()
        =~= out@.map_values(|x: Result<usize, usize>| side_int(x)));
    out
}

pub open spec fn side_key(ka: Seq<int>, kb: Seq<int>, x: Result<int, int>) -> int {
    match x {
        Ok(i) => ka[i],
        Err(j) => kb[j],
    }
}

pub open spec fn nondecreasing(s: Seq<int>) -> bool {
    forall|i: int, j: int| 0 <= i <= j < s.len() ==> s[i] <= s[j]
}

/// Interleaving sorted sequences of lengths `m` and `n` yields `m + n`
/// positions, whose times never decrease, and takes the left one first
/// where the two heads have equal times.
pub proof fn lemma_interleave_merges(ka: Seq<int>, kb: Seq<int>, i: int, j: int)
    requires
        nondecreasing(ka),
        nondecreasing(kb),
        0 <= i <= ka.len(),
        0 <= j <= kb.len(),
    ensures
        merge_from(ka, kb, i, j).len() == ka.len() - i + kb.len() - j,
        forall|p: int, q: int|
            0 <= p <= q < merge_from(ka, kb, i, j).len() ==> side_key(ka, kb, merge_from(ka, kb, i, j)[p])
                <= side_key(ka, kb, merge_from(ka, kb, i, j)[q]),
        forall|p: int|
            0 <= p < merge_from(ka, kb, i, j).len() ==> (match #[trigger] merge_from(ka, kb, i, j)[p] {
                Ok(x) => i <= x < ka.len(),
                Err(y) => j <= y < kb.len(),
            }),
        i < ka.len() && j < kb.len() && ka[i] == kb[j] ==> merge_from(ka, kb, i, j)[0] == Ok::<int, int>(i),
        i < ka.len() ==> forall|p: int| 0 <= p < merge_from(ka, kb, i, j).len() ==> ka[i] <= side_key(ka, kb, #[trigger] merge_from(ka, kb, i, j)[p]) || (match merge_from(ka, kb, i, j)[p] { Err(y) => kb[y] < ka[i], Ok(_) => false }),
    decreases ka.len() - i + kb.len() - j,
{
    let m = merge_from(ka, kb, i, j);
    if i == ka.len() && j == kb.len() {
    } else if j == kb.len() || (i < ka.len() && ka[i] <= kb[j]) {
        lemma_interleave_merges(ka, kb, i + 1, j);
        let rest = merge_from(ka, kb, i + 1, j);
        assert(m == seq![Ok::<int, int>(i)] + rest);
        assert forall|p: int, q: int| 0 <= p <= q < m.len() implies side_key(ka, kb, m[p]) <= side_key(ka, kb, m[q]) by {
            if p == 0 && q > 0 {
                assert(m[q] == rest[q - 1]);
                match rest[q - 1] {
                    Ok(x) => {
                        assert(ka[i] <= ka[x]);
                    },
                    Err(y) => {
                        assert(kb[j] <= kb[y]);
                    },
                }
            } else if p > 0 {
                assert(m[p] == rest[p - 1]);
                assert(m[q] == rest[q - 1]);
            }
        }
        assert forall|p: int| 0 <= p < m.len() implies ka[i] <= side_key(ka, kb, #[trigger] m[p]) || (match m[p] { Err(y) => kb[y] < ka[i], Ok(_) => false }) by {
            if p > 0 {
                assert(m[p] == rest[p - 1]);
                match rest[p - 1] {
                    Ok(x) => {
                        assert(ka[i] <= ka[x]);
                    },
                    Err(y) => {
                        assert(kb[j] <= kb[y]);
                    },
                }
            }
        }
        assert forall|p: int| 0 <= p < m.len() implies (match #[trigger] m[p] {
            Ok(x) => i <= x < ka.len(),
            Err(y) => j <= y < kb.len(),
        }) by {
            if p > 0 {
                assert(m[p] == rest[p - 1]);
            }
        }
    } else {
        lemma_interleave_merges(ka, kb, i, j + 1);
        let rest = merge_from(ka, kb, i, j + 1);
        assert(m == seq![Err::<int, int>(j)] + rest);
        assert forall|p: int, q: int| 0 <= p <= q < m.len() implies side_key(ka, kb, m[p]) <= side_key(ka, kb, m[q]) by {
            if p == 0 && q > 0 {
                assert(m[q] == rest[q - 1]);
                match rest[q - 1] {
                    Ok(x) => {
                        assert(ka[i] <= ka[x]);
                    },
                    Err(y) => {
                        assert(kb[j] <= kb[y]);
                    },
                }
            } else if p > 0 {
                assert(m[p] == rest[p - 1]);
                assert(m[q] == rest[q - 1]);
            }
        }
        assert forall|p: int| 0 <= p < m.len() implies ka[i] <= side_key(ka, kb, #[trigger] m[p]) || (match m[p] { Err(y) => kb[y] < ka[i], Ok(_) => false }) by {
            if p > 0 {
                assert(m[p] == rest[p - 1]);
            }
        }
        assert forall|p: int| 0 <= p < m.len() implies (match #[trigger] m[p] {
            Ok(x) => i <= x < ka.len(),
            Err(y) => j <= y < kb.len(),
        }) by {
            if p > 0 {
                assert(m[p] == rest[p - 1]);
            }
        }
    }
}

/// End of the run that starts at `start`, scanning from `j`: the first
/// position whose time is further than `tol` from the time at `start`.
pub open spec fn run_end(ks: Seq<int>, start: int, j: int, tol: int) -> int
    decreases ks.len() - j,
{
    if j < 0 || j >= ks.len() || !close(ks[j], ks[start], tol) {
        j
    } else {
        run_end(ks, start, j + 1, tol)
    }
}

/// The maximal runs, as `(start, end)` positions, from position `start` on:
/// each holds the elements within `tol` of the run's first element.
pub open spec fn runs_from(ks: Seq<int>, start: int, tol: int) -> Seq<(int, int)>
    decreases ks.len() - start,
{
    if start < 0 || start >= ks.len() {
        Seq::empty()
    } else {
        let e = run_end(ks, start, start + 1, tol);
        if e <= start || e > ks.len() {
            Seq::empty()
        } else {
            seq![(start, e)] + runs_from(ks, e, tol)
        }
    }
}

proof fn lemma_run_end(ks: Seq<int>, start: int, j: int, tol: int)
    requires
        0 <= start < j <= ks.len(),
    ensures
        j <= run_end(ks, start, j, tol) <= ks.len(),
    decreases ks.len() - j,
{
    if j < ks.len() && close(ks[j], ks[start], tol) {
        lemma_run_end(ks, start, j + 1, tol);
    }
}

/// Splits a sorted sequence into the maximal runs of elements within
/// `tolerance` of the first element of their run, as `(start, end)` positions.
pub fn group_timestamped<T: Timestamped>(s: &[T], tolerance: Decimal) -> (r: Vec<(usize, usize)>)
    requires
        times_wf(s@),
        tolerance.wf(),
    ensures
        r@.map_values(|g: (usize, usize)| (g.0 as int, g.1 as int)) == runs_from(
            keys(s@),
            0,
            tolerance.fixed(),
        ),
{
    let ghost ks = keys(s@);
    let tol = tolerance.fixed_value();
    let mut out: Vec<(usize, usize)> = Vec::new();
    let mut start: usize = 0;
    let n = s.len();
    while start < n
        invariant
            start <= n,
            n == s@.len(),
            times_wf(s@),
            ks == keys(s@),
            tol == tolerance.fixed(),
            -1_000_000_000_000_000_000_000_000_000_000_000_000 < tol < 1_000_000_000_000_000_000_000_000_000_000_000_000,
            out@.map_values(|g: (usize, usize)| (g.0 as int, g.1 as int)) + runs_from(ks, start as int, tol as int)
                == runs_from(ks, 0, tolerance.fixed()),
        decreases n - start,
    {
        let k0 = time_key(&s[start]);
        let mut e: usize = start + 1;
        let mut done = false;
        while e < n && !done
            invariant
                done ==> e < n && !close(ks[e as int], ks[start as int], tol as int),
                start < e <= n,
                n == s@.len(),
                times_wf(s@),
                ks == keys(s@),
                k0 == ks[start as int],
                -1_000_000_000_000_000_000_000_000_000_000_000_000 < tol < 1_000_000_000_000_000_000_000_000_000_000_000_000,
                -1_000_000_000_000_000_000_000_000_000_000_000_000 < k0 < 1_000_000_000_000_000_000_000_000_000_000_000_000,
                run_end(ks, start as int, e as int, tol as int) == run_end(ks, start as int, start + 1, tol as int),
            decreases n - e + (if done { 0int } else { 1int }),
        {
            let k = time_key(&s[e]);
            if !(k0 - tol <= k && k <= k0 + tol) {
                done = true;
            } else {
                e = e + 1;
            }
        }
        proof {
            lemma_run_end(ks, start as int, start + 1, tol as int);
        }
        assert(run_end(ks, start as int, e as int, tol as int) == e);
        assert(runs_from(ks, start as int, tol as int) == seq![(start as int, e as int)] + runs_from(ks, e as int, tol as int));
        let ghost before = out@;
        out.push((start, e));
        assert(out@.map_values(|g: (usize, usize)| (g.0 as int, g.1 as int)) =~= before.map_values(
            |g: (usize, usize)| (g.0 as int, g.1 as int),
        ) + seq![(start as int, e as int)]);
        start = e;
    }
    assert(out@.map_values(|g: (usize, usize)| (g.0 as int, g.1 as int)) + Seq::<(int, int)>::empty()
        =~= out@.map_values(|g: (usize, usize)| (g.0 as int, g.1 as int)));
    out
}

/// Whether every timestamp is well-formed and they never decrease, as the
/// queries of this module require.
pub fn check_sorted<T: Timestamped>(s: &[T]) -> (r: bool)
    ensures
        r == (times_wf(s@) && sorted(s@)),
{
    let n = s.len();
    let mut i: usize = 0;
    while i < n
        invariant
            i <= n,
            n == s@.len(),
            forall|k: int| 0 <= k < i ==> (#[trigger] s@[k]).spec_timestamp().wf(),
            forall|a: int, b: int| 0 <= a <= b < i ==> key(#[trigger] s@[a]) <= key(#[trigger] s@[b]),
        decreases n - i,
    {
        let t = s[i].timestamp();
        if !t.is_wf() {
            return false;
        }
        if i > 0 {
            let prev = s[i - 1].timestamp().fixed_value();
            let cur = t.fixed_value();
            if cur < prev {
                assert(key(s@[i - 1]) > key(s@[i as int]));
                return false;
            }
            assert forall|a: int, b: int| 0 <= a <= b < i + 1 implies key(#[trigger] s@[a]) <= key(#[trigger] s@[b]) by {
                if b == i && a < i {
                    assert(key(s@[a]) <= key(s@[i - 1]));
                }
            }
        }
        i = i + 1;
    }
    true
}

impl BeatmapFile {
    /// The hit objects (`Ok`) and timing points (`Err`) of the document,
    /// walked together in time order.
    pub fn iter_hit_objects_and_timing_points(&self) -> (r: Vec<Result<usize, usize>>)
        requires
            times_wf(self.hit_objects@),
            times_wf(self.timing_points@),
        ensures
            r@.map_values(|x: Result<usize, usize>| side_int(x)) == merge_from(
                keys(self.hit_objects@),
                keys(self.timing_points@),
                0,
                0,
            ),
    {
        interleave_timestamped(self.hit_objects.as_slice(), self.timing_points.as_slice())
    }
}

} // verus!
