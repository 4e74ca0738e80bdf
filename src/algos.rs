//! Edits on timing points.
use vstd::prelude::*;
use crate::model::{HitObject, HitObjectType, SampleBank, TimingPoint};
use crate::timestamp::{TimeBound, between, end_index, sorted, start_index, times_wf};

verus! {

/// The points kept by duplicate removal: each point is compared with the
/// last one kept, and kept where it is uninherited or not its duplicate.
pub open spec fn deduped(s: Seq<TimingPoint>) -> Seq<TimingPoint>
    decreases s.len(),
{
    if s.len() <= 1 {
        s
    } else {
        let d = deduped(s.drop_last());
        let t = s.last();
        if t.uninherited || !t.spec_is_duplicate(d.last()) {
            d.push(t)
        } else {
            d
        }
    }
}

proof fn lemma_deduped_nonempty(s: Seq<TimingPoint>)
    ensures
        s.len() > 0 ==> deduped(s).len() > 0,
    decreases s.len(),
{
    if s.len() > 1 {
        lemma_deduped_nonempty(s.drop_last());
    }
}

/// Removes the timing points that repeat the one kept before them in all
/// but `time` and `uninherited`; every uninherited point stays.
pub fn remove_duplicates(timing_points: &[TimingPoint]) -> (r: Vec<TimingPoint>)
    ensures
        r@ == deduped(timing_points@),
{
    let n = timing_points.len();
    let mut out: Vec<TimingPoint> = Vec::new();
    if n == 0 {
        assert(out@ =~= timing_points@);
        return out;
    }
    out.push(timing_points[0]);
    let mut i: usize = 1;
    assert(timing_points@.take(1) =~= seq![timing_points@[0]]);
    while i < n
        invariant
            1 <= i <= n,
            n == timing_points@.len(),
            out@ == deduped(timing_points@.take(i as int)),
            out@.len() > 0,
        decreases n - i,
    {
        let t = timing_points[i];
        let prev = out[out.len() - 1];
        assert(timing_points@.take(i + 1).drop_last() =~= timing_points@.take(i as int));
        if t.uninherited || !t.is_duplicate(&prev) {
            out.push(t);
        }
        i = i + 1;
    }
    assert(timing_points@.take(n as int) =~= timing_points@);
    out
}

/// In `[A, A', B]`, where `A'` repeats `A` in all but `time` and
/// `uninherited` and `B` does not repeat them (or is uninherited), duplicate
/// removal drops `A'` unless it is uninherited.
pub proof fn lemma_duplicate_collapses(a: TimingPoint, a2: TimingPoint, b: TimingPoint)
    requires
        a2.spec_is_duplicate(a),
        b.uninherited || !b.spec_is_duplicate(a),
    ensures
        deduped(seq![a, a2, b]) == if a2.uninherited { seq![a, a2, b] } else { seq![a, b] },
{
    let s = seq![a, a2, b];
    assert(s.drop_last() =~= seq![a, a2]);
    assert(seq![a, a2].drop_last() =~= seq![a]);
    assert(deduped(seq![a]) == seq![a]);
    if a2.uninherited {
        assert(seq![a].push(a2) =~= seq![a, a2]);
        assert(deduped(seq![a, a2]) == seq![a, a2]);
        assert(seq![a, a2].last() == a2);
        assert(b.uninherited || !b.spec_is_duplicate(a2));
        assert(seq![a, a2].push(b) =~= seq![a, a2, b]);
        assert(deduped(s) == deduped(seq![a, a2]).push(b));
    } else {
        assert(deduped(seq![a, a2]) == seq![a]);
        assert(seq![a].last() == a);
        assert(seq![a].push(b) =~= seq![a, b]);
        assert(deduped(s) == seq![a].push(b));
    }
}

/// Resets the hitsounds of every timing point: the given sample set, the
/// default sample index, full volume.
pub fn reset_hitsounds(timing_points: &mut Vec<TimingPoint>, sample_set: SampleBank)
    ensures
        final(timing_points)@.len() == old(timing_points)@.len(),
        forall|i: int|
            0 <= i < old(timing_points)@.len() ==> #[trigger] final(timing_points)@[i] == (TimingPoint {
                sample_set,
                sample_index: 0,
                volume: 100,
                ..old(timing_points)@[i]
            }),
{
    let mut i: usize = 0;
    while i < timing_points.len()
        invariant
            i <= timing_points@.len(),
            timing_points@.len() == old(timing_points)@.len(),
            forall|k: int|
                0 <= k < i ==> #[trigger] timing_points@[k] == (TimingPoint {
                    sample_set,
                    sample_index: 0,
                    volume: 100,
                    ..old(timing_points)@[k]
                }),
            forall|k: int| i <= k < timing_points@.len() ==> #[trigger] timing_points@[k] == old(timing_points)@[k],
        decreases timing_points@.len() - i,
    {
        let mut tp = timing_points[i];
        tp.sample_set = sample_set;
        tp.sample_index = 0;
        tp.volume = 100;
        timing_points.set(i, tp);
        i = i + 1;
    }
}

/// The volume raised or lowered by `val`, kept within `0..=u32::MAX`.
pub open spec fn mixed(volume: u32, val: i8) -> u32 {
    let v = volume + val;
    if v < 0 {
        0
    } else if v > u32::MAX {
        u32::MAX
    } else {
        v as u32
    }
}

/// Raises (positive `val`) or lowers (negative `val`) the volume of every
/// timing point, saturating at the bounds.
pub fn mix_volume(timing_points: &mut Vec<TimingPoint>, val: i8)
    ensures
        final(timing_points)@.len() == old(timing_points)@.len(),
        forall|i: int|
            0 <= i < old(timing_points)@.len() ==> #[trigger] final(timing_points)@[i] == (TimingPoint {
                volume: mixed(old(timing_points)@[i].volume, val),
                ..old(timing_points)@[i]
            }),
{
    let mut i: usize = 0;
    while i < timing_points.len()
        invariant
            i <= timing_points@.len(),
            timing_points@.len() == old(timing_points)@.len(),
            forall|k: int|
                0 <= k < i ==> #[trigger] timing_points@[k] == (TimingPoint {
                    volume: mixed(old(timing_points)@[k].volume, val),
                    ..old(timing_points)@[k]
                }),
            forall|k: int| i <= k < timing_points@.len() ==> #[trigger] timing_points@[k] == old(timing_points)@[k],
        decreases timing_points@.len() - i,
    {
        let mut tp = timing_points[i];
        let v: i64 = tp.volume as i64 + val as i64;
        tp.volume = if v < 0 {
            0
        } else if v > 0xffff_ffff {
            0xffff_ffff
        } else {
            v as u32
        };
        timing_points.set(i, tp);
        i = i + 1;
    }
}

/// Only hit circles and spinners, which a speed change does not affect.
pub open spec fn unaffected(s: Seq<HitObject>) -> bool {
    forall|i: int|
        0 <= i < s.len() ==> (#[trigger] s[i]).object_type == HitObjectType::HitCircle || s[i].object_type
            == HitObjectType::Spinner
}

/// The hit objects from `from` (included) to `to` (excluded).
pub open spec fn objects_between(hos: Seq<HitObject>, from: TimingPoint, to: TimingPoint) -> Seq<HitObject> {
    let a = start_index(hos, TimeBound::Included(from.time));
    let b = end_index(hos, TimeBound::Excluded(to.time));
    if a <= b {
        hos.subrange(a, b)
    } else {
        Seq::empty()
    }
}

/// `t` changes something besides the speed relative to `prev`, or starts a new tempo.
pub open spec fn changes_more(t: TimingPoint, prev: TimingPoint) -> bool {
    t.uninherited || t.meter != prev.meter || t.effects != prev.effects || t.sample_index != prev.sample_index
        || t.sample_set != prev.sample_set || t.volume != prev.volume
}

pub open spec fn unless(added: bool, p: TimingPoint) -> Seq<TimingPoint> {
    if added { Seq::empty() } else { seq![p] }
}

/// The points kept from position `i` on: `prev` is the point before, and
/// `added` says whether it was kept. A point that only changes the speed is
/// kept where a slider lies between it and the next point, the range
/// including its own time and excluding the next one's.
pub open spec fn kept_from(tps: Seq<TimingPoint>, hos: Seq<HitObject>, i: int, prev: TimingPoint, added: bool) -> Seq<
    TimingPoint,
>
    decreases tps.len() - i,
{
    if i < 0 || i >= tps.len() {
        unless(added, prev)
    } else {
        let t = tps[i];
        if changes_more(t, prev) {
            unless(added, prev) + seq![t] + kept_from(tps, hos, i + 1, t, true)
        } else if !added {
            (if unaffected(objects_between(hos, prev, t)) { Seq::empty() } else { seq![prev] }) + kept_from(
                tps,
                hos,
                i + 1,
                t,
                false,
            )
        } else {
            kept_from(tps, hos, i + 1, t, false)
        }
    }
}

pub open spec fn useless_removed(tps: Seq<TimingPoint>, hos: Seq<HitObject>) -> Seq<TimingPoint> {
    if tps.len() == 0 || hos.len() == 0 {
        Seq::empty()
    } else {
        seq![tps[0]] + kept_from(tps, hos, 1, tps[0], true)
    }
}

fn all_unaffected(s: &[HitObject]) -> (r: bool)
    ensures
        r == unaffected(s@),
{
    let mut i: usize = 0;
    while i < s.len()
        invariant
            i <= s@.len(),
            forall|k: int| 0 <= k < i ==> (#[trigger] s@[k]).object_type == HitObjectType::HitCircle
                || s@[k].object_type == HitObjectType::Spinner,
        decreases s@.len() - i,
    {
        if !(s[i].is_hit_circle() || s[i].is_spinner()) {
            return false;
        }
        i = i + 1;
    }
    true
}

/// Removes the timing points that change only the speed where no slider
/// feels it: none starts between such a point and the next one.
pub fn remove_useless_speed_changes(timing_points: &[TimingPoint], hit_objects: &[HitObject]) -> (r: Vec<
    TimingPoint,
>)
    requires
        times_wf(timing_points@),
        times_wf(hit_objects@),
        sorted(hit_objects@),
    ensures
        r@ == useless_removed(timing_points@, hit_objects@),
{
    let n = timing_points.len();
    let mut out: Vec<TimingPoint> = Vec::new();
    if n == 0 || hit_objects.len() == 0 {
        return out;
    }
    let ghost tps = timing_points@;
    let ghost hos = hit_objects@;
    out.push(timing_points[0]);
    let mut prev = timing_points[0];
    let mut added = true;
    let mut i: usize = 1;
    assert(useless_removed(tps, hos) == out@ + kept_from(tps, hos, 1, prev, added));
    while i < n
        invariant
            1 <= i <= n,
            n == tps.len(),
            tps == timing_points@,
            hos == hit_objects@,
            times_wf(tps),
            times_wf(hos),
            sorted(hos),
            prev.time.wf(),
            useless_removed(tps, hos) == out@ + kept_from(tps, hos, i as int, prev, added),
        decreases n - i,
    {
        let t = timing_points[i];
        assert(tps[i as int] == t);
        let ghost before = out@;
        if t.uninherited || t.meter != prev.meter || t.effects != prev.effects || t.sample_index
            != prev.sample_index || t.sample_set != prev.sample_set || t.volume != prev.volume {
            if !added {
                out.push(prev);
            }
            out.push(t);
            assert(out@ =~= before + unless(added, prev) + seq![t]);
            assert(before + (unless(added, prev) + seq![t] + kept_from(tps, hos, i + 1, t, true)) =~= out@
                + kept_from(tps, hos, i + 1, t, true));
            prev = t;
            added = true;
        } else if !added {
            let objs = between(hit_objects, TimeBound::Included(prev.time), TimeBound::Excluded(t.time));
            assert(objs@ == objects_between(hos, prev, t));
            let useless = all_unaffected(objs);
            if !useless {
                out.push(prev);
            }
            let ghost mid: Seq<TimingPoint> = if useless { Seq::empty() } else { seq![prev] };
            assert(out@ =~= before + mid);
            assert(before + (mid + kept_from(tps, hos, i + 1, t, false)) =~= out@ + kept_from(tps, hos, i + 1, t, false));
            prev = t;
            added = false;
        } else {
            prev = t;
            added = false;
        }
        i = i + 1;
    }
    let ghost before = out@;
    if !added {
        out.push(prev);
    }
    assert(out@ =~= before + unless(added, prev));
    out
}

} // verus!
