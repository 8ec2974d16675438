//! The history segmenter: turns the most recent probe outcomes into runs
//! of consecutive successes, so that an outage shows as a gap in the plot
//! instead of a line drawn across it.

use crate::pong::Pong;
use itertools::Itertools;
use std::time::Duration;
use vstd::prelude::*;

verus! {

/// How many of the most recent history entries the plot shows.
pub const PLOT_LEN: usize = 20;

/// The last `window` entries of `history` (all of it when it is shorter).
pub open spec fn windowed(history: Seq<(u64, Pong)>, window: nat) -> Seq<(u64, Pong)> {
    if history.len() > window {
        history.skip(history.len() - window)
    } else {
        history
    }
}

/// The maximal runs of consecutive successes in `entries`, in order. Each
/// point of a run is the entry's position in `entries` and its latency.
/// Failures appear in no run; they are what separates one run from the next.
pub open spec fn segments_of(entries: Seq<(u64, Pong)>) -> Seq<Seq<(int, Duration)>>
    decreases entries.len(),
{
    if entries.len() == 0 {
        Seq::empty()
    } else {
        let before = segments_of(entries.drop_last());
        let at = entries.len() - 1;
        match entries.last().1 {
            Pong::Failure => before,
            Pong::Success(latency) => if at > 0 && entries[at - 1].1 is Success {
                before.drop_last().push(before.last().push((at, latency)))
            } else {
                before.push(seq![(at, latency)])
            },
        }
    }
}

/// The points of the entries at positions `from..to`, all taken as successes.
pub open spec fn run_of(entries: Seq<(u64, Pong)>, from: int, to: int) -> Seq<(int, Duration)> {
    Seq::new((to - from) as nat, |j: int| (from + j, entries[from + j].1->Success_0))
}

/// A run of executable points as mathematical ones.
pub open spec fn run_view(run: Seq<(usize, Duration)>) -> Seq<(int, Duration)> {
    run.map_values(|point: (usize, Duration)| (point.0 as int, point.1))
}

/// A list of executable runs as mathematical ones.
pub open spec fn segments_view(segments: Seq<Vec<(usize, Duration)>>) -> Seq<Seq<(int, Duration)>> {
    segments.map_values(|run: Vec<(usize, Duration)>| run_view(run@))
}

/// The successful entries of `entries`, in order: each with its position
/// and its latency.
pub open spec fn successes_of(entries: Seq<(u64, Pong)>) -> Seq<(int, Duration)>
    decreases entries.len(),
{
    if entries.len() == 0 {
        Seq::empty()
    } else {
        match entries.last().1 {
            Pong::Failure => successes_of(entries.drop_last()),
            Pong::Success(latency) => successes_of(entries.drop_last()).push(
                (entries.len() - 1, latency),
            ),
        }
    }
}

/// `runs` are the maximal runs of consecutive successes of `entries`:
/// every run is a non-empty block of consecutive positions that all hold
/// successes, with a failure (or an end of `entries`) on either side, and
/// the runs come in chronological order.
pub open spec fn are_maximal_success_runs(
    entries: Seq<(u64, Pong)>,
    runs: Seq<Seq<(int, Duration)>>,
) -> bool {
    &&& forall|k: int| 0 <= k < runs.len() ==> (#[trigger] runs[k]).len() > 0
    &&& forall|k: int, j: int|
        0 <= k < runs.len() && 0 <= j < runs[k].len() ==> {
            let point = #[trigger] runs[k][j];
            &&& point.0 == runs[k][0].0 + j
            &&& 0 <= point.0 < entries.len()
            &&& entries[point.0].1 == Pong::Success(point.1)
        }
    &&& forall|k: int|
        0 <= k < runs.len() ==> {
            let first = (#[trigger] runs[k])[0].0;
            let last = runs[k].last().0;
            &&& first == 0 || entries[first - 1].1 is Failure
            &&& last == entries.len() - 1 || entries[last + 1].1 is Failure
        }
    &&& forall|k: int, l: int|
        0 <= k && l == k + 1 && l < runs.len() ==> (#[trigger] runs[k]).last().0 + 1 < (
        #[trigger] runs[l])[0].0
}

/// The plottable series of a history: the maximal runs of consecutive
/// successes among its last `window` entries, in chronological order.
/// Each point is the entry's position in the window and its latency.
pub fn history_segments(history: &Vec<(u64, Pong)>, window: usize) -> (segments: Vec<
    Vec<(usize, Duration)>,
>)
    ensures
        segments_view(segments@) == segments_of(windowed(history@, window as nat)),
        segments@.len() == segments_of(windowed(history@, window as nat)).len(),
        forall|k: int|
            0 <= k < segments@.len() ==> (#[trigger] segments@[k])@.len() == segments_of(
                windowed(history@, window as nat),
            )[k].len(),
        forall|k: int, j: int|
            0 <= k < segments@.len() && 0 <= j < segments@[k]@.len() ==> {
                let point = #[trigger] segments@[k]@[j];
                (point.0 as int, point.1) == segments_of(windowed(history@, window as nat))[k][j]
            },
{
    let total = history.len();
    let base = if total > window {
        total - window
    } else {
        0
    };
    let ghost entries = windowed(history@, window as nat);
    assert(entries =~= history@.skip(base as int));

    let mut keys: Vec<bool> = Vec::new();
    let mut i: usize = base;
    while i < total
        invariant
            base <= i <= total,
            total == history@.len(),
            entries == history@.skip(base as int),
            keys@.len() == i - base,
            forall|k: int| 0 <= k < keys@.len() ==> keys@[k] == ((#[trigger] entries[k]).1 is Success),
        decreases total - i,
    {
        keys.push(history[i].1.is_success());
        i += 1;
    }

    let groups = group_runs(&keys);
    let mut segments: Vec<Vec<(usize, Duration)>> = Vec::new();
    let ghost mut covered: int = 0;
    let mut g: usize = 0;
    assert(entries.take(0) =~= Seq::empty());
    proof {
        if groups@.len() > 0 {
            lemma_block(keys@, groups@, 0);
        }
    }
    while g < groups.len()
        invariant
            0 <= g <= groups@.len(),
            base <= total,
            total == history@.len(),
            entries == history@.skip(base as int),
            keys@.len() == entries.len(),
            forall|k: int| 0 <= k < keys@.len() ==> keys@[k] == ((#[trigger] entries[k]).1 is Success),
            is_run_grouping(keys@, groups@),
            g < groups@.len() ==> covered == block_start(groups@, g as int),
            g == groups@.len() ==> covered == keys@.len(),
            0 <= covered <= entries.len(),
            segments_view(segments@) == segments_of(entries.take(covered)),
        decreases groups@.len() - g,
    {
        let success = groups[g].0;
        let run = &groups[g].1;
        let ghost end = covered + run@.len();
        proof {
            lemma_block(keys@, groups@, g as int);
            if g + 1 < groups@.len() {
                lemma_block(keys@, groups@, g + 1);
            }
        }
        if success {
            let samples = sample_run(history, base, run);
            proof {
                lemma_successes_add_one_run(entries, covered, end);
            }
            let ghost shown = segments_view(segments@);
            segments.push(samples);
            assert(segments_view(segments@) =~= shown.push(run_of(entries, covered, end)));
        } else {
            proof {
                lemma_failures_extend_nothing(entries, covered, end);
            }
        }
        proof {
            covered = end;
        }
        g += 1;
    }
    assert(entries.take(covered) =~= entries);
    proof {
        let shown = segments_view(segments@);
        assert forall|k: int| 0 <= k < segments@.len() implies (#[trigger] segments@[k])@.len()
            == shown[k].len() by {
            assert(shown[k] == run_view(segments@[k]@));
        }
        assert forall|k: int, j: int|
            0 <= k < segments@.len() && 0 <= j < segments@[k]@.len() implies {
            let point = #[trigger] segments@[k]@[j];
            (point.0 as int, point.1) == shown[k][j]
        } by {
            assert(shown[k] == run_view(segments@[k]@));
        }
    }
    segments
}

/// Reads the points of one run of successes: `run` holds consecutive
/// positions of the window that starts at `base`.
fn sample_run(history: &Vec<(u64, Pong)>, base: usize, run: &Vec<usize>) -> (samples: Vec<
    (usize, Duration),
>)
    requires
        base <= history@.len(),
        run@.len() > 0,
        run@[0] + run@.len() <= history@.len() - base,
        forall|j: int| 0 <= j < run@.len() ==> (#[trigger] run@[j]) == run@[0] + j,
        forall|p: int|
            run@[0] <= p < run@[0] + run@.len() ==> (#[trigger] history@.skip(
                base as int,
            )[p]).1 is Success,
    ensures
        run_view(samples@) == run_of(
            history@.skip(base as int),
            run@[0] as int,
            run@[0] + run@.len(),
        ),
{
    let ghost entries = history@.skip(base as int);
    let ghost first = run@[0] as int;
    let total = history.len();
    let mut samples: Vec<(usize, Duration)> = Vec::new();
    let mut j: usize = 0;
    assert(run_view(samples@) =~= run_of(entries, first, first + 0));
    while j < run.len()
        invariant
            0 <= j <= run@.len(),
            base <= total == history@.len(),
            entries == history@.skip(base as int),
            first == run@[0],
            first + run@.len() <= history@.len() - base,
            forall|k: int| 0 <= k < run@.len() ==> (#[trigger] run@[k]) == first + k,
            forall|p: int| first <= p < first + run@.len() ==> (#[trigger] entries[p]).1 is Success,
            run_view(samples@) == run_of(entries, first, first + j),
        decreases run@.len() - j,
    {
        let at = run[j];
        assert(at == first + j);
        let entry = history[base + at];
        let ghost sampled = samples@;
        assert(entry == entries[first + j]);
        match entry.1 {
            Pong::Success(latency) => {
                samples.push((at, latency));
            },
            Pong::Failure => {
                assert(false);
            },
        }
        assert(samples@ == sampled.push((at, entries[first + j].1->Success_0)));
        assert(run_view(samples@) =~= run_view(sampled).push(
            (first + j, entries[first + j].1->Success_0),
        ));
        assert(run_view(samples@) =~= run_of(entries, first, first + j + 1));
        j += 1;
    }
    samples
}

/// The first position of block `g`.
pub open spec fn block_start(groups: Seq<(bool, Vec<usize>)>, g: int) -> int {
    groups[g].1@[0] as int
}

/// One past the last position of block `g`.
pub open spec fn block_end(groups: Seq<(bool, Vec<usize>)>, g: int) -> int {
    groups[g].1@.last() + 1
}

/// `groups` splits the positions `0..keys.len()` into consecutive blocks,
/// in order, such that all keys of a block equal the block's own key and
/// neighbouring blocks differ in key.
pub open spec fn is_run_grouping(keys: Seq<bool>, groups: Seq<(bool, Vec<usize>)>) -> bool {
    &&& groups.len() == 0 <==> keys.len() == 0
    &&& forall|g: int| 0 <= g < groups.len() ==> (#[trigger] groups[g]).1@.len() > 0
    &&& forall|g: int, j: int|
        0 <= g < groups.len() && 0 <= j < groups[g].1@.len() ==> {
            let at = #[trigger] groups[g].1@[j];
            &&& at == block_start(groups, g) + j
            &&& at < keys.len()
            &&& keys[at as int] == groups[g].0
        }
    &&& groups.len() > 0 ==> block_start(groups, 0) == 0 && block_end(
        groups,
        groups.len() - 1,
    ) == keys.len()
    &&& forall|g: int, h: int|
        0 <= g && h == g + 1 && h < groups.len() ==> {
            &&& block_start(groups, h) == block_end(groups, g)
            &&& (#[trigger] groups[g]).0 != (#[trigger] groups[h]).0
        }
}

/// Groups the positions of `keys` into runs of equal keys with
/// `Itertools::group_by`, as `(key, positions)` pairs.
///
/// Trusted: `group_by` puts consecutive elements that map to the same key
/// into one group and starts a new group exactly where the key changes, so
/// the groups, read in order, are the blocks that `is_run_grouping`
/// describes.
#[verifier::external_body]
fn group_runs(keys: &Vec<bool>) -> (groups: Vec<(bool, Vec<usize>)>)
    ensures
        is_run_grouping(keys@, groups@),
{
    let grouped = keys.iter().enumerate().group_by(|(_, key)| **key);
    grouped.into_iter().map(|(key, run)| (key, run.map(|(at, _)| at).collect())).collect()
}

/// What `is_run_grouping` says of one block: where it lies, what its keys
/// are, and how it meets its neighbours.
proof fn lemma_block(keys: Seq<bool>, groups: Seq<(bool, Vec<usize>)>, g: int)
    requires
        is_run_grouping(keys, groups),
        0 <= g < groups.len(),
    ensures
        0 <= block_start(groups, g) < block_end(groups, g) <= keys.len(),
        block_end(groups, g) == block_start(groups, g) + groups[g].1@.len(),
        forall|j: int|
            0 <= j < groups[g].1@.len() ==> (#[trigger] groups[g].1@[j]) == block_start(groups, g)
                + j,
        forall|p: int|
            block_start(groups, g) <= p < block_end(groups, g) ==> (#[trigger] keys[p])
                == groups[g].0,
        g == 0 ==> block_start(groups, g) == 0,
        g > 0 ==> block_start(groups, g) == block_end(groups, g - 1) && keys[block_start(groups, g)
            - 1] != groups[g].0,
        g + 1 == groups.len() ==> block_end(groups, g) == keys.len(),
{
    let run = groups[g].1@;
    let start = block_start(groups, g);
    assert(run.len() > 0);
    assert(run[run.len() - 1] == start + (run.len() - 1));
    assert forall|p: int| start <= p < block_end(groups, g) implies (#[trigger] keys[p])
        == groups[g].0 by {
        assert(run[p - start] == p);
    }
    if g > 0 {
        let earlier = groups[g - 1];
        assert(earlier.0 != groups[g].0);
        assert(earlier.1@.len() > 0);
        assert(earlier.1@[earlier.1@.len() - 1] == start - 1);
    }
}

/// The window holds the last `window` entries of the history, in the
/// history's order, and all of it when the history is no longer than that.
pub proof fn lemma_windowed(history: Seq<(u64, Pong)>, window: nat)
    ensures
        windowed(history, window).len() == if history.len() > window {
            window
        } else {
            history.len()
        },
        forall|i: int|
            0 <= i < windowed(history, window).len() ==> (#[trigger] windowed(history, window)[i])
                == history[history.len() - windowed(history, window).len() + i],
{
}

/// Failures add nothing: if the entries at `from..to` all failed, the
/// segments of the first `to` entries are those of the first `from`.
pub proof fn lemma_failures_extend_nothing(entries: Seq<(u64, Pong)>, from: int, to: int)
    requires
        0 <= from <= to <= entries.len(),
        forall|i: int| from <= i < to ==> (#[trigger] entries[i]).1 is Failure,
    ensures
        segments_of(entries.take(to)) == segments_of(entries.take(from)),
    decreases to - from,
{
    if from < to {
        assert(entries.take(to).drop_last() =~= entries.take(to - 1));
        assert(entries.take(to).last() == entries[to - 1]);
        lemma_failures_extend_nothing(entries, from, to - 1);
    }
}

/// A block of successes that starts the sequence or follows a failure adds
/// exactly one run, made of the block's points.
pub proof fn lemma_successes_add_one_run(entries: Seq<(u64, Pong)>, from: int, to: int)
    requires
        0 <= from < to <= entries.len(),
        forall|i: int| from <= i < to ==> (#[trigger] entries[i]).1 is Success,
        from > 0 ==> entries[from - 1].1 is Failure,
    ensures
        segments_of(entries.take(to)) == segments_of(entries.take(from)).push(
            run_of(entries, from, to),
        ),
    decreases to - from,
{
    let upto = entries.take(to);
    assert(upto.drop_last() =~= entries.take(to - 1));
    assert(upto.last() == entries[to - 1]);
    if to == from + 1 {
        assert(from > 0 ==> upto[from - 1] == entries[from - 1]);
        assert(run_of(entries, from, to) =~= seq![(from, entries[from].1->Success_0)]);
    } else {
        lemma_successes_add_one_run(entries, from, to - 1);
        let before = segments_of(entries.take(to - 1));
        let earlier = segments_of(entries.take(from));
        assert(upto[to - 2] == entries[to - 2]);
        assert(before.drop_last() =~= earlier);
        assert(before.last() == run_of(entries, from, to - 1));
        assert(run_of(entries, from, to - 1).push((to - 1, entries[to - 1].1->Success_0))
            =~= run_of(entries, from, to));
    }
}

/// The runs that the segmenter emits are exactly the maximal runs of
/// consecutive successes; the last run reaches the end of `entries` when
/// the last entry is a success.
pub proof fn lemma_segments_are_maximal_runs(entries: Seq<(u64, Pong)>)
    ensures
        are_maximal_success_runs(entries, segments_of(entries)),
        entries.len() > 0 && entries.last().1 is Success ==> segments_of(entries).len() > 0
            && segments_of(entries).last().last().0 == entries.len() - 1,
    decreases entries.len(),
{
    if entries.len() > 0 {
        let earlier = entries.drop_last();
        let before = segments_of(earlier);
        let runs = segments_of(entries);
        let at = entries.len() - 1;
        lemma_segments_are_maximal_runs(earlier);
        assert(forall|i: int| 0 <= i < at ==> earlier[i] == entries[i]);
        match entries.last().1 {
            Pong::Failure => {
                assert(runs == before);
            },
            Pong::Success(latency) => {
                if at > 0 && entries[at - 1].1 is Success {
                    assert(earlier.last() == entries[at - 1]);
                    let open_run = before.last();
                    let grown = open_run.push((at, latency));
                    assert(runs == before.drop_last().push(grown));
                    assert(open_run.last().0 == at - 1);
                    assert(open_run[open_run.len() - 1].0 == open_run[0].0 + (open_run.len() - 1));
                    assert forall|k: int| 0 <= k < runs.len() - 1 implies #[trigger] runs[k]
                        == before[k] by {}
                    assert forall|k: int, j: int|
                        0 <= k < runs.len() && 0 <= j < runs[k].len() implies {
                        let point = #[trigger] runs[k][j];
                        &&& point.0 == runs[k][0].0 + j
                        &&& 0 <= point.0 < entries.len()
                        &&& entries[point.0].1 == Pong::Success(point.1)
                    } by {
                        if k < runs.len() - 1 {
                            assert(runs[k][j] == before[k][j]);
                        } else if j < open_run.len() {
                            assert(runs[k][j] == open_run[j]);
                        }
                    }
                    assert forall|k: int| 0 <= k < runs.len() implies {
                        let first = (#[trigger] runs[k])[0].0;
                        let last = runs[k].last().0;
                        &&& first == 0 || entries[first - 1].1 is Failure
                        &&& last == entries.len() - 1 || entries[last + 1].1 is Failure
                    } by {
                        if k < runs.len() - 1 {
                            assert(runs[k] == before[k]);
                            assert(before[k].last().0 + 1 < before[k + 1][0].0);
                            assert(before[k + 1][0].0 < earlier.len());
                        } else {
                            assert(runs[k][0] == open_run[0]);
                        }
                    }
                    assert forall|k: int, l: int|
                        0 <= k && l == k + 1 && l < runs.len() implies (#[trigger] runs[k]).last().0
                        + 1 < (#[trigger] runs[l])[0].0 by {
                        assert(runs[k] == before[k]);
                        assert(before[k].last().0 + 1 < before[l][0].0);
                        if l == runs.len() - 1 {
                            assert(runs[l][0] == open_run[0]);
                        } else {
                            assert(runs[l] == before[l]);
                        }
                    }
                } else {
                    let fresh = seq![(at, latency)];
                    assert(runs == before.push(fresh));
                    assert forall|k: int| 0 <= k < runs.len() - 1 implies #[trigger] runs[k]
                        == before[k] by {}
                    if before.len() > 0 {
                        let closed = before.last();
                        let end = closed[closed.len() - 1];
                        assert(entries[end.0].1 is Success);
                        assert(end.0 < at - 1 || end.0 == at - 1);
                        assert(end.0 + 1 < at);
                    }
                    assert forall|k: int, j: int|
                        0 <= k < runs.len() && 0 <= j < runs[k].len() implies {
                        let point = #[trigger] runs[k][j];
                        &&& point.0 == runs[k][0].0 + j
                        &&& 0 <= point.0 < entries.len()
                        &&& entries[point.0].1 == Pong::Success(point.1)
                    } by {
                        if k < runs.len() - 1 {
                            assert(runs[k][j] == before[k][j]);
                        }
                    }
                    assert forall|k: int| 0 <= k < runs.len() implies {
                        let first = (#[trigger] runs[k])[0].0;
                        let last = runs[k].last().0;
                        &&& first == 0 || entries[first - 1].1 is Failure
                        &&& last == entries.len() - 1 || entries[last + 1].1 is Failure
                    } by {
                        if k < runs.len() - 1 {
                            assert(runs[k] == before[k]);
                            if k + 1 < before.len() {
                                assert(before[k].last().0 + 1 < before[k + 1][0].0);
                                assert(before[k + 1][0].0 < earlier.len());
                            }
                        }
                    }
                    assert forall|k: int, l: int|
                        0 <= k && l == k + 1 && l < runs.len() implies (#[trigger] runs[k]).last().0
                        + 1 < (#[trigger] runs[l])[0].0 by {
                        assert(runs[k] == before[k]);
                        if l < runs.len() - 1 {
                            assert(runs[l] == before[l]);
                            assert(before[k].last().0 + 1 < before[l][0].0);
                        }
                    }
                }
            },
        }
    }
}

/// No run holds a failure: every point of every emitted run is the
/// position and the latency of a successful entry.
pub proof fn lemma_segments_hold_only_successes(entries: Seq<(u64, Pong)>, k: int, j: int)
    requires
        0 <= k < segments_of(entries).len(),
        0 <= j < segments_of(entries)[k].len(),
    ensures
        0 <= segments_of(entries)[k][j].0 < entries.len(),
        entries[segments_of(entries)[k][j].0].1 == Pong::Success(segments_of(entries)[k][j].1),
        !(entries[segments_of(entries)[k][j].0].1 is Failure),
{
    lemma_segments_are_maximal_runs(entries);
}

/// The successes listed by `successes_of` are entries of `entries` that
/// succeeded, in strictly increasing position.
pub proof fn lemma_successes_are_ordered(entries: Seq<(u64, Pong)>)
    ensures
        forall|a: int|
            0 <= a < successes_of(entries).len() ==> {
                let point = #[trigger] successes_of(entries)[a];
                &&& 0 <= point.0 < entries.len()
                &&& entries[point.0].1 == Pong::Success(point.1)
            },
        forall|a: int, b: int|
            0 <= a < b < successes_of(entries).len() ==> (#[trigger] successes_of(entries)[a]).0 < (
            #[trigger] successes_of(entries)[b]).0,
    decreases entries.len(),
{
    if entries.len() > 0 {
        let earlier = entries.drop_last();
        lemma_successes_are_ordered(earlier);
        assert(forall|i: int| 0 <= i < earlier.len() ==> earlier[i] == entries[i]);
        let listed = successes_of(entries);
        let before = successes_of(earlier);
        assert forall|a: int| 0 <= a < listed.len() implies {
            let point = #[trigger] listed[a];
            &&& 0 <= point.0 < entries.len()
            &&& entries[point.0].1 == Pong::Success(point.1)
        } by {
            if a < before.len() {
                assert(listed[a] == before[a]);
            }
        }
        assert forall|a: int, b: int| 0 <= a < b < listed.len() implies (#[trigger] listed[a]).0 < (
        #[trigger] listed[b]).0 by {
            assert(listed[a] == before[a]);
            if b < before.len() {
                assert(listed[b] == before[b]);
            }
        }
    }
}

/// The emitted runs, laid end to end, are the successful entries in
/// chronological order: nothing is added, repeated, reordered or lost.
pub proof fn lemma_segments_concatenate_to_successes(entries: Seq<(u64, Pong)>)
    ensures
        segments_of(entries).flatten() == successes_of(entries),
    decreases entries.len(),
{
    broadcast use Seq::lemma_flatten_push;

    if entries.len() == 0 {
        assert(segments_of(entries).flatten() =~= Seq::empty());
    } else {
        let earlier = entries.drop_last();
        let before = segments_of(earlier);
        let at = entries.len() - 1;
        lemma_segments_concatenate_to_successes(earlier);
        match entries.last().1 {
            Pong::Failure => {},
            Pong::Success(latency) => {
                if at > 0 && entries[at - 1].1 is Success {
                    lemma_segments_are_maximal_runs(earlier);
                    assert(earlier.last() == entries[at - 1]);
                    let closed = before.drop_last();
                    let open_run = before.last();
                    assert(before =~= closed.push(open_run));
                    assert(closed.push(open_run.push((at, latency))).flatten() =~= (closed.flatten()
                        + open_run).push((at, latency)));
                }
            },
        }
    }
}

} // verus!
