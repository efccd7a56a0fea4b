//! Historical replay of one file's lines.
//!
//! Each line first moves the per-file clock (see [`crate::infer`]), then is
//! scanned for events under the clock just inferred.  The clock starts at
//! the wall-clock time of discovery, so even a file without a single marker
//! yields plausible recent timestamps.

use vstd::prelude::*;

use crate::clock::{spec_epoch_seconds, ClockState};
use crate::db_util::UrlCtx;
use crate::extract::{harvest_line, spec_blacklisted, LinePatterns};
use crate::infer::{clock_step, spec_clock_step};
use crate::text::str_views;

verus! {

/// The clock after running every line through the detection patterns.
pub open spec fn spec_clock_fold(c: ClockState, lines: Seq<String>) -> ClockState
    decreases lines.len(),
{
    if lines.len() == 0 {
        c
    } else {
        spec_clock_step(spec_clock_fold(c, lines.drop_last()), lines.last()@)
    }
}

/// A well-formed clock stays well formed under any sequence of lines.
pub proof fn lemma_clock_fold_wf(c: ClockState, lines: Seq<String>)
    requires
        c.wf(),
    ensures
        spec_clock_fold(c, lines).wf(),
    decreases lines.len(),
{
    if lines.len() > 0 {
        lemma_clock_fold_wf(c, lines.drop_last());
        crate::infer::lemma_clock_step_wf(spec_clock_fold(c, lines.drop_last()), lines.last()@);
    }
}

/// Event `k` is cut from its source line: `cuts[k]` names a span of line
/// `src[k]` (one-based) and the event's URL is exactly that span.
pub open spec fn spec_event_sourced(
    events: Seq<UrlCtx>,
    src: Seq<int>,
    cuts: Seq<(int, int)>,
    lines: Seq<String>,
    k: int,
) -> bool {
    &&& 0 <= cuts[k].0 <= cuts[k].1 <= lines[src[k] - 1]@.len()
    &&& events[k]@.url == lines[src[k] - 1]@.subrange(cuts[k].0, cuts[k].1)
}

/// The events of lines one through `upto`, each tied to the line it came
/// from: `src` maps each event, in order, to the one-based index of its
/// line and `cuts` to a span of that line; the assignment never goes
/// backwards; the event is stamped with the epoch seconds of the clock
/// inferred from the lines up to and including its own; and its URL is the
/// named span of its line.
pub open spec fn spec_replay_sourced(
    events: Seq<UrlCtx>,
    src: Seq<int>,
    cuts: Seq<(int, int)>,
    clock0: ClockState,
    lines: Seq<String>,
    upto: int,
) -> bool {
    &&& src.len() == events.len()
    &&& cuts.len() == events.len()
    &&& forall|k: int| 0 <= k < src.len() ==> 1 <= #[trigger] src[k] <= upto
    &&& forall|k: int| 0 <= k < src.len() - 1 ==> #[trigger] src[k] <= src[k + 1]
    &&& forall|k: int|
        0 <= k < src.len() ==> (#[trigger] events[k])@.ts == spec_epoch_seconds(
            spec_clock_fold(clock0, lines.take(src[k])),
        )
    &&& forall|k: int|
        0 <= k < src.len() ==> #[trigger] spec_event_sourced(events, src, cuts, lines, k)
}

/// Some assignment of source lines and spans ties every event to the line
/// it came from, as [`spec_replay_sourced`] demands.
pub open spec fn spec_replay_attributed(
    events: Seq<UrlCtx>,
    clock0: ClockState,
    lines: Seq<String>,
) -> bool {
    exists|src: Seq<int>, cuts: Seq<(int, int)>|
        spec_replay_sourced(events, src, cuts, clock0, lines, lines.len() as int)
}

/// Replays one file: every line updates the clock, is stamped with the
/// epoch seconds of the clock just inferred, and yields its events.
///
/// The final clock is exactly the fold of the detection rules over the
/// lines.  Every event belongs to the given channel and no event's URL is
/// blacklisted; and some line assignment ties each event, in line order, to
/// the clock inferred from the lines up to its own and to a URL cut from
/// that line.
pub fn replay_file(
    clock0: ClockState,
    lines: &Vec<String>,
    pats: &LinePatterns,
    chan: &String,
    blacklist: &Vec<String>,
) -> (r: (Vec<UrlCtx>, ClockState))
    requires
        clock0.wf(),
    ensures
        r.1 == spec_clock_fold(clock0, lines@),
        r.1.wf(),
        forall|k: int|
            0 <= k < r.0@.len() ==> (#[trigger] r.0@[k])@.chan == chan@ && !spec_blacklisted(
                r.0@[k]@.url,
                str_views(blacklist@),
            ),
        spec_replay_attributed(r.0@, clock0, lines@),
{
    let mut clock = clock0;
    let mut events: Vec<UrlCtx> = Vec::new();
    let ghost mut src: Seq<int> = Seq::empty();
    let ghost mut cuts: Seq<(int, int)> = Seq::empty();
    let mut i: usize = 0;
    while i < lines.len()
        invariant
            clock0.wf(),
            clock.wf(),
            clock == spec_clock_fold(clock0, lines@.take(i as int)),
            i <= lines@.len(),
            forall|k: int|
                0 <= k < events@.len() ==> (#[trigger] events@[k])@.chan == chan@
                    && !spec_blacklisted(events@[k]@.url, str_views(blacklist@)),
            spec_replay_sourced(events@, src, cuts, clock0, lines@, i as int),
        decreases lines@.len() - i,
    {
        proof {
            assert(lines@.take(i + 1).drop_last() =~= lines@.take(i as int));
            assert(lines@.take(i + 1).last() == lines@[i as int]);
        }
        clock = clock_step(clock, lines[i].as_str());
        let ts = clock.epoch_seconds();
        let mut line_events = harvest_line(pats, ts, chan, lines[i].as_str(), blacklist);
        let ghost fresh = line_events@;
        let ghost done = events@;
        events.append(&mut line_events);
        proof {
            let line_no = i as int + 1;
            let line_view = lines@[i as int]@;
            let old_src = src;
            let old_cuts = cuts;
            src = src + Seq::new(fresh.len(), |t: int| line_no);
            cuts = cuts + Seq::new(
                fresh.len(),
                |t: int|
                    choose|ab: (int, int)|
                        0 <= ab.0 <= ab.1 <= line_view.len() && fresh[t]@.url
                            == #[trigger] line_view.subrange(ab.0, ab.1),
            );
            assert(events@ =~= done + fresh);
            assert forall|k: int| 0 <= k < src.len() implies 1 <= #[trigger] src[k] <= i + 1 by {
                if k >= done.len() {
                    assert(src[k] == line_no);
                }
            }
            assert forall|k: int| 0 <= k < src.len() - 1 implies #[trigger] src[k] <= src[k
                + 1] by {
                if k + 1 >= done.len() {
                    assert(src[k + 1] == line_no);
                    assert(src[k] <= i + 1);
                }
            }
            assert forall|k: int|
                0 <= k < src.len() implies (#[trigger] events@[k])@.ts == spec_epoch_seconds(
                spec_clock_fold(clock0, lines@.take(src[k])),
            ) by {
                if k < done.len() {
                    assert(events@[k] == done[k]);
                } else {
                    assert(src[k] == line_no);
                    assert(events@[k] == fresh[k - done.len()]);
                    assert(fresh[k - done.len()]@.ts == ts);
                }
            }
            assert forall|k: int|
                0 <= k < src.len() implies #[trigger] spec_event_sourced(
                events@,
                src,
                cuts,
                lines@,
                k,
            ) by {
                if k < done.len() {
                    assert(events@[k] == done[k]);
                    assert(src[k] == old_src[k] && cuts[k] == old_cuts[k]);
                    assert(spec_event_sourced(done, old_src, old_cuts, lines@, k));
                } else {
                    assert(src[k] == line_no);
                    assert(events@[k] == fresh[k - done.len()]);
                    let t = k - done.len();
                    let ev = fresh[t];
                    let (a0, b0) = choose|a: int, b: int|
                        0 <= a <= b <= line_view.len() && ev@.url == #[trigger] line_view.subrange(
                            a,
                            b,
                        );
                    assert(0 <= a0 <= b0 <= line_view.len() && ev@.url == line_view.subrange(
                        a0,
                        b0,
                    ));
                    let ab0 = (a0, b0);
                    assert(0 <= ab0.0 <= ab0.1 <= line_view.len() && fresh[t]@.url
                        == line_view.subrange(ab0.0, ab0.1));
                    assert(exists|ab: (int, int)|
                        0 <= ab.0 <= ab.1 <= line_view.len() && fresh[t]@.url
                            == #[trigger] line_view.subrange(ab.0, ab.1));
                    assert(cuts[k] == choose|ab: (int, int)|
                        0 <= ab.0 <= ab.1 <= line_view.len() && fresh[t]@.url
                            == #[trigger] line_view.subrange(ab.0, ab.1));
                    assert(lines@[src[k] - 1]@ == line_view);
                }
            }
            assert(spec_replay_sourced(events@, src, cuts, clock0, lines@, i as int + 1));
        }
        i = i + 1;
    }
    proof {
        assert(lines@.take(lines@.len() as int) =~= lines@);
        assert(spec_replay_sourced(events@, src, cuts, clock0, lines@, lines@.len() as int));
        assert(spec_replay_attributed(events@, clock0, lines@)) by {
            assert(spec_replay_sourced(events@, src, cuts, clock0, lines@, lines@.len() as int));
        };
    }
    (events, clock)
}

} // verus!
