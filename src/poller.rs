use vstd::prelude::*;
use crate::clock::current_unix_time;
use crate::store::{
    apply_heartbeats, events_of, has_bucket, lemma_identical_heartbeats_merge, merge_heartbeat, merges, with_events,
    MemoryStore,
};
use crate::track::{event_of, opt_view, record_track, text_eq, translate, Event, EventView, Track, TrackRecord, TrackView};

verus! {

/// What one "now playing" query gave.
#[derive(Debug)]
pub enum FetchOutcome {
    /// Timeout, connection failure, or a response that could not be read.
    Failed,
    /// The recent-tracks records, newest first.
    Fetched(Vec<TrackRecord>),
}

/// What a tick observed.
#[derive(Debug)]
pub enum TickStatus {
    FetchError,
    NoTrackPlaying,
    TrackPlaying(Track),
}

/// What a tick asks of the store.
#[derive(Debug)]
pub enum TickAction {
    /// Nothing is sent this tick.
    Skip,
    /// Send `event` as a heartbeat with the given pulsewidth (seconds).
    Heartbeat { event: Event, pulsewidth: u64 },
}

/// The marker of live playback is the exact text `true`.
pub open spec fn marks_playing(marker: Option<String>) -> bool {
    opt_view(marker) == Some("true"@)
}

/// The track being played according to a fetched listing: its newest record,
/// when that record carries the live-playback marker. An empty listing means
/// nothing is playing.
pub open spec fn playing_track(records: Seq<TrackRecord>) -> Option<TrackView> {
    if records.len() > 0 && marks_playing(records[0].now_playing) {
        Some(record_track(records[0]))
    } else {
        None
    }
}

pub fn is_now_playing(marker: &Option<String>) -> (r: bool)
    ensures
        r == marks_playing(*marker),
{
    match marker {
        Some(m) => text_eq(m.as_str(), "true"),
        None => false,
    }
}

/// Classifies the result of a "now playing" query.
pub fn classify(outcome: &FetchOutcome) -> (s: TickStatus)
    ensures
        outcome is Failed <==> s is FetchError,
        outcome matches FetchOutcome::Fetched(recs) ==> match playing_track(recs@) {
            Some(t) => s matches TickStatus::TrackPlaying(tr) && tr@ == t,
            None => s is NoTrackPlaying,
        },
{
    match outcome {
        FetchOutcome::Failed => TickStatus::FetchError,
        FetchOutcome::Fetched(recs) => {
            if recs.len() > 0 && is_now_playing(&recs[0].now_playing) {
                TickStatus::TrackPlaying(recs[0].track())
            } else {
                TickStatus::NoTrackPlaying
            }
        },
    }
}

/// The live tracking loop's decisions. The heartbeat's duration and
/// pulsewidth are both the polling interval, so that consecutive identical
/// observations merge into one interval in the store.
#[derive(Debug)]
pub struct Poller {
    pub polling_interval: u64,
}

impl Poller {
    /// The heartbeat a tick at unix second `now` sends: the playing track,
    /// starting now, lasting one polling interval (when its end is representable).
    pub open spec fn planned(&self, outcome: &FetchOutcome, now: u64) -> Option<EventView> {
        match outcome {
            FetchOutcome::Failed => None,
            FetchOutcome::Fetched(recs) => match playing_track(recs@) {
                None => None,
                Some(t) => if now + self.polling_interval <= u64::MAX {
                    Some(event_of(t, now as int, self.polling_interval as int))
                } else {
                    None
                },
            },
        }
    }

    /// `a` is the action owed for the tick.
    pub open spec fn acts(&self, outcome: &FetchOutcome, now: u64, a: TickAction) -> bool {
        match self.planned(outcome, now) {
            None => a is Skip,
            Some(e) => a matches TickAction::Heartbeat { event, pulsewidth } && pulsewidth == self.polling_interval
                && event@ == e,
        }
    }

    pub fn new(polling_interval: u64) -> (p: Poller)
        ensures
            p.polling_interval == polling_interval,
    {
        Poller { polling_interval }
    }

    /// Decides one tick observed at unix second `now`. A failed fetch, or a
    /// listing without live playback, sends nothing; there is no terminal
    /// action, so the loop always goes on to the next tick.
    pub fn on_tick(&self, outcome: &FetchOutcome, now: u64) -> (a: TickAction)
        ensures
            outcome is Failed ==> a is Skip,
            outcome matches FetchOutcome::Fetched(recs) && playing_track(recs@) is None ==> a is Skip,
            self.acts(outcome, now, a),
    {
        match classify(outcome) {
            TickStatus::TrackPlaying(track) => {
                if now <= u64::MAX - self.polling_interval {
                    let event = translate(&track, now, self.polling_interval);
                    TickAction::Heartbeat { event, pulsewidth: self.polling_interval }
                } else {
                    TickAction::Skip
                }
            },
            _ => TickAction::Skip,
        }
    }

    /// Decides one tick at the current time. Whatever the clock says, a
    /// heartbeat carries the playing track and the polling interval as its
    /// pulsewidth, and nothing is sent without a playing track.
    pub fn on_tick_now(&self, outcome: &FetchOutcome) -> (a: TickAction)
        ensures
            outcome is Failed ==> a is Skip,
            outcome matches FetchOutcome::Fetched(recs) ==> match playing_track(recs@) {
                None => a is Skip,
                Some(t) => a matches TickAction::Heartbeat { event, pulsewidth } ==> pulsewidth
                    == self.polling_interval && event@.data == t && event@.duration == self.polling_interval,
            },
    {
        let now = current_unix_time();
        if now < 0 {
            TickAction::Skip
        } else {
            self.on_tick(outcome, now as u64)
        }
    }

    /// Decides one tick and applies its action to `store`'s bucket `bucket_id`.
    pub fn apply_tick(&self, store: &mut MemoryStore, bucket_id: &str, outcome: &FetchOutcome, now: u64) -> (a:
        TickAction)
        requires
            old(store).wf(),
        ensures
            final(store).wf(),
            self.acts(outcome, now, a),
            a is Skip ==> final(store).spec_buckets() == old(store).spec_buckets(),
            has_bucket(old(store).spec_buckets(), bucket_id@) ==> final(store).spec_buckets() == with_events(
                old(store).spec_buckets(),
                bucket_id@,
                run_ticks(*self, events_of(old(store).spec_buckets(), bucket_id@), seq![(*outcome, now)]),
            ),
            a matches TickAction::Heartbeat { event, pulsewidth } ==> if has_bucket(
                old(store).spec_buckets(),
                bucket_id@,
            ) {
                final(store).spec_buckets() == with_events(
                    old(store).spec_buckets(),
                    bucket_id@,
                    merge_heartbeat(events_of(old(store).spec_buckets(), bucket_id@), event@, pulsewidth as int),
                )
            } else {
                final(store).spec_buckets() == old(store).spec_buckets()
            },
    {
        let a = self.on_tick(outcome, now);
        proof {
            let one = seq![(*outcome, now)];
            assert(one.drop_last() =~= Seq::<(FetchOutcome, u64)>::empty());
            assert(one.last() == (*outcome, now));
            let old_bs = old(store).spec_buckets();
            if has_bucket(old_bs, bucket_id@) {
                let ev = events_of(old_bs, bucket_id@);
                assert(run_ticks(*self, ev, one.drop_last()) == ev);
                if a is Skip {
                    assert(self.planned(outcome, now) is None);
                    assert(run_ticks(*self, ev, one) == ev);
                }
                assert(old_bs =~= with_events(old_bs, bucket_id@, ev));
            }
        }
        match a {
            TickAction::Skip => TickAction::Skip,
            TickAction::Heartbeat { event, pulsewidth } => {
                let sent = event.duplicate();
                let _ = store.heartbeat(bucket_id, sent, pulsewidth);
                TickAction::Heartbeat { event, pulsewidth }
            },
        }
    }
}

/// The events of a bucket after the ticks `ticks` (each an outcome and the
/// unix second it was observed at), in order, each sending the heartbeat
/// that `p` plans for it.
pub open spec fn run_ticks(p: Poller, events: Seq<EventView>, ticks: Seq<(FetchOutcome, u64)>) -> Seq<EventView>
    decreases ticks.len(),
{
    if ticks.len() == 0 {
        events
    } else {
        let before = run_ticks(p, events, ticks.drop_last());
        match p.planned(&ticks.last().0, ticks.last().1) {
            None => before,
            Some(e) => merge_heartbeat(before, e, p.polling_interval as int),
        }
    }
}

/// The tick reports `t` as playing at a second whose heartbeat end is representable.
pub open spec fn tick_plays(p: Poller, tick: (FetchOutcome, u64), t: TrackView) -> bool {
    &&& tick.0 matches FetchOutcome::Fetched(recs) && playing_track(recs@) == Some(t)
    &&& tick.1 + p.polling_interval <= u64::MAX
}

proof fn lemma_run_is_heartbeats(p: Poller, events: Seq<EventView>, ticks: Seq<(FetchOutcome, u64)>, t: TrackView)
    requires
        forall|k: int| 0 <= k < ticks.len() ==> tick_plays(p, #[trigger] ticks[k], t),
    ensures
        run_ticks(p, events, ticks) == apply_heartbeats(
            events,
            Seq::new(ticks.len(), |k: int| event_of(t, ticks[k].1 as int, p.polling_interval as int)),
            p.polling_interval as int,
        ),
    decreases ticks.len(),
{
    let hbs = Seq::new(ticks.len(), |k: int| event_of(t, ticks[k].1 as int, p.polling_interval as int));
    if ticks.len() > 0 {
        let pre = ticks.drop_last();
        assert forall|k: int| 0 <= k < pre.len() implies tick_plays(p, #[trigger] pre[k], t) by {
            assert(pre[k] == ticks[k]);
            assert(tick_plays(p, ticks[k], t));
        }
        lemma_run_is_heartbeats(p, events, pre, t);
        assert(hbs.drop_last() =~= Seq::new(pre.len(), |k: int| event_of(t, pre[k].1 as int, p.polling_interval as int)));
        assert(tick_plays(p, ticks[ticks.len() - 1], t));
    } else {
        assert(hbs =~= Seq::<EventView>::empty());
    }
}

/// Ticks that all find the same track playing, in time order, each at most
/// one polling interval after the previous, make exactly one new event in
/// the bucket: it starts at the first tick and ends one polling interval
/// after the last. The events before it stay as they were.
pub proof fn lemma_identical_ticks_merge(p: Poller, events: Seq<EventView>, ticks: Seq<(FetchOutcome, u64)>, t: TrackView)
    requires
        ticks.len() > 0,
        forall|k: int| 0 <= k < ticks.len() ==> tick_plays(p, #[trigger] ticks[k], t),
        forall|j: int, k: int| 0 <= j <= k < ticks.len() ==> ticks[j].1 <= ticks[k].1,
        forall|k: int| 0 <= k < ticks.len() - 1 ==> #[trigger] ticks[k + 1].1 <= ticks[k].1 + p.polling_interval,
        !(events.len() > 0 && merges(
            events.last(),
            event_of(t, ticks[0].1 as int, p.polling_interval as int),
            p.polling_interval as int,
        )),
    ensures
        run_ticks(p, events, ticks) == events.push(
            event_of(t, ticks[0].1 as int, ticks.last().1 + p.polling_interval - ticks[0].1),
        ),
{
    let d = p.polling_interval as int;
    let hbs = Seq::new(ticks.len(), |k: int| event_of(t, ticks[k].1 as int, d));
    lemma_run_is_heartbeats(p, events, ticks, t);
    assert forall|k: int| 0 <= k < hbs.len() implies (#[trigger] hbs[k]).wf() && hbs[k].data == hbs[0].data
        && hbs[k].duration == hbs[0].duration by {
        assert(tick_plays(p, ticks[k], t));
    }
    assert forall|k: int| 0 <= k < hbs.len() - 1 implies #[trigger] hbs[k + 1].timestamp <= hbs[k].timestamp + d by {
        assert(ticks[k + 1].1 <= ticks[k].1 + p.polling_interval);
    }
    lemma_identical_heartbeats_merge(events, hbs, d);
    assert(event_of(t, ticks[0].1 as int, ticks.last().1 + p.polling_interval - ticks[0].1) == EventView {
        timestamp: hbs[0].timestamp,
        duration: hbs.last().end() - hbs[0].timestamp,
        data: hbs[0].data,
    });
}

/// A tick that finds a different track playing than the previous tick sent
/// appends a new event starting at that tick; every earlier event, the one
/// built by the previous run included, stays unchanged.
pub proof fn lemma_track_change_new_event(
    p: Poller,
    events: Seq<EventView>,
    ticks: Seq<(FetchOutcome, u64)>,
    next: (FetchOutcome, u64),
    a: TrackView,
    b: TrackView,
)
    requires
        ticks.len() > 0,
        tick_plays(p, ticks.last(), a),
        tick_plays(p, next, b),
        a != b,
    ensures
        run_ticks(p, events, ticks.push(next)) == run_ticks(p, events, ticks).push(
            event_of(b, next.1 as int, p.polling_interval as int),
        ),
{
    let before = run_ticks(p, events, ticks.drop_last());
    let e = event_of(a, ticks.last().1 as int, p.polling_interval as int);
    assert(run_ticks(p, events, ticks) == merge_heartbeat(before, e, p.polling_interval as int));
    assert(run_ticks(p, events, ticks).last().data == a);
    assert(ticks.push(next).drop_last() =~= ticks);
    assert(ticks.push(next).last() == next);
}

/// A tick whose fetch failed sends nothing: the bucket ends as if the tick
/// had never happened, whatever ticks come before and after it.
pub proof fn lemma_failed_tick_is_skipped(
    p: Poller,
    events: Seq<EventView>,
    before: Seq<(FetchOutcome, u64)>,
    now: u64,
    after: Seq<(FetchOutcome, u64)>,
)
    ensures
        run_ticks(p, events, before.push((FetchOutcome::Failed, now)) + after) == run_ticks(p, events, before + after),
    decreases after.len(),
{
    let failed = before.push((FetchOutcome::Failed, now));
    if after.len() == 0 {
        assert(failed + after =~= failed);
        assert(before + after =~= before);
        assert(failed.drop_last() =~= before);
    } else {
        lemma_failed_tick_is_skipped(p, events, before, now, after.drop_last());
        assert((failed + after).drop_last() =~= failed + after.drop_last());
        assert((before + after).drop_last() =~= before + after.drop_last());
        assert((failed + after).last() == after.last());
        assert((before + after).last() == after.last());
    }
}

/// Milliseconds to wait before tick `tick` (counted from zero) of a loop that
/// started at `start_ms` with period `period_ms`: ticks are due on a fixed
/// grid measured from the start, and a tick already due fires at once.
pub fn delay_before_tick(start_ms: u64, period_ms: u64, tick: u64, now_ms: u64) -> (d: u64)
    requires
        start_ms + tick * period_ms <= u64::MAX,
    ensures
        now_ms >= start_ms + tick * period_ms ==> d == 0,
        now_ms < start_ms + tick * period_ms ==> d == start_ms + tick * period_ms - now_ms,
{
    assert(0 <= tick * period_ms) by (nonlinear_arith);
    let due = start_ms + tick * period_ms;
    if now_ms >= due {
        0
    } else {
        due - now_ms
    }
}

} // verus!
