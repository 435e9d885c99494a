use vstd::prelude::*;
use crate::clock::current_unix_time;
use crate::text::{chars_of, parse_decimal, parse_decimal_range};
use crate::track::{event_of, record_track, translate, Event, EventView, TrackRecord, BACKFILL_DURATION, MAX_TIMESTAMP};

verus! {

/// Largest number of records the history API returns per request.
pub const PAGE_LIMIT: u64 = 200;

/// The unix second a history record was played at, when its timestamp text
/// is a decimal number in range.
pub open spec fn record_time(r: TrackRecord) -> Option<int> {
    match r.played_at {
        Some(t) => parse_decimal(t@, MAX_TIMESTAMP as int),
        None => None,
    }
}

/// Events replayed from history records given newest first: the records in
/// reverse, oldest first, each as a finished play of nominal duration; records
/// without a readable timestamp are left out.
pub open spec fn replay_spec(rs: Seq<TrackRecord>) -> Seq<EventView>
    decreases rs.len(),
{
    if rs.len() == 0 {
        seq![]
    } else {
        let older = replay_spec(rs.drop_first());
        match record_time(rs[0]) {
            Some(t) => older.push(event_of(record_track(rs[0]), t, BACKFILL_DURATION as int)),
            None => older,
        }
    }
}

/// How many records carry a readable timestamp.
pub open spec fn count_timed(rs: Seq<TrackRecord>) -> int
    decreases rs.len(),
{
    if rs.len() == 0 {
        0
    } else {
        (if record_time(rs[0]) is Some { 1int } else { 0int }) + count_timed(rs.drop_first())
    }
}

/// The records are in the remote service's native order: newest first.
pub open spec fn newest_first(rs: Seq<TrackRecord>) -> bool {
    forall|i: int, j: int|
        0 <= i < j < rs.len() && record_time(rs[i]) is Some && record_time(rs[j]) is Some ==> record_time(
            rs[j],
        )->0 <= record_time(rs[i])->0
}

pub open spec fn nondecreasing(es: Seq<EventView>) -> bool {
    forall|i: int, j: int| 0 <= i < j < es.len() ==> es[i].timestamp <= es[j].timestamp
}

/// The earliest readable timestamp among the records.
pub open spec fn oldest_time(rs: Seq<TrackRecord>) -> Option<int>
    decreases rs.len(),
{
    if rs.len() == 0 {
        None
    } else {
        let rest = oldest_time(rs.drop_last());
        match (record_time(rs.last()), rest) {
            (None, r) => r,
            (Some(t), None) => Some(t),
            (Some(t), Some(r)) => Some(if t <= r { t } else { r }),
        }
    }
}

/// Where the next page must end, after a page whose records reach back to
/// `oldest_time(page)`; `None` once the history is exhausted: the page was
/// empty or held no readable timestamp, it reached the window's start, or it
/// reached no further back than the previous bound.
pub open spec fn next_upper(since: int, upper: Option<int>, page: Seq<TrackRecord>) -> Option<int> {
    match oldest_time(page) {
        None => None,
        Some(o) => if o <= since || (upper matches Some(u) && o >= u) {
            None
        } else {
            Some(o)
        },
    }
}

/// One request for a page of history: plays from unix second `from` on, and
/// before `to` when it is set; newest first, at most `PAGE_LIMIT` of them.
#[derive(Debug, Clone, Copy, PartialEq, Eq)]
pub struct PageRequest {
    pub from: u64,
    pub to: Option<u64>,
}

pub open spec fn opt_int(o: Option<u64>) -> Option<int> {
    match o {
        Some(u) => Some(u as int),
        None => None,
    }
}

pub struct BackfillView {
    pub since: int,
    pub upper: Option<int>,
    pub records: Seq<TrackRecord>,
    pub finished: bool,
}

/// The one-shot walk through history: it asks for pages, newest first, each
/// ending where the previous one reached back to, until the window's start
/// or an empty page; then replays all records in time order.
#[derive(Debug)]
pub struct Backfill {
    since: u64,
    upper: Option<u64>,
    records: Vec<TrackRecord>,
    finished: bool,
}

impl View for Backfill {
    type V = BackfillView;

    closed spec fn view(&self) -> BackfillView {
        BackfillView {
            since: self.since as int,
            upper: opt_int(self.upper),
            records: self.records@,
            finished: self.finished,
        }
    }
}

impl Backfill {
    /// A walk over the window of `window` seconds that ends at unix second
    /// `now` (a window longer than `now` starts at zero).
    pub fn new(now: u64, window: u64) -> (b: Backfill)
        ensures
            b@.since == if window <= now { now - window } else { 0 },
            b@.upper is None,
            b@.records == Seq::<TrackRecord>::empty(),
            !b@.finished,
    {
        let since = if window <= now {
            now - window
        } else {
            0
        };
        Backfill { since, upper: None, records: Vec::new(), finished: false }
    }

    /// A walk over the window of `window` seconds that ends now.
    pub fn start_now(window: u64) -> (b: Backfill)
        ensures
            b@.upper is None,
            b@.records == Seq::<TrackRecord>::empty(),
            !b@.finished,
    {
        let now = current_unix_time();
        Backfill::new(if now < 0 { 0 } else { now as u64 }, window)
    }

    pub fn is_finished(&self) -> (r: bool)
        ensures
            r == self@.finished,
    {
        self.finished
    }

    /// The page to fetch next, or `None` once the walk is over.
    pub fn next_request(&self) -> (r: Option<PageRequest>)
        ensures
            self@.finished ==> r is None,
            !self@.finished ==> (r matches Some(p) && p.from == self@.since && opt_int(p.to) == self@.upper),
    {
        if self.finished {
            None
        } else {
            Some(PageRequest { from: self.since, to: self.upper })
        }
    }

    /// Takes in a fetched page (newest first), appending its records after
    /// those of the newer pages, and moves the bound of the next page back to
    /// the oldest timestamp the page holds, or finishes the walk.
    pub fn accept_page(&mut self, page: Vec<TrackRecord>)
        requires
            !old(self)@.finished,
        ensures
            final(self)@.since == old(self)@.since,
            final(self)@.records == old(self)@.records + page@,
            final(self)@.finished == (next_upper(old(self)@.since, old(self)@.upper, page@) is None),
            !final(self)@.finished ==> final(self)@.upper == next_upper(old(self)@.since, old(self)@.upper, page@),
    {
        let ghost pg = page@;
        let mut oldest: Option<u64> = None;
        let mut i: usize = 0;
        while i < page.len()
            invariant
                0 <= i <= page.len(),
                pg == page@,
                match oldest {
                    Some(o) => oldest_time(page@.subrange(0, i as int)) == Some(o as int),
                    None => oldest_time(page@.subrange(0, i as int)) is None,
                },
            decreases page.len() - i,
        {
            let ghost pre = page@.subrange(0, i as int);
            assert(page@.subrange(0, i + 1).drop_last() =~= pre);
            match record_timestamp(&page[i]) {
                Some(t) => {
                    oldest = match oldest {
                        Some(o) => Some(if t <= o { t } else { o }),
                        None => Some(t),
                    };
                },
                None => {},
            }
            i = i + 1;
        }
        assert(page@.subrange(0, page.len() as int) =~= page@);
        let next = match oldest {
            None => None,
            Some(o) => {
                let stalled = match self.upper {
                    Some(u) => o >= u,
                    None => false,
                };
                if o <= self.since || stalled {
                    None
                } else {
                    Some(o)
                }
            },
        };
        let mut page = page;
        self.records.append(&mut page);
        match next {
            Some(o) => {
                self.upper = Some(o);
            },
            None => {
                self.finished = true;
            },
        }
    }

    /// All events of the walk so far, in time order.
    pub fn events(&self) -> (out: Vec<Event>)
        ensures
            out@.map_values(|e: Event| e@) == replay_spec(self@.records),
    {
        replay(&self.records)
    }
}

/// Reads a play's unix timestamp from its decimal text.
pub fn parse_timestamp(s: &str) -> (r: Option<u64>)
    ensures
        r matches Some(v) ==> parse_decimal(s@, MAX_TIMESTAMP as int) == Some(v as int),
        r is None ==> parse_decimal(s@, MAX_TIMESTAMP as int) is None,
{
    let cs = chars_of(s);
    let r = parse_decimal_range(&cs, 0, cs.len(), MAX_TIMESTAMP);
    assert(cs@.subrange(0, cs@.len() as int) =~= s@);
    r
}

pub fn record_timestamp(r: &TrackRecord) -> (t: Option<u64>)
    ensures
        t matches Some(v) ==> record_time(*r) == Some(v as int),
        t is None ==> record_time(*r) is None,
{
    match &r.played_at {
        Some(s) => parse_timestamp(s.as_str()),
        None => None,
    }
}

/// Replays history records, given newest first, as events in time order.
pub fn replay(records: &Vec<TrackRecord>) -> (out: Vec<Event>)
    ensures
        out@.map_values(|e: Event| e@) == replay_spec(records@),
        forall|k: int| 0 <= k < out.len() ==> (#[trigger] out@[k])@.wf(),
{
    let mut out: Vec<Event> = Vec::new();
    let mut i: usize = records.len();
    while i > 0
        invariant
            0 <= i <= records.len(),
            out@.map_values(|e: Event| e@) == replay_spec(records@.subrange(i as int, records.len() as int)),
            forall|k: int| 0 <= k < out.len() ==> (#[trigger] out@[k])@.wf(),
        decreases i,
    {
        i = i - 1;
        let ghost rest = records@.subrange(i + 1, records.len() as int);
        let ghost cur = records@.subrange(i as int, records.len() as int);
        assert(cur.drop_first() =~= rest);
        assert(cur[0] == records@[i as int]);
        match record_timestamp(&records[i]) {
            Some(t) => {
                let track = records[i].track();
                let e = translate(&track, t, BACKFILL_DURATION);
                let ghost before = out@;
                out.push(e);
                assert(out@.map_values(|e: Event| e@) =~= before.map_values(|e: Event| e@).push(e@));
            },
            None => {},
        }
    }
    assert(records@.subrange(0, records.len() as int) =~= records@);
    out
}

/// Replaying a history fetched in two pages, the newer page first, gives the
/// older page's events followed by the newer page's.
pub proof fn lemma_replay_pages(newer: Seq<TrackRecord>, older: Seq<TrackRecord>)
    ensures
        replay_spec(newer + older) == replay_spec(older) + replay_spec(newer),
    decreases newer.len(),
{
    if newer.len() == 0 {
        assert(newer + older =~= older);
        assert(replay_spec(older) + seq![] =~= replay_spec(older));
    } else {
        assert((newer + older).drop_first() =~= newer.drop_first() + older);
        assert((newer + older)[0] == newer[0]);
        lemma_replay_pages(newer.drop_first(), older);
        let a = replay_spec(older);
        let b = replay_spec(newer.drop_first());
        match record_time(newer[0]) {
            Some(t) => {
                let e = event_of(record_track(newer[0]), t, BACKFILL_DURATION as int);
                assert((a + b).push(e) =~= a + b.push(e));
            },
            None => {},
        }
    }
}

proof fn lemma_replay_bounded(rs: Seq<TrackRecord>, bound: int)
    requires
        forall|i: int| 0 <= i < rs.len() && record_time(#[trigger] rs[i]) is Some ==> record_time(rs[i])->0 <= bound,
    ensures
        forall|k: int| 0 <= k < replay_spec(rs).len() ==> (#[trigger] replay_spec(rs)[k]).timestamp <= bound,
    decreases rs.len(),
{
    if rs.len() > 0 {
        let tail = rs.drop_first();
        assert forall|i: int| 0 <= i < tail.len() && record_time(#[trigger] tail[i]) is Some implies record_time(
            tail[i],
        )->0 <= bound by {
            assert(tail[i] == rs[i + 1]);
        }
        lemma_replay_bounded(tail, bound);
    }
}

/// Records in the remote service's newest-first order replay as events in
/// non-decreasing timestamp order.
pub proof fn lemma_replay_ordered(rs: Seq<TrackRecord>)
    requires
        newest_first(rs),
    ensures
        nondecreasing(replay_spec(rs)),
    decreases rs.len(),
{
    if rs.len() > 0 {
        let tail = rs.drop_first();
        assert forall|i: int, j: int|
            0 <= i < j < tail.len() && record_time(tail[i]) is Some && record_time(tail[j]) is Some implies record_time(
            tail[j],
        )->0 <= record_time(tail[i])->0 by {
            assert(tail[i] == rs[i + 1] && tail[j] == rs[j + 1]);
        }
        lemma_replay_ordered(tail);
        if let Some(t) = record_time(rs[0]) {
            assert forall|i: int| 0 <= i < tail.len() && record_time(#[trigger] tail[i]) is Some implies record_time(
                tail[i],
            )->0 <= t by {
                assert(tail[i] == rs[i + 1]);
            }
            lemma_replay_bounded(tail, t);
        }
    }
}

/// Replay leaves out exactly the records without a readable timestamp: it
/// yields one event per timed record, and the timed record at position `i`
/// becomes the event preceded by the timed records older than it.
pub proof fn lemma_replay_complete(rs: Seq<TrackRecord>)
    ensures
        replay_spec(rs).len() == count_timed(rs),
        forall|i: int|
            #![trigger rs[i]]
            0 <= i < rs.len() && record_time(rs[i]) is Some ==> {
                let k = count_timed(rs.subrange(i + 1, rs.len() as int));
                &&& 0 <= k < replay_spec(rs).len()
                &&& replay_spec(rs)[k] == event_of(record_track(rs[i]), record_time(rs[i])->0, BACKFILL_DURATION as int)
            },
    decreases rs.len(),
{
    if rs.len() > 0 {
        let tail = rs.drop_first();
        lemma_replay_complete(tail);
        lemma_count_nonneg(tail);
        assert forall|i: int|
            #![trigger rs[i]]
            0 <= i < rs.len() && record_time(rs[i]) is Some implies {
                let k = count_timed(rs.subrange(i + 1, rs.len() as int));
                &&& 0 <= k < replay_spec(rs).len()
                &&& replay_spec(rs)[k] == event_of(record_track(rs[i]), record_time(rs[i])->0, BACKFILL_DURATION as int)
            } by {
            if i == 0 {
                assert(rs.subrange(1, rs.len() as int) =~= tail);
            } else {
                assert(tail[i - 1] == rs[i]);
                assert(tail.subrange(i, tail.len() as int) =~= rs.subrange(i + 1, rs.len() as int));
            }
        }
    }
}

proof fn lemma_count_nonneg(rs: Seq<TrackRecord>)
    ensures
        count_timed(rs) >= 0,
    decreases rs.len(),
{
    if rs.len() > 0 {
        lemma_count_nonneg(rs.drop_first());
    }
}

} // verus!
