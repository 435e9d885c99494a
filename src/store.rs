use vstd::prelude::*;
use crate::track::{text_eq, Event, EventView};

verus! {

/// What identifies and describes a bucket.
#[derive(Debug, Clone)]
pub struct BucketSpec {
    pub id: String,
    pub kind: String,
    pub client: String,
    pub hostname: String,
}

impl BucketSpec {
    pub fn duplicate(&self) -> (r: BucketSpec)
        ensures
            r.id@ == self.id@,
            r.kind@ == self.kind@,
            r.client@ == self.client@,
            r.hostname@ == self.hostname@,
    {
        BucketSpec {
            id: self.id.clone(),
            kind: self.kind.clone(),
            client: self.client.clone(),
            hostname: self.hostname.clone(),
        }
    }
}

pub struct BucketView {
    pub id: Seq<char>,
    pub kind: Seq<char>,
    pub client: Seq<char>,
    pub hostname: Seq<char>,
    pub events: Seq<EventView>,
}

/// A named, typed container of events, in insertion order.
#[derive(Debug)]
pub struct Bucket {
    spec: BucketSpec,
    events: Vec<Event>,
}

impl View for Bucket {
    type V = BucketView;

    closed spec fn view(&self) -> BucketView {
        BucketView {
            id: self.spec.id@,
            kind: self.spec.kind@,
            client: self.spec.client@,
            hostname: self.spec.hostname@,
            events: self.events@.map_values(|e: Event| e@),
        }
    }
}

#[derive(Debug, Clone, Copy, PartialEq, Eq)]
pub enum StoreError {
    /// No bucket has the requested id.
    NoSuchBucket,
}

/// In-memory event store with the heartbeat merge semantics of the local
/// activity store.
#[derive(Debug)]
pub struct MemoryStore {
    buckets: Vec<Bucket>,
}

/// The ids of the buckets are pairwise distinct and every event is well formed.
pub open spec fn store_wf(bs: Seq<BucketView>) -> bool {
    &&& forall|i: int, j: int| 0 <= i < bs.len() && 0 <= j < bs.len() && i != j ==> bs[i].id != bs[j].id
    &&& forall|i: int, k: int| 0 <= i < bs.len() && 0 <= k < bs[i].events.len() ==> (#[trigger] bs[i].events[k]).wf()
}

pub open spec fn has_bucket(bs: Seq<BucketView>, id: Seq<char>) -> bool {
    exists|i: int| 0 <= i < bs.len() && bs[i].id == id
}

/// The position of the bucket named `id`.
pub open spec fn index_of(bs: Seq<BucketView>, id: Seq<char>) -> int {
    choose|i: int| 0 <= i < bs.len() && bs[i].id == id
}

pub open spec fn empty_bucket(spec: BucketSpec) -> BucketView {
    BucketView { id: spec.id@, kind: spec.kind@, client: spec.client@, hostname: spec.hostname@, events: seq![] }
}

/// Bucket creation: a no-op where the id exists, an append of an empty bucket otherwise.
pub open spec fn create_spec(bs: Seq<BucketView>, spec: BucketSpec) -> Seq<BucketView> {
    if has_bucket(bs, spec.id@) {
        bs
    } else {
        bs.push(empty_bucket(spec))
    }
}

/// Replaces the events of the bucket named `id`.
pub open spec fn with_events(bs: Seq<BucketView>, id: Seq<char>, events: Seq<EventView>) -> Seq<BucketView> {
    let i = index_of(bs, id);
    bs.update(
        i,
        BucketView { id: bs[i].id, kind: bs[i].kind, client: bs[i].client, hostname: bs[i].hostname, events },
    )
}

pub open spec fn events_of(bs: Seq<BucketView>, id: Seq<char>) -> Seq<EventView> {
    bs[index_of(bs, id)].events
}

/// A heartbeat folds into the last event when it carries the same data and
/// starts no earlier than that event and no later than its end plus the pulsewidth.
pub open spec fn merges(last: EventView, hb: EventView, pulsewidth: int) -> bool {
    &&& last.data == hb.data
    &&& last.timestamp <= hb.timestamp
    &&& hb.timestamp <= last.end() + pulsewidth
}

/// The last event, extended so that it also covers the heartbeat.
pub open spec fn merged(last: EventView, hb: EventView) -> EventView {
    EventView {
        timestamp: last.timestamp,
        duration: if last.duration >= hb.end() - last.timestamp {
            last.duration
        } else {
            hb.end() - last.timestamp
        },
        data: last.data,
    }
}

/// The store's heartbeat contract on one bucket's events: extend the last
/// event in place, or append the heartbeat as a new event.
pub open spec fn merge_heartbeat(events: Seq<EventView>, hb: EventView, pulsewidth: int) -> Seq<EventView> {
    if events.len() > 0 && merges(events.last(), hb, pulsewidth) {
        events.update(events.len() - 1, merged(events.last(), hb))
    } else {
        events.push(hb)
    }
}

/// The events of a bucket after a sequence of heartbeats, sent in order.
pub open spec fn apply_heartbeats(events: Seq<EventView>, hbs: Seq<EventView>, pulsewidth: int) -> Seq<EventView>
    decreases hbs.len(),
{
    if hbs.len() == 0 {
        events
    } else {
        merge_heartbeat(apply_heartbeats(events, hbs.drop_last(), pulsewidth), hbs.last(), pulsewidth)
    }
}

proof fn lemma_index_of(bs: Seq<BucketView>, i: int)
    requires
        store_wf(bs),
        0 <= i < bs.len(),
    ensures
        has_bucket(bs, bs[i].id),
        index_of(bs, bs[i].id) == i,
{
    assert(has_bucket(bs, bs[i].id));
}

/// Creating a bucket twice leaves the store as creating it once does: the
/// bucket exists afterwards, exactly one bucket bears its id, and creating an
/// existing bucket changes nothing.
pub proof fn lemma_create_bucket_idempotent(bs: Seq<BucketView>, spec: BucketSpec)
    requires
        store_wf(bs),
    ensures
        store_wf(create_spec(bs, spec)),
        has_bucket(create_spec(bs, spec), spec.id@),
        create_spec(create_spec(bs, spec), spec) == create_spec(bs, spec),
        has_bucket(bs, spec.id@) ==> create_spec(bs, spec) == bs,
{
    let once = create_spec(bs, spec);
    if !has_bucket(bs, spec.id@) {
        assert(once[bs.len() as int].id == spec.id@);
        assert forall|i: int, j: int| 0 <= i < once.len() && 0 <= j < once.len() && i != j implies once[i].id
            != once[j].id by {
            if i < bs.len() && j < bs.len() {
            } else if i < bs.len() {
                assert(bs[i].id != spec.id@);
            } else {
                assert(bs[j].id != spec.id@);
            }
        }
    }
    assert(has_bucket(once, spec.id@));
}

/// After a non-empty run of heartbeats, the bucket's last event carries the
/// data of the run's last heartbeat.
pub proof fn lemma_last_event_data(events: Seq<EventView>, hbs: Seq<EventView>, pulsewidth: int)
    requires
        hbs.len() > 0,
    ensures
        apply_heartbeats(events, hbs, pulsewidth).len() > 0,
        apply_heartbeats(events, hbs, pulsewidth).last().data == hbs.last().data,
{
}

/// Heartbeats with identical data, in time order, each at most one
/// pulsewidth after the previous, and all of one duration, become exactly
/// one new event: it starts at the first heartbeat and ends where the last
/// heartbeat ends. The events before it are left as they were.
pub proof fn lemma_identical_heartbeats_merge(events: Seq<EventView>, hbs: Seq<EventView>, pulsewidth: int)
    requires
        pulsewidth >= 0,
        hbs.len() > 0,
        forall|k: int| 0 <= k < hbs.len() ==> (#[trigger] hbs[k]).wf() && hbs[k].data == hbs[0].data
            && hbs[k].duration == hbs[0].duration,
        forall|j: int, k: int| 0 <= j <= k < hbs.len() ==> hbs[j].timestamp <= hbs[k].timestamp,
        forall|k: int| 0 <= k < hbs.len() - 1 ==> #[trigger] hbs[k + 1].timestamp <= hbs[k].timestamp + pulsewidth,
        !(events.len() > 0 && merges(events.last(), hbs[0], pulsewidth)),
    ensures
        apply_heartbeats(events, hbs, pulsewidth) == events.push(
            EventView {
                timestamp: hbs[0].timestamp,
                duration: hbs.last().end() - hbs[0].timestamp,
                data: hbs[0].data,
            },
        ),
    decreases hbs.len(),
{
    let first = hbs[0];
    if hbs.len() == 1 {
        assert(hbs.drop_last() =~= Seq::<EventView>::empty());
        assert(apply_heartbeats(events, hbs.drop_last(), pulsewidth) == events);
        assert(apply_heartbeats(events, hbs, pulsewidth) == events.push(first));
        assert(hbs.last() == first);
        assert(first == EventView { timestamp: first.timestamp, duration: first.end() - first.timestamp, data: first.data });
    } else {
        let prefix = hbs.drop_last();
        assert(prefix[0] == first);
        assert forall|k: int| 0 <= k < prefix.len() - 1 implies #[trigger] prefix[k + 1].timestamp
            <= prefix[k].timestamp + pulsewidth by {
            assert(hbs[k + 1].timestamp <= hbs[k].timestamp + pulsewidth);
        }
        assert forall|k: int| 0 <= k < prefix.len() implies (#[trigger] prefix[k]).wf() && prefix[k].data
            == prefix[0].data && prefix[k].duration == prefix[0].duration by {
            assert(hbs[k].wf());
        }
        lemma_identical_heartbeats_merge(events, prefix, pulsewidth);
        let run = EventView {
            timestamp: first.timestamp,
            duration: prefix.last().end() - first.timestamp,
            data: first.data,
        };
        let h = hbs.last();
        let n = hbs.len() - 1;
        assert(hbs[n - 1] == prefix.last());
        let k = n - 1;
        assert(hbs[k + 1].timestamp <= hbs[k].timestamp + pulsewidth);
        assert(hbs[0].timestamp <= hbs[n - 1].timestamp);
        assert(hbs[n - 1].timestamp <= hbs[n].timestamp);
        assert(hbs[n].wf() && hbs[n - 1].wf());
        let before = events.push(run);
        assert(before.last() == run);
        assert(merges(run, h, pulsewidth));
        assert(apply_heartbeats(events, hbs, pulsewidth) == merge_heartbeat(before, h, pulsewidth));
        assert(merge_heartbeat(before, h, pulsewidth) =~= events.push(
            EventView { timestamp: first.timestamp, duration: h.end() - first.timestamp, data: first.data },
        ));
    }
}

/// A heartbeat whose data differs from the last one sent starts a new
/// event: everything the earlier heartbeats built is kept unchanged, and the
/// new heartbeat is appended after it.
pub proof fn lemma_track_change_starts_new_event(
    events: Seq<EventView>,
    hbs: Seq<EventView>,
    next: EventView,
    pulsewidth: int,
)
    requires
        hbs.len() > 0,
        next.data != hbs.last().data,
    ensures
        apply_heartbeats(events, hbs.push(next), pulsewidth) == apply_heartbeats(events, hbs, pulsewidth).push(next),
{
    lemma_last_event_data(events, hbs, pulsewidth);
    assert(hbs.push(next).drop_last() =~= hbs);
}

impl MemoryStore {
    pub closed spec fn spec_buckets(&self) -> Seq<BucketView> {
        self.buckets@.map_values(|b: Bucket| b@)
    }

    pub open spec fn wf(&self) -> bool {
        store_wf(self.spec_buckets())
    }

    pub fn new() -> (s: MemoryStore)
        ensures
            s.spec_buckets() == Seq::<BucketView>::empty(),
            s.wf(),
    {
        let s = MemoryStore { buckets: Vec::new() };
        assert(s.spec_buckets() =~= Seq::<BucketView>::empty());
        s
    }

    /// The position of the bucket named `id`, if there is one.
    fn find(&self, id: &str) -> (r: Option<usize>)
        requires
            self.wf(),
        ensures
            r is None <==> !has_bucket(self.spec_buckets(), id@),
            r matches Some(i) ==> i < self.buckets.len() && i == index_of(self.spec_buckets(), id@),
    {
        let mut i: usize = 0;
        while i < self.buckets.len()
            invariant
                self.wf(),
                0 <= i <= self.buckets.len(),
                forall|j: int| 0 <= j < i ==> self.spec_buckets()[j].id != id@,
            decreases self.buckets.len() - i,
        {
            if text_eq(self.buckets[i].spec.id.as_str(), id) {
                proof {
                    lemma_index_of(self.spec_buckets(), i as int);
                }
                return Some(i);
            }
            i = i + 1;
        }
        None
    }

    /// Creates the bucket unless one with the same id exists; returns whether
    /// it was created. An existing bucket is left exactly as it was.
    pub fn create_bucket(&mut self, spec: &BucketSpec) -> (created: bool)
        requires
            old(self).wf(),
        ensures
            final(self).wf(),
            created == !has_bucket(old(self).spec_buckets(), spec.id@),
            final(self).spec_buckets() == create_spec(old(self).spec_buckets(), *spec),
    {
        match self.find(spec.id.as_str()) {
            Some(_) => false,
            None => {
                let b = Bucket { spec: spec.duplicate(), events: Vec::new() };
                assert(b@ == empty_bucket(*spec)) by {
                    assert(b.events@.map_values(|e: Event| e@) =~= Seq::<EventView>::empty());
                }
                self.buckets.push(b);
                assert(self.spec_buckets() =~= old(self).spec_buckets().push(empty_bucket(*spec)));
                true
            }
        }
    }

    /// Appends `event` to the bucket named `bucket_id`, unconditionally.
    pub fn insert_event(&mut self, bucket_id: &str, event: Event) -> (r: Result<(), StoreError>)
        requires
            old(self).wf(),
            event@.wf(),
        ensures
            final(self).wf(),
            r is Err <==> !has_bucket(old(self).spec_buckets(), bucket_id@),
            r matches Err(e) ==> e == StoreError::NoSuchBucket && final(self).spec_buckets() == old(self).spec_buckets(),
            r is Ok ==> final(self).spec_buckets() == with_events(
                old(self).spec_buckets(),
                bucket_id@,
                events_of(old(self).spec_buckets(), bucket_id@).push(event@),
            ),
    {
        match self.find(bucket_id) {
            None => Err(StoreError::NoSuchBucket),
            Some(i) => {
                let ghost ev = event@;
                self.buckets[i].events.push(event);
                proof {
                    let old_bs = old(self).spec_buckets();
                    assert(self.buckets@[i as int].events@.map_values(|e: Event| e@) =~= old_bs[i as int].events.push(ev));
                    assert(self.spec_buckets() =~= with_events(old_bs, bucket_id@, old_bs[i as int].events.push(ev)));
                }
                Ok(())
            },
        }
    }

    /// Sends a heartbeat to the bucket named `bucket_id`: the bucket's last
    /// event is extended in place when it carries the same data and the gap
    /// from its end to `event` is at most `pulsewidth` seconds; otherwise
    /// `event` is appended.
    pub fn heartbeat(&mut self, bucket_id: &str, event: Event, pulsewidth: u64) -> (r: Result<(), StoreError>)
        requires
            old(self).wf(),
            event@.wf(),
        ensures
            final(self).wf(),
            r is Err <==> !has_bucket(old(self).spec_buckets(), bucket_id@),
            r matches Err(e) ==> e == StoreError::NoSuchBucket && final(self).spec_buckets() == old(self).spec_buckets(),
            r is Ok ==> final(self).spec_buckets() == with_events(
                old(self).spec_buckets(),
                bucket_id@,
                merge_heartbeat(events_of(old(self).spec_buckets(), bucket_id@), event@, pulsewidth as int),
            ),
    {
        match self.find(bucket_id) {
            None => Err(StoreError::NoSuchBucket),
            Some(i) => {
                let ghost old_bs = old(self).spec_buckets();
                let ghost ev = event@;
                let n = self.buckets[i].events.len();
                assert(self.buckets@[i as int].events@.map_values(|e: Event| e@) == old_bs[i as int].events);
                if n > 0 {
                    let last_ts = self.buckets[i].events[n - 1].timestamp;
                    let last_dur = self.buckets[i].events[n - 1].duration;
                    let same = self.buckets[i].events[n - 1].data.same_data(&event.data);
                    assert(old_bs[i as int].events.last() == self.buckets@[i as int].events@[n - 1]@);
                    if same && last_ts <= event.timestamp && (event.timestamp as u128) <= (last_ts as u128)
                        + (last_dur as u128) + (pulsewidth as u128) {
                        let span = event.timestamp + event.duration - last_ts;
                        let dur = if last_dur >= span {
                            last_dur
                        } else {
                            span
                        };
                        let m = Event { timestamp: last_ts, duration: dur, data: event.data };
                        assert(m@ == merged(old_bs[i as int].events.last(), ev));
                        self.buckets[i].events.set(n - 1, m);
                        proof {
                            let new_events = merge_heartbeat(old_bs[i as int].events, ev, pulsewidth as int);
                            assert(self.buckets@[i as int].events@.map_values(|e: Event| e@) =~= new_events);
                            assert(self.spec_buckets() =~= with_events(old_bs, bucket_id@, new_events));
                        }
                        return Ok(());
                    }
                }
                self.buckets[i].events.push(event);
                proof {
                    let new_events = merge_heartbeat(old_bs[i as int].events, ev, pulsewidth as int);
                    assert(self.buckets@[i as int].events@.map_values(|e: Event| e@) =~= new_events);
                    assert(self.spec_buckets() =~= with_events(old_bs, bucket_id@, new_events));
                }
                Ok(())
            },
        }
    }

    /// The events of the bucket named `id`, in insertion order.
    pub fn bucket_events(&self, id: &str) -> (r: Option<&Vec<Event>>)
        requires
            self.wf(),
        ensures
            r is None <==> !has_bucket(self.spec_buckets(), id@),
            r matches Some(v) ==> v@.map_values(|e: Event| e@) == events_of(self.spec_buckets(), id@),
    {
        match self.find(id) {
            Some(i) => Some(&self.buckets[i].events),
            None => None,
        }
    }
}

} // verus!
