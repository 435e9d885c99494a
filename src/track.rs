use vstd::prelude::*;

verus! {

/// Largest unix timestamp (seconds) the engine accepts: the range of a signed
/// 64-bit timestamp, as the remote service reports it.
pub const MAX_TIMESTAMP: u64 = 9223372036854775807;

/// Nominal duration, in seconds, given to every replayed history record.
pub const BACKFILL_DURATION: u64 = 30;

/// Mathematical view of an optional text field.
pub open spec fn opt_view(o: Option<String>) -> Option<Seq<char>> {
    match o {
        Some(s) => Some(s@),
        None => None,
    }
}

/// The identifying data of a track; every field may be absent.
#[derive(Debug, Clone)]
pub struct Track {
    pub title: Option<String>,
    pub artist: Option<String>,
    pub album: Option<String>,
}

pub struct TrackView {
    pub title: Option<Seq<char>>,
    pub artist: Option<Seq<char>>,
    pub album: Option<Seq<char>>,
}

impl View for Track {
    type V = TrackView;

    open spec fn view(&self) -> TrackView {
        TrackView {
            title: opt_view(self.title),
            artist: opt_view(self.artist),
            album: opt_view(self.album),
        }
    }
}

/// One record of the remote "recent tracks" listing, with every field as the
/// remote service sent it (absent where it sent none).
#[derive(Debug, Clone)]
pub struct TrackRecord {
    /// The "now playing" marker; live playback is the exact text `true`.
    pub now_playing: Option<String>,
    pub title: Option<String>,
    pub artist: Option<String>,
    pub album: Option<String>,
    /// The play's unix timestamp, in decimal, as text.
    pub played_at: Option<String>,
}

/// The track data a remote record carries.
pub open spec fn record_track(r: TrackRecord) -> TrackView {
    TrackView { title: opt_view(r.title), artist: opt_view(r.artist), album: opt_view(r.album) }
}

/// An activity interval: `duration` seconds starting at unix second `timestamp`.
#[derive(Debug, Clone)]
pub struct Event {
    pub timestamp: u64,
    pub duration: u64,
    pub data: Track,
}

pub struct EventView {
    pub timestamp: int,
    pub duration: int,
    pub data: TrackView,
}

impl View for Event {
    type V = EventView;

    open spec fn view(&self) -> EventView {
        EventView { timestamp: self.timestamp as int, duration: self.duration as int, data: self.data@ }
    }
}

impl EventView {
    /// The instant at which the interval ends.
    pub open spec fn end(self) -> int {
        self.timestamp + self.duration
    }

    /// The interval's end is a representable instant.
    pub open spec fn wf(self) -> bool {
        0 <= self.timestamp && 0 <= self.duration && self.end() <= u64::MAX
    }
}

pub open spec fn event_of(data: TrackView, timestamp: int, duration: int) -> EventView {
    EventView { timestamp, duration, data }
}

/// Copies an optional text field.
pub fn copy_text(o: &Option<String>) -> (r: Option<String>)
    ensures
        opt_view(r) == opt_view(*o),
{
    match o {
        Some(s) => Some(s.clone()),
        None => None,
    }
}

/// Compares two texts by content.
pub fn text_eq(a: &str, b: &str) -> (r: bool)
    ensures
        r == (a@ == b@),
{
    a.to_owned() == b.to_owned()
}

/// Compares two optional text fields by content.
pub fn same_text(a: &Option<String>, b: &Option<String>) -> (r: bool)
    ensures
        r == (opt_view(*a) == opt_view(*b)),
{
    match (a, b) {
        (Some(x), Some(y)) => *x == *y,
        (None, None) => true,
        _ => false,
    }
}

impl Track {
    pub fn duplicate(&self) -> (r: Track)
        ensures
            r@ == self@,
    {
        Track { title: copy_text(&self.title), artist: copy_text(&self.artist), album: copy_text(&self.album) }
    }

    /// Two tracks carry the same data when every field agrees.
    pub fn same_data(&self, other: &Track) -> (r: bool)
        ensures
            r == (self@ == other@),
    {
        same_text(&self.title, &other.title) && same_text(&self.artist, &other.artist) && same_text(
            &self.album,
            &other.album,
        )
    }
}

impl TrackRecord {
    /// The track data the record carries; absent fields stay absent.
    pub fn track(&self) -> (r: Track)
        ensures
            r@ == record_track(*self),
    {
        Track { title: copy_text(&self.title), artist: copy_text(&self.artist), album: copy_text(&self.album) }
    }
}

impl Event {
    pub fn duplicate(&self) -> (r: Event)
        ensures
            r@ == self@,
    {
        Event { timestamp: self.timestamp, duration: self.duration, data: self.data.duplicate() }
    }
}

/// Maps a track snapshot, a start instant and a duration to an event.
pub fn translate(track: &Track, timestamp: u64, duration: u64) -> (e: Event)
    requires
        timestamp + duration <= u64::MAX,
    ensures
        e@ == event_of(track@, timestamp as int, duration as int),
        e@.wf(),
{
    Event { timestamp, duration, data: track.duplicate() }
}

} // verus!
