use lastfm_watcher::backfill::{parse_timestamp, replay, Backfill, PageRequest};
use lastfm_watcher::poller::{classify, delay_before_tick, FetchOutcome, Poller, TickAction, TickStatus};
use lastfm_watcher::provision::{run_provisioning, ProvisionAction, Provisioner, MAX_ATTEMPTS, RETRY_DELAY_MS};
use lastfm_watcher::store::{BucketSpec, MemoryStore, StoreError};
use lastfm_watcher::track::{translate, Event, Track, TrackRecord};

const BUCKET: &str = "aw-watcher-lastfm";

fn text(s: &str) -> Option<String> {
    Some(s.to_string())
}

fn playing(title: &str, artist: Option<&str>) -> TrackRecord {
    TrackRecord {
        now_playing: text("true"),
        title: text(title),
        artist: artist.map(|a| a.to_string()),
        album: None,
        played_at: None,
    }
}

fn played(title: &str, at: Option<&str>) -> TrackRecord {
    TrackRecord {
        now_playing: None,
        title: text(title),
        artist: text("Band X"),
        album: text("Album"),
        played_at: at.map(|a| a.to_string()),
    }
}

fn store_with_bucket() -> MemoryStore {
    let mut store = MemoryStore::new();
    assert!(store.create_bucket(&BucketSpec::watcher("host")));
    store
}

fn events(store: &MemoryStore) -> Vec<Event> {
    store.bucket_events(BUCKET).expect("bucket exists").clone()
}

fn title(e: &Event) -> &str {
    e.data.title.as_deref().unwrap_or("")
}

#[test]
fn not_playing_sends_nothing() {
    let poller = Poller::new(10);
    let mut finished = playing("Song A", None);
    finished.now_playing = None;
    let mut marked_false = playing("Song A", None);
    marked_false.now_playing = text("false");
    let mut store = store_with_bucket();
    for recs in [vec![finished], vec![marked_false], vec![]] {
        let outcome = FetchOutcome::Fetched(recs);
        assert!(matches!(classify(&outcome), TickStatus::NoTrackPlaying));
        assert!(matches!(poller.apply_tick(&mut store, BUCKET, &outcome, 100), TickAction::Skip));
    }
    assert!(events(&store).is_empty());
}

#[test]
fn only_newest_record_decides() {
    let poller = Poller::new(10);
    let outcome = FetchOutcome::Fetched(vec![played("Old", Some("5")), playing("Song A", None)]);
    assert!(matches!(poller.on_tick(&outcome, 100), TickAction::Skip));
}

#[test]
fn playing_track_becomes_heartbeat() {
    let poller = Poller::new(10);
    let outcome = FetchOutcome::Fetched(vec![playing("Song A", Some("Band X"))]);
    match poller.on_tick(&outcome, 1000) {
        TickAction::Heartbeat { event, pulsewidth } => {
            assert_eq!(pulsewidth, 10);
            assert_eq!(event.timestamp, 1000);
            assert_eq!(event.duration, 10);
            assert_eq!(event.data.title.as_deref(), Some("Song A"));
            assert_eq!(event.data.artist.as_deref(), Some("Band X"));
            assert_eq!(event.data.album, None);
        }
        TickAction::Skip => panic!("expected a heartbeat"),
    }
}

#[test]
fn identical_ticks_merge_into_one_interval() {
    let poller = Poller::new(10);
    let mut store = store_with_bucket();
    let outcome = FetchOutcome::Fetched(vec![playing("Song A", Some("Band X"))]);
    for k in 0..5u64 {
        assert!(matches!(
            poller.apply_tick(&mut store, BUCKET, &outcome, 1000 + 10 * k),
            TickAction::Heartbeat { .. }
        ));
    }
    let evs = events(&store);
    assert_eq!(evs.len(), 1);
    assert_eq!(evs[0].timestamp, 1000);
    assert_eq!(evs[0].duration, 50);
}

#[test]
fn track_change_starts_new_event() {
    let poller = Poller::new(10);
    let mut store = store_with_bucket();
    let a = FetchOutcome::Fetched(vec![playing("Song A", Some("Band X"))]);
    let b = FetchOutcome::Fetched(vec![playing("Song A", Some("Band Y"))]);
    poller.apply_tick(&mut store, BUCKET, &a, 0);
    poller.apply_tick(&mut store, BUCKET, &a, 10);
    poller.apply_tick(&mut store, BUCKET, &b, 20);
    let evs = events(&store);
    assert_eq!(evs.len(), 2);
    assert_eq!((evs[0].timestamp, evs[0].duration), (0, 20));
    assert_eq!(evs[1].data.artist.as_deref(), Some("Band Y"));
    assert_eq!((evs[1].timestamp, evs[1].duration), (20, 10));
}

#[test]
fn gap_beyond_pulsewidth_starts_new_event() {
    let mut store = store_with_bucket();
    let track = Track { title: text("Song A"), artist: None, album: None };
    store.heartbeat(BUCKET, translate(&track, 0, 10), 10).unwrap();
    store.heartbeat(BUCKET, translate(&track, 21, 10), 10).unwrap();
    let evs = events(&store);
    assert_eq!(evs.len(), 2);
    assert_eq!(evs[1].timestamp, 21);
}

#[test]
fn worked_example_song_a_then_song_b() {
    let poller = Poller::new(10);
    let mut store = store_with_bucket();
    let a = FetchOutcome::Fetched(vec![playing("Song A", Some("Band X"))]);
    let b = FetchOutcome::Fetched(vec![playing("Song B", None)]);
    for k in 0..3u64 {
        poller.apply_tick(&mut store, BUCKET, &a, 1000 + 10 * k);
    }
    poller.apply_tick(&mut store, BUCKET, &b, 1030);
    let evs = events(&store);
    assert_eq!(evs.len(), 2);
    assert_eq!(title(&evs[0]), "Song A");
    assert_eq!(evs[0].data.artist.as_deref(), Some("Band X"));
    assert_eq!(evs[0].timestamp, 1000);
    assert_eq!(evs[0].duration, 30);
    assert_eq!(title(&evs[1]), "Song B");
    assert_eq!(evs[1].data.artist, None);
    assert_eq!(evs[1].timestamp, 1030);
}

#[test]
fn timeout_tick_is_skipped_and_loop_goes_on() {
    let poller = Poller::new(10);
    let mut store = store_with_bucket();
    let a = FetchOutcome::Fetched(vec![playing("Song A", None)]);
    poller.apply_tick(&mut store, BUCKET, &a, 0);
    assert!(matches!(classify(&FetchOutcome::Failed), TickStatus::FetchError));
    assert!(matches!(poller.apply_tick(&mut store, BUCKET, &FetchOutcome::Failed, 10), TickAction::Skip));
    assert_eq!(events(&store).len(), 1);
    assert_eq!(events(&store)[0].duration, 10);
    assert!(matches!(poller.apply_tick(&mut store, BUCKET, &a, 20), TickAction::Heartbeat { .. }));
    let evs = events(&store);
    assert_eq!(evs.len(), 1);
    assert_eq!(evs[0].duration, 30);
}

#[test]
fn create_bucket_twice_is_idempotent() {
    let mut store = MemoryStore::new();
    let spec = BucketSpec::watcher("host");
    assert!(store.create_bucket(&spec));
    let track = Track { title: text("Song A"), artist: None, album: None };
    store.insert_event(BUCKET, translate(&track, 5, 30)).unwrap();
    assert!(!store.create_bucket(&spec));
    assert!(!store.create_bucket(&spec));
    let evs = events(&store);
    assert_eq!(evs.len(), 1);
    assert_eq!(evs[0].timestamp, 5);
}

#[test]
fn missing_bucket_is_an_error() {
    let mut store = MemoryStore::new();
    let track = Track { title: None, artist: None, album: None };
    assert_eq!(store.heartbeat("nope", translate(&track, 0, 1), 1), Err(StoreError::NoSuchBucket));
    assert_eq!(store.insert_event("nope", translate(&track, 0, 1)), Err(StoreError::NoSuchBucket));
    assert!(store.bucket_events("nope").is_none());
}

#[test]
fn insert_event_never_merges() {
    let mut store = store_with_bucket();
    let track = Track { title: text("Song A"), artist: None, album: None };
    store.insert_event(BUCKET, translate(&track, 0, 30)).unwrap();
    store.insert_event(BUCKET, translate(&track, 30, 30)).unwrap();
    assert_eq!(events(&store).len(), 2);
}

#[test]
fn watcher_bucket_spec() {
    let spec = BucketSpec::watcher("my-host");
    assert_eq!(spec.id, "aw-watcher-lastfm");
    assert_eq!(spec.kind, "currently-playing");
    assert_eq!(spec.client, "aw-watcher-lastfm-rust");
    assert_eq!(spec.hostname, "my-host");
}

#[test]
fn provisioner_gives_up_after_bound() {
    assert_eq!(MAX_ATTEMPTS, 5);
    let mut p = Provisioner::new();
    for _ in 0..4 {
        assert!(p.may_attempt());
        assert_eq!(p.on_attempt(false), ProvisionAction::RetryAfter(RETRY_DELAY_MS));
    }
    assert!(p.may_attempt());
    assert_eq!(p.on_attempt(false), ProvisionAction::Abort);
    assert!(!p.may_attempt());
    assert_eq!(run_provisioning(&vec![false; 10]), ProvisionAction::Abort);
    assert_eq!(run_provisioning(&vec![false, false, false, false, false, true]), ProvisionAction::Abort);
}

#[test]
fn provisioner_ready_on_success() {
    let mut p = Provisioner::new();
    assert_eq!(p.on_attempt(false), ProvisionAction::RetryAfter(1000));
    assert_eq!(p.on_attempt(true), ProvisionAction::Ready);
    assert!(!p.may_attempt());
    assert_eq!(run_provisioning(&vec![false, false, false, false, true]), ProvisionAction::Ready);
    assert_eq!(run_provisioning(&vec![true]), ProvisionAction::Ready);
    assert_eq!(run_provisioning(&vec![]), ProvisionAction::Abort);
}

#[test]
fn tick_delays_follow_fixed_grid() {
    assert_eq!(delay_before_tick(1000, 10000, 0, 1000), 0);
    assert_eq!(delay_before_tick(1000, 10000, 1, 4000), 7000);
    assert_eq!(delay_before_tick(1000, 10000, 2, 25000), 0);
}

#[test]
fn timestamps_parse() {
    assert_eq!(parse_timestamp("1700000000"), Some(1700000000));
    assert_eq!(parse_timestamp("0"), Some(0));
    assert_eq!(parse_timestamp("9223372036854775807"), Some(9223372036854775807));
    assert_eq!(parse_timestamp("9223372036854775808"), None);
    assert_eq!(parse_timestamp(""), None);
    assert_eq!(parse_timestamp("12a"), None);
    assert_eq!(parse_timestamp("-5"), None);
}

#[test]
fn replay_reverses_and_skips_bad_timestamps() {
    let recs = vec![
        playing("Now", None),
        played("C", Some("300")),
        played("Bad", Some("soon")),
        played("B", Some("200")),
        played("NoDate", None),
        played("A", Some("100")),
    ];
    let evs = replay(&recs);
    let titles: Vec<&str> = evs.iter().map(title).collect();
    assert_eq!(titles, vec!["A", "B", "C"]);
    let times: Vec<u64> = evs.iter().map(|e| e.timestamp).collect();
    assert_eq!(times, vec![100, 200, 300]);
    assert!(evs.iter().all(|e| e.duration == 30));
    assert_eq!(evs[0].data.album.as_deref(), Some("Album"));
}

#[test]
fn backfill_walks_several_pages() {
    let mut b = Backfill::new(10_000, 9_000);
    assert_eq!(b.next_request(), Some(PageRequest { from: 1_000, to: None }));
    b.accept_page(vec![
        playing("Now", None),
        played("F", Some("6000")),
        played("E", Some("5000")),
        played("Broken", Some("x")),
    ]);
    assert!(!b.is_finished());
    assert_eq!(b.next_request(), Some(PageRequest { from: 1_000, to: Some(5_000) }));
    b.accept_page(vec![played("D", Some("4000")), played("C", Some("3000"))]);
    assert_eq!(b.next_request(), Some(PageRequest { from: 1_000, to: Some(3_000) }));
    b.accept_page(vec![played("B", Some("2000")), played("A", Some("1000"))]);
    assert!(b.is_finished());
    assert_eq!(b.next_request(), None);
    let evs = b.events();
    let titles: Vec<&str> = evs.iter().map(title).collect();
    assert_eq!(titles, vec!["A", "B", "C", "D", "E", "F"]);
    assert!(evs.windows(2).all(|w| w[0].timestamp <= w[1].timestamp));
}

#[test]
fn backfill_stops_on_empty_page() {
    let mut b = Backfill::new(100, 1000);
    assert_eq!(b.next_request(), Some(PageRequest { from: 0, to: None }));
    b.accept_page(vec![played("A", Some("50"))]);
    assert!(!b.is_finished());
    b.accept_page(vec![]);
    assert!(b.is_finished());
    assert_eq!(b.events().len(), 1);
}

#[test]
fn backfill_stops_when_no_progress() {
    let mut b = Backfill::new(10_000, 5_000);
    b.accept_page(vec![played("B", Some("8000")), played("A", Some("7000"))]);
    assert!(!b.is_finished());
    b.accept_page(vec![played("A", Some("7000"))]);
    assert!(b.is_finished());
}

#[test]
fn backfill_starting_now_uses_clock() {
    let b = Backfill::start_now(60);
    match b.next_request() {
        Some(PageRequest { from, to: None }) => assert!(from > 1_600_000_000),
        other => panic!("unexpected request {:?}", other),
    }
}

#[test]
fn tick_now_uses_clock() {
    let poller = Poller::new(10);
    let outcome = FetchOutcome::Fetched(vec![playing("Song A", None)]);
    match poller.on_tick_now(&outcome) {
        TickAction::Heartbeat { event, .. } => assert!(event.timestamp > 1_600_000_000),
        TickAction::Skip => panic!("expected a heartbeat"),
    }
}
