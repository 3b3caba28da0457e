use release_radar::descriptor::Descriptor;
use release_radar::query::build_mb_url;
use release_radar::release::{AcRaw, Cache, MbResp, Release, RgRaw};
use release_radar::scan::{
    do_scan, reply_outcome, reply_warning, step, Outcome, Reply, ScanAction, ScanEvent, ScanState,
};

const NOW: i64 = 1_728_000_000;

fn artists(n: usize) -> Vec<String> {
    (0..n).map(|i| format!("Artist {i}")).collect()
}

fn cache_at(next_index: usize) -> Cache {
    Cache { releases: Vec::new(), next_index, total: 0, updated_at: 0 }
}

fn found(artist: &str, id: &str, date: &str) -> Reply {
    Reply::Response {
        status: 200,
        body: Some(MbResp {
            release_groups: vec![RgRaw {
                id: id.to_string(),
                title: "T".to_string(),
                first_release_date: date.to_string(),
                primary_type: Some("Single".to_string()),
                artist_credit: vec![AcRaw { name: artist.to_string() }],
            }],
        }),
    }
}

fn answer(status: u16) -> Reply {
    Reply::Response { status, body: None }
}

/// Runs a scan: the clock reads what `clock` says, and `reply` answers the
/// request for an artist. Gives the waits, the artists asked for, the
/// addresses, and what was shown.
fn run(
    cache: Cache,
    reset: bool,
    listed: Result<Vec<String>, String>,
    mut clock: impl FnMut() -> i64,
    mut reply: impl FnMut(&str) -> Reply,
) -> (Vec<u64>, Vec<String>, Vec<String>, bool, Cache, Descriptor) {
    let (mut state, mut action) = do_scan(cache, reset);
    let mut listed = Some(listed);
    let mut waits = Vec::new();
    let mut asked = Vec::new();
    let mut urls = Vec::new();
    loop {
        let event = match action {
            ScanAction::ListArtists { limit } => {
                assert_eq!(limit, 60);
                ScanEvent::Artists(listed.take().unwrap())
            }
            ScanAction::ReadClock => ScanEvent::Clock(clock()),
            ScanAction::Fetch { wait_ms, artist, request } => {
                let event = ScanEvent::Reply(reply(&artist));
                waits.push(wait_ms);
                asked.push(artist);
                urls.push(request.url);
                event
            }
            ScanAction::Show { save, cache, page } => {
                assert!(matches!(state, ScanState::Done));
                return (waits, asked, urls, save, cache, page);
            }
            ScanAction::Ignore => panic!("ignored"),
        };
        (state, action) = step(state, event);
    }
}

#[test]
fn replies_are_classified() {
    assert!(reply_outcome(&answer(200)) == Outcome::Found);
    assert!(reply_outcome(&answer(503)) == Outcome::RateLimited);
    assert!(reply_outcome(&answer(429)) == Outcome::RateLimited);
    assert!(reply_outcome(&answer(404)) == Outcome::Refused);
    assert!(reply_outcome(&answer(201)) == Outcome::Refused);
    assert!(reply_outcome(&Reply::Failed("x".to_string())) == Outcome::Failed);
}

#[test]
fn failed_listing_is_shown_and_not_saved() {
    let (_, asked, _, save, cache, page) =
        run(cache_at(5), false, Err("denied".to_string()), || NOW, |_| answer(200));
    assert!(asked.is_empty());
    assert!(!save);
    assert_eq!(cache.next_index, 5);
    assert_eq!(page.status.as_deref(), Some("error: denied"));
}

#[test]
fn empty_library_is_stamped() {
    let (_, asked, _, save, cache, page) =
        run(cache_at(5), false, Ok(Vec::new()), || NOW, |_| answer(200));
    assert!(asked.is_empty());
    assert!(save);
    assert_eq!((cache.next_index, cache.total, cache.updated_at), (5, 0, NOW));
    assert_eq!(page.status.as_deref(), Some("fresh"));
}

#[test]
fn finished_sweep_shows_the_cache() {
    let (_, asked, _, save, cache, page) =
        run(cache_at(3), false, Ok(artists(3)), || NOW, |_| answer(200));
    assert!(asked.is_empty());
    assert!(!save);
    assert_eq!((cache.next_index, cache.total, cache.updated_at), (3, 3, 0));
    assert_eq!(page.status.as_deref(), Some("cached"));
}

#[test]
fn batch_goes_through_eight_artists() {
    let (waits, asked, urls, save, cache, page) = run(
        cache_at(2),
        false,
        Ok(artists(20)),
        || NOW,
        |artist| {
            let n: u32 = artist["Artist ".len()..].parse().unwrap();
            found(artist, &format!("id{n}"), &format!("2024-{:02}", n))
        },
    );
    assert_eq!(waits, [0, 1100, 1100, 1100, 1100, 1100, 1100, 1100]);
    assert_eq!(asked, artists(20)[2..10]);
    assert_eq!(urls[0], build_mb_url("Artist 2", "2024-04-07"));
    assert!(save);
    assert_eq!((cache.next_index, cache.total, cache.updated_at), (10, 20, NOW));
    let ids: Vec<&str> = cache.releases.iter().map(|r| r.id.as_str()).collect();
    assert_eq!(ids, ["id9", "id8", "id7", "id6", "id5"]);
    assert_eq!(page.status.as_deref(), Some("fresh"));
    assert_eq!(page.subtitle.as_deref(), Some("5 nouveauté(s) · 10/20 artistes"));
}

#[test]
fn last_batch_is_short() {
    let (waits, asked, _, _, cache, _) =
        run(cache_at(18), false, Ok(artists(20)), || NOW, |_| answer(404));
    assert_eq!(waits, [0, 1100]);
    assert_eq!(asked, artists(20)[18..20]);
    assert_eq!(cache.next_index, 20);
}

#[test]
fn rate_limit_keeps_the_cursor() {
    for status in [429, 503] {
        let (_, asked, _, save, cache, page) = run(
            cache_at(0),
            false,
            Ok(artists(20)),
            || NOW,
            |artist| if artist == "Artist 3" { answer(status) } else { answer(200) },
        );
        assert_eq!(asked, artists(4));
        assert!(save);
        assert_eq!(cache.next_index, 3);
        assert_eq!(page.status.as_deref(), Some("rate-limited"));
        let (waits, asked, _, _, _, _) =
            run(cache, false, Ok(artists(20)), || NOW, |_| answer(503));
        assert_eq!(asked, ["Artist 3"]);
        assert_eq!(waits, [0]);
    }
}

#[test]
fn failures_move_on() {
    let (_, asked, _, _, cache, page) = run(
        cache_at(0),
        false,
        Ok(artists(3)),
        || NOW,
        |artist| match artist {
            "Artist 0" => Reply::Failed("timeout".to_string()),
            "Artist 1" => answer(500),
            _ => found(artist, "x", "2024-09-09"),
        },
    );
    assert_eq!(asked.len(), 3);
    assert_eq!(cache.next_index, 3);
    assert_eq!(cache.releases.len(), 1);
    assert_eq!(page.status.as_deref(), Some("fresh"));
}

#[test]
fn slow_batch_stops_early() {
    let mut now = NOW;
    let (_, asked, _, save, cache, page) = run(
        cache_at(0),
        false,
        Ok(artists(20)),
        || {
            now += 10;
            now
        },
        |_| answer(200),
    );
    assert_eq!(asked, artists(2));
    assert!(save);
    assert_eq!(cache.next_index, 2);
    assert_eq!(cache.updated_at, now);
    assert_eq!(page.status.as_deref(), Some("partial"));
}

#[test]
fn guard_allows_twenty_two_seconds() {
    let times = [NOW, NOW, NOW + 22, NOW + 23, NOW + 24];
    let mut k = 0;
    let (_, asked, _, _, cache, page) = run(
        cache_at(0),
        false,
        Ok(artists(20)),
        || {
            k += 1;
            times[k - 1]
        },
        |_| answer(200),
    );
    assert_eq!(asked.len(), 1);
    assert_eq!((cache.next_index, cache.updated_at), (1, NOW + 24));
    assert_eq!(page.status.as_deref(), Some("partial"));
}

#[test]
fn rescan_forgets_the_releases() {
    let mut cache = cache_at(7);
    cache.releases.push(Release {
        id: "old".to_string(),
        title: String::new(),
        artist: String::new(),
        date: "2024".to_string(),
        primary_type: String::new(),
    });
    let (_, asked, _, _, cache, _) = run(cache, true, Ok(artists(2)), || NOW, |_| answer(200));
    assert_eq!(asked, artists(2));
    assert!(cache.releases.is_empty());
    assert_eq!(cache.next_index, 2);
}

#[test]
fn known_releases_are_not_added_twice() {
    let reply = |artist: &str| found(artist, "same", "2024-09-09");
    let (_, _, _, _, cache, _) = run(cache_at(0), false, Ok(artists(3)), || NOW, reply);
    assert_eq!(cache.releases.len(), 1);
    assert_eq!(cache.releases[0].artist, "Artist 0");
}

#[test]
fn old_releases_are_not_added() {
    let reply = |artist: &str| found(artist, "x", "2024-04-06");
    let (_, _, _, _, cache, _) = run(cache_at(0), false, Ok(artists(3)), || NOW, reply);
    assert!(cache.releases.is_empty());
}

#[test]
fn unexpected_events_change_nothing() {
    let (state, _) = do_scan(cache_at(4), false);
    let (state, action) = step(state, ScanEvent::Clock(NOW));
    assert!(matches!(action, ScanAction::Ignore));
    match state {
        ScanState::Listing { cache } => assert_eq!(cache.next_index, 4),
        _ => panic!("moved"),
    }
    let (state, action) = step(ScanState::Done, ScanEvent::Reply(answer(200)));
    assert!(matches!(state, ScanState::Done));
    assert!(matches!(action, ScanAction::Ignore));
}

#[test]
fn replies_that_brought_nothing_are_logged() {
    assert_eq!(
        reply_warning(&answer(404), "Air").as_deref(),
        Some("release-radar: MB 404 for Air")
    );
    assert_eq!(
        reply_warning(&Reply::Failed("timeout".to_string()), "Air").as_deref(),
        Some("release-radar: fetch failed: timeout")
    );
    assert!(reply_warning(&answer(200), "Air").is_none());
    assert!(reply_warning(&answer(429), "Air").is_none());
    assert!(reply_warning(&answer(503), "Air").is_none());
}

#[test]
fn batch_keeps_the_cutoff_of_its_first_reading() {
    let times = [NOW, NOW + 10 * 86_400, NOW + 10 * 86_400, NOW + 10 * 86_400, NOW + 10 * 86_400];
    let mut k = 0;
    let (_, _, urls, _, _, _) = run(
        cache_at(0),
        false,
        Ok(artists(2)),
        || {
            k += 1;
            times[k - 1]
        },
        |_| answer(200),
    );
    assert_eq!(
        urls,
        [build_mb_url("Artist 0", "2024-04-07"), build_mb_url("Artist 1", "2024-04-07")]
    );
}

#[test]
fn rescan_does_not_depend_on_the_store() {
    let reply = |artist: &str| found(artist, "x", "2024-09-09");
    let mut stored = cache_at(7);
    stored.total = 44;
    stored.updated_at = 5;
    let (w1, a1, u1, s1, c1, p1) = run(stored, true, Ok(artists(3)), || NOW, reply);
    let (w2, a2, u2, s2, c2, p2) = run(Cache::default(), true, Ok(artists(3)), || NOW, reply);
    assert_eq!((w1, a1, u1, s1), (w2, a2, u2, s2));
    assert_eq!((c1.next_index, c1.total, c1.updated_at), (c2.next_index, c2.total, c2.updated_at));
    assert_eq!(c1.releases.len(), c2.releases.len());
    assert_eq!(p1.subtitle, p2.subtitle);
}

#[test]
fn failed_rescan_still_tells_of_stored_progress() {
    let mut stored = cache_at(7);
    stored.total = 44;
    stored.updated_at = 5;
    let (_, _, _, save, _, page) =
        run(stored, true, Err("denied".to_string()), || NOW, |_| answer(200));
    assert!(!save);
    assert_eq!(page.subtitle.as_deref(), Some("0 nouveauté(s) · 0/44 artistes"));
}

#[test]
fn sweep_takes_a_few_calls() {
    let mut cache = Cache::default();
    let mut all: Vec<String> = Vec::new();
    for cursor in [8, 16, 20, 20, 20] {
        let (_, asked, _, save, after, _) =
            run(cache, false, Ok(artists(20)), || NOW, |_| answer(200));
        assert_eq!(save, !asked.is_empty());
        assert_eq!(after.next_index, cursor);
        all.extend(asked);
        cache = after;
    }
    assert_eq!(all, artists(20));
}

#[test]
fn remembered_releases_win_and_stay() {
    let old = |id: &str, date: &str| Release {
        id: id.to_string(),
        title: "old".to_string(),
        artist: String::new(),
        date: date.to_string(),
        primary_type: String::new(),
    };
    let mut cache = cache_at(0);
    cache.releases.push(old("ancient", "1999"));
    cache.releases.push(old("same", "2024-09-01"));
    let (_, _, _, _, saved, _) = run(
        cache,
        false,
        Ok(artists(2)),
        || NOW,
        |artist| match artist {
            "Artist 0" => found(artist, "same", "2024-09-09"),
            _ => found(artist, "new", "2024-09-09"),
        },
    );
    let list: Vec<(&str, &str)> =
        saved.releases.iter().map(|r| (r.id.as_str(), r.title.as_str())).collect();
    assert_eq!(list, [("new", "T"), ("same", "old"), ("ancient", "old")]);
}

/// How many events a scan is told until it shows its page.
fn events_until_shown(listed: Result<Vec<String>, String>, status: u16, late: i64) -> usize {
    let (mut state, mut action) = do_scan(cache_at(0), false);
    let mut listed = Some(listed);
    let mut readings = 0;
    let mut events = 0;
    loop {
        let event = match action {
            ScanAction::ListArtists { .. } => ScanEvent::Artists(listed.take().unwrap()),
            ScanAction::ReadClock => {
                readings += 1;
                ScanEvent::Clock(if readings > 2 { NOW + late } else { NOW })
            }
            ScanAction::Fetch { .. } => ScanEvent::Reply(answer(status)),
            ScanAction::Show { .. } => return events,
            ScanAction::Ignore => panic!("ignored"),
        };
        events += 1;
        (state, action) = step(state, event);
    }
}

#[test]
fn scans_end_within_twenty_events() {
    assert_eq!(events_until_shown(Err("denied".to_string()), 200, 0), 1);
    assert_eq!(events_until_shown(Ok(Vec::new()), 200, 0), 2);
    assert_eq!(events_until_shown(Ok(artists(1)), 200, 0), 6);
    assert_eq!(events_until_shown(Ok(artists(60)), 404, 0), 20);
    assert_eq!(events_until_shown(Ok(artists(60)), 503, 0), 6);
    assert_eq!(events_until_shown(Ok(artists(60)), 200, 23), 5);
}
