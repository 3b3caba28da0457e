//! The incremental scan, as a machine that says what to do next and is told
//! what came of it.
//!
//! MusicBrainz asks clients to average at most one request per second, and
//! the host caps the time of a single call. So a scan works through a bounded
//! batch of artists, spaces its requests, stops on a rate-limit answer, and
//! remembers a cursor from which the next scan goes on.

use crate::calendar;
use crate::descriptor;
use crate::descriptor::Descriptor;
use crate::query;
use crate::query::Request;
use crate::release;
use crate::release::{Cache, MbResp};
use crate::text;
use vstd::prelude::*;

verus! {

/// How many of the library's top artists (by track count — the host orders
/// the snapshot) the radar follows. Bounded so a huge library doesn't imply
/// thousands of MusicBrainz calls.
pub const ARTIST_SCAN_LIMIT: u32 = 60;

/// Artists processed per scan. Kept small so one call stays well under the
/// host's deadline even on a slow link.
pub const BATCH: usize = 8;

/// A release is "recent" if its first-release date is within this many days
/// of now.
pub const RECENT_DAYS: i64 = 180;

/// Stop a batch early if it has already run this long, so a slow network
/// can't push a single call past the host's deadline.
pub const WALL_GUARD_SECS: i64 = 22;

/// Spacing between MusicBrainz requests, in milliseconds.
pub const SPACING_MS: u64 = 1100;

// ----- events ---------------------------------------------------------------

/// What came of a request.
pub enum Reply {
    /// The server answered. The body is `None` where it could not be read as
    /// a search response.
    Response { status: u16, body: Option<MbResp> },
    /// No answer was had.
    Failed(String),
}

/// What a [`Reply`] says.
pub enum ReplyView {
    Response { status: int, body: Option<Seq<release::GroupView>> },
    Failed(Seq<char>),
}

impl View for Reply {
    type V = ReplyView;

    open spec fn view(&self) -> ReplyView {
        match self {
            Reply::Response { status, body } => ReplyView::Response {
                status: *status as int,
                body: match body {
                    Some(resp) => Some(resp@),
                    None => None,
                },
            },
            Reply::Failed(message) => ReplyView::Failed(message@),
        }
    }
}

/// What a reply means for the scan.
#[derive(Clone, Copy, PartialEq, Eq, Structural)]
pub enum Outcome {
    /// A search response.
    Found,
    /// Asked to slow down: stop, and try this artist again next time.
    RateLimited,
    /// Another answer: go on to the next artist.
    Refused,
    /// No answer: go on to the next artist.
    Failed,
}

/// What a reply means for the scan.
pub open spec fn outcome(reply: ReplyView) -> Outcome {
    match reply {
        ReplyView::Response { status, .. } => if status == 200 {
            Outcome::Found
        } else if status == 503 || status == 429 {
            Outcome::RateLimited
        } else {
            Outcome::Refused
        },
        ReplyView::Failed(_) => Outcome::Failed,
    }
}

/// What a reply means for the scan.
pub fn reply_outcome(reply: &Reply) -> (result: Outcome)
    ensures
        result == outcome(reply@),
{
    match reply {
        Reply::Response { status, .. } => if *status == 200 {
            Outcome::Found
        } else if *status == 503 || *status == 429 {
            Outcome::RateLimited
        } else {
            Outcome::Refused
        },
        Reply::Failed(_) => Outcome::Failed,
    }
}

/// The line for the log about a reply that brought nothing, if it did so for
/// any other reason than a rate limit.
pub open spec fn warning_text(reply: ReplyView, artist: Seq<char>) -> Option<Seq<char>> {
    match reply {
        ReplyView::Response { status, .. } => if outcome(reply) == Outcome::Refused {
            Some("release-radar: MB "@ + text::decimal(status as nat) + " for "@ + artist)
        } else {
            None
        },
        ReplyView::Failed(message) => Some("release-radar: fetch failed: "@ + message),
    }
}

/// The line for the log about a reply that brought nothing, if it did so for
/// any other reason than a rate limit.
pub fn reply_warning(reply: &Reply, artist: &str) -> (warning: Option<String>)
    ensures
        descriptor::opt_text(warning) == warning_text(reply@, artist@),
{
    match reply {
        Reply::Response { status, .. } => if reply_outcome(reply) == Outcome::Refused {
            let mut line = "release-radar: MB ".to_owned();
            text::push_decimal(&mut line, *status as usize);
            line.append(" for ");
            line.append(artist);
            Some(line)
        } else {
            None
        },
        Reply::Failed(message) => {
            let mut line = "release-radar: fetch failed: ".to_owned();
            line.append(message.as_str());
            Some(line)
        },
    }
}

/// What a scan is told.
pub enum ScanEvent {
    /// The names of the library's artists, or why they could not be had.
    Artists(Result<Vec<String>, String>),
    /// Seconds since the Unix epoch.
    Clock(i64),
    /// What came of the request.
    Reply(Reply),
}

/// What a [`ScanEvent`] says.
pub enum EventView {
    Artists(Result<Seq<Seq<char>>, Seq<char>>),
    Clock(i64),
    Reply(ReplyView),
}

/// What each name of a list says.
pub open spec fn names(artists: Seq<String>) -> Seq<Seq<char>> {
    artists.map_values(|name: String| name@)
}

impl View for ScanEvent {
    type V = EventView;

    open spec fn view(&self) -> EventView {
        match self {
            ScanEvent::Artists(Ok(artists)) => EventView::Artists(Ok(names(artists@))),
            ScanEvent::Artists(Err(message)) => EventView::Artists(Err(message@)),
            ScanEvent::Clock(now) => EventView::Clock(*now),
            ScanEvent::Reply(reply) => EventView::Reply(reply@),
        }
    }
}

// ----- actions --------------------------------------------------------------

/// What a scan asks for.
pub enum ScanAction {
    /// Ask the host for the library's top artists, this many at most.
    ListArtists { limit: u32 },
    /// Read the clock.
    ReadClock,
    /// Wait, then send the request for the artist's releases.
    Fetch { wait_ms: u64, artist: String, request: Request },
    /// The scan is over: store the cache if asked to, and show the page.
    Show { save: bool, cache: Cache, page: Descriptor },
    /// The event was not the one that was waited for.
    Ignore,
}

/// What a [`ScanAction`] says.
pub enum ActionView {
    ListArtists { limit: u32 },
    ReadClock,
    Fetch { wait_ms: u64, artist: Seq<char>, request: query::RequestView },
    Show { save: bool, cache: release::CacheView, page: descriptor::DescriptorView },
    Ignore,
}

impl View for ScanAction {
    type V = ActionView;

    open spec fn view(&self) -> ActionView {
        match self {
            ScanAction::ListArtists { limit } => ActionView::ListArtists { limit: *limit },
            ScanAction::ReadClock => ActionView::ReadClock,
            ScanAction::Fetch { wait_ms, artist, request } => ActionView::Fetch {
                wait_ms: *wait_ms,
                artist: artist@,
                request: request@,
            },
            ScanAction::Show { save, cache, page } => ActionView::Show {
                save: *save,
                cache: cache@,
                page: page@,
            },
            ScanAction::Ignore => ActionView::Ignore,
        }
    }
}

// ----- states ---------------------------------------------------------------

/// A batch: the artists from `start` up to `end`, of which the one at `next`
/// is at hand. The cutoff and the time it began are set as the clock is read.
pub struct Batch {
    cache: Cache,
    artists: Vec<String>,
    cutoff: String,
    start: usize,
    end: usize,
    next: usize,
    began: i64,
}

/// What a [`Batch`] holds.
#[verifier::ext_equal]
pub struct BatchView {
    pub cache: release::CacheView,
    pub artists: Seq<Seq<char>>,
    pub cutoff: Seq<char>,
    pub start: nat,
    pub end: nat,
    pub next: nat,
    pub began: i64,
}

impl BatchView {
    /// The batch is a stretch of the artist list, of bounded length, and the
    /// artist at hand lies in it.
    pub open spec fn well_formed(self) -> bool {
        &&& self.start <= self.next < self.end <= self.artists.len()
        &&& self.end - self.start <= BATCH
    }
}

impl View for Batch {
    type V = BatchView;

    closed spec fn view(&self) -> BatchView {
        BatchView {
            cache: self.cache@,
            artists: names(self.artists@),
            cutoff: self.cutoff@,
            start: self.start as nat,
            end: self.end as nat,
            next: self.next as nat,
            began: self.began,
        }
    }
}

impl Batch {
    #[verifier::type_invariant]
    spec fn in_range(self) -> bool {
        &&& self.start <= self.next < self.end <= self.artists@.len()
        &&& self.end - self.start <= BATCH
    }
}

/// What a scan waits for.
pub enum ScanState {
    /// The artist list.
    Listing { cache: Cache },
    /// The time at which an empty library was found.
    Stamping { cache: Cache },
    /// The time from which the cutoff is reckoned.
    Dating { batch: Batch },
    /// The time at which the batch begins.
    Opening { batch: Batch },
    /// The time, to see whether the batch has run too long.
    Checking { batch: Batch },
    /// The reply to the request.
    Fetching { batch: Batch },
    /// The time at which the batch ended.
    Closing { cache: Cache, next_index: usize, status: &'static str },
    /// Nothing more.
    Done,
}

/// What a [`ScanState`] holds.
pub enum StateView {
    Listing { cache: release::CacheView },
    Stamping { cache: release::CacheView },
    Dating { batch: BatchView },
    Opening { batch: BatchView },
    Checking { batch: BatchView },
    Fetching { batch: BatchView },
    Closing { cache: release::CacheView, next_index: nat, status: Seq<char> },
    Done,
}

impl StateView {
    /// Whatever batch the scan holds is in range.
    pub open spec fn well_formed(self) -> bool {
        match self {
            StateView::Dating { batch } => batch.well_formed(),
            StateView::Opening { batch } => batch.well_formed(),
            StateView::Checking { batch } => batch.well_formed(),
            StateView::Fetching { batch } => batch.well_formed(),
            _ => true,
        }
    }
}

impl View for ScanState {
    type V = StateView;

    open spec fn view(&self) -> StateView {
        match self {
            ScanState::Listing { cache } => StateView::Listing { cache: cache@ },
            ScanState::Stamping { cache } => StateView::Stamping { cache: cache@ },
            ScanState::Dating { batch } => StateView::Dating { batch: batch@ },
            ScanState::Opening { batch } => StateView::Opening { batch: batch@ },
            ScanState::Checking { batch } => StateView::Checking { batch: batch@ },
            ScanState::Fetching { batch } => StateView::Fetching { batch: batch@ },
            ScanState::Closing { cache, next_index, status } => StateView::Closing {
                cache: cache@,
                next_index: *next_index as nat,
                status: status@,
            },
            ScanState::Done => StateView::Done,
        }
    }
}

// ----- steps ----------------------------------------------------------------

/// The scan is over: the cache and its page, with this status.
pub open spec fn show(save: bool, cache: release::CacheView, status: Seq<char>) -> ActionView {
    ActionView::Show { save, cache, page: descriptor::page(cache, status) }
}

/// Whether a batch that began at `began` has run too long at `now`.
pub open spec fn overdue(now: i64, began: i64) -> bool {
    now.wrapping_sub(began) > WALL_GUARD_SECS
}

/// The end of the batch that starts at `start`.
pub open spec fn batch_end(start: nat, total: nat) -> nat {
    if start + BATCH < total {
        start + BATCH as nat
    } else {
        total
    }
}

/// The batch that goes on from the cursor of the cache.
pub open spec fn new_batch(cache: release::CacheView, artists: Seq<Seq<char>>) -> BatchView {
    BatchView {
        cache,
        artists,
        cutoff: seq![],
        start: cache.next_index,
        end: batch_end(cache.next_index, artists.len()),
        next: cache.next_index,
        began: 0,
    }
}

/// The artist list is there.
pub open spec fn on_artists(
    cache: release::CacheView,
    listed: Result<Seq<Seq<char>>, Seq<char>>,
) -> (StateView, ActionView) {
    match listed {
        Err(message) => (StateView::Done, show(false, cache, "error: "@ + message)),
        Ok(artists) => {
            let cache = release::CacheView { total: artists.len(), ..cache };
            if artists.len() == 0 {
                (StateView::Stamping { cache }, ActionView::ReadClock)
            } else if cache.next_index >= artists.len() {
                (StateView::Done, show(false, cache, "cached"@))
            } else {
                (StateView::Dating { batch: new_batch(cache, artists) }, ActionView::ReadClock)
            }
        },
    }
}

/// The request for the artist at hand, spaced from the one before it.
pub open spec fn fetch(batch: BatchView) -> ActionView {
    let artist = batch.artists[batch.next as int];
    ActionView::Fetch {
        wait_ms: if batch.next > batch.start {
            SPACING_MS
        } else {
            0
        },
        artist,
        request: query::mb_request(query::mb_url(artist, batch.cutoff)),
    }
}

/// The releases of the batch after a reply.
pub open spec fn gathered(batch: BatchView, reply: ReplyView) -> Seq<release::ReleaseView> {
    match reply {
        ReplyView::Response { status, body } => if status == 200 {
            release::merged(
                batch.cache.releases,
                release::found_releases(body, batch.artists[batch.next as int], batch.cutoff),
            )
        } else {
            batch.cache.releases
        },
        ReplyView::Failed(_) => batch.cache.releases,
    }
}

/// The reply is there: a rate limit ends the batch with the cursor on this
/// artist, anything else moves on to the next.
pub open spec fn on_reply(batch: BatchView, reply: ReplyView) -> StateView {
    if outcome(reply) == Outcome::RateLimited {
        StateView::Closing { cache: batch.cache, next_index: batch.next, status: "rate-limited"@ }
    } else {
        let cache = release::CacheView { releases: gathered(batch, reply), ..batch.cache };
        if batch.next + 1 < batch.end {
            StateView::Checking { batch: BatchView { cache, next: batch.next + 1, ..batch } }
        } else {
            StateView::Closing { cache, next_index: batch.next + 1, status: "fresh"@ }
        }
    }
}

/// The cache at the end of a batch.
pub open spec fn closed_cache(
    cache: release::CacheView,
    next_index: nat,
    now: i64,
) -> release::CacheView {
    release::CacheView {
        releases: release::kept(cache.releases),
        next_index,
        total: cache.total,
        updated_at: now as int,
    }
}

/// One step: what the scan waits for next, and what it asks for.
pub open spec fn advance(state: StateView, event: EventView) -> (StateView, ActionView) {
    match (state, event) {
        (StateView::Listing { cache }, EventView::Artists(listed)) => on_artists(cache, listed),
        (StateView::Stamping { cache }, EventView::Clock(now)) => (
            StateView::Done,
            show(true, release::CacheView { updated_at: now as int, ..cache }, "fresh"@),
        ),
        (StateView::Dating { batch }, EventView::Clock(now)) => (
            StateView::Opening {
                batch: BatchView {
                    cutoff: calendar::day_text(calendar::cutoff_day(now, RECENT_DAYS)),
                    ..batch
                },
            },
            ActionView::ReadClock,
        ),
        (StateView::Opening { batch }, EventView::Clock(now)) => (
            StateView::Checking { batch: BatchView { began: now, ..batch } },
            ActionView::ReadClock,
        ),
        (StateView::Checking { batch }, EventView::Clock(now)) => if overdue(now, batch.began) {
            (
                StateView::Closing {
                    cache: batch.cache,
                    next_index: batch.next,
                    status: "partial"@,
                },
                ActionView::ReadClock,
            )
        } else {
            (StateView::Fetching { batch }, fetch(batch))
        },
        (StateView::Fetching { batch }, EventView::Reply(reply)) => (
            on_reply(batch, reply),
            ActionView::ReadClock,
        ),
        (StateView::Closing { cache, next_index, status }, EventView::Clock(now)) => (
            StateView::Done,
            show(true, closed_cache(cache, next_index, now), status),
        ),
        _ => (state, ActionView::Ignore),
    }
}

/// The cache with which a scan begins: the stored one, with a rescan without
/// its releases and its cursor.
pub open spec fn opened_cache(cache: release::CacheView, reset: bool) -> release::CacheView {
    if reset {
        release::CacheView { releases: seq![], next_index: 0, ..cache }
    } else {
        cache
    }
}

/// Begins a scan: a batch of artists from where the last one stopped, or,
/// with `reset`, from the first artist and with no releases (a full rescan).
pub fn do_scan(cache: Cache, reset: bool) -> (begun: (ScanState, ScanAction))
    ensures
        begun.0@ == (StateView::Listing { cache: opened_cache(cache@, reset) }),
        !reset ==> begun.0@ == (StateView::Listing { cache: cache@ }),
        reset ==> {
            &&& begun.0@ matches StateView::Listing { cache: opened }
            &&& opened.releases.len() == 0
            &&& opened.next_index == 0
            &&& opened.total == cache@.total
            &&& opened.updated_at == cache@.updated_at
        },
        begun.1@ == (ActionView::ListArtists { limit: ARTIST_SCAN_LIMIT }),
{
    let mut cache = cache;
    let ghost before = cache@;
    if reset {
        cache.releases.clear();
        cache.next_index = 0;
        assert(cache@ =~= opened_cache(before, reset));
    }
    (ScanState::Listing { cache }, ScanAction::ListArtists { limit: ARTIST_SCAN_LIMIT })
}

fn show_page(save: bool, cache: Cache, status: &str) -> (action: ScanAction)
    ensures
        action@ == show(save, cache@, status@),
{
    let page = descriptor::render_view(&cache, status);
    ScanAction::Show { save, cache, page }
}

fn take_artists(cache: Cache, listed: Result<Vec<String>, String>) -> (next: (
    ScanState,
    ScanAction,
))
    ensures
        (next.0@, next.1@) == on_artists(
            cache@,
            match listed {
                Ok(artists) => Ok(names(artists@)),
                Err(message) => Err(message@),
            },
        ),
{
    let artists = match listed {
        Ok(artists) => artists,
        Err(message) => {
            let mut status = "error: ".to_owned();
            status.append(message.as_str());
            return (ScanState::Done, show_page(false, cache, status.as_str()));
        },
    };
    let mut cache = cache;
    let ghost before = cache@;
    cache.total = artists.len();
    assert(cache@ =~= release::CacheView { total: artists@.len(), ..before });
    if artists.len() == 0 {
        return (ScanState::Stamping { cache }, ScanAction::ReadClock);
    }
    if cache.next_index >= artists.len() {
        return (ScanState::Done, show_page(false, cache, "cached"));
    }
    let start: usize = cache.next_index;
    let end: usize = if artists.len() - start > BATCH {
        start + BATCH
    } else {
        artists.len()
    };
    let batch = Batch { cache, artists, cutoff: String::new(), start, end, next: start, began: 0 };
    (ScanState::Dating { batch }, ScanAction::ReadClock)
}

fn request_next(batch: Batch) -> (next: (ScanState, ScanAction))
    ensures
        next.0@ == (StateView::Fetching { batch: batch@ }),
        next.1@ == fetch(batch@),
{
    proof {
        use_type_invariant(&batch);
    }
    let artist = batch.artists[batch.next].clone();
    let url = query::build_mb_url(artist.as_str(), batch.cutoff.as_str());
    let request = query::mb_get(url.as_str());
    let wait_ms: u64 = if batch.next > batch.start {
        SPACING_MS
    } else {
        0
    };
    (ScanState::Fetching { batch }, ScanAction::Fetch { wait_ms, artist, request })
}

fn take_reply(batch: Batch, reply: Reply) -> (next: ScanState)
    ensures
        next@ == on_reply(batch@, reply@),
{
    proof {
        use_type_invariant(&batch);
    }
    let ghost view = batch@;
    let result = reply_outcome(&reply);
    let Batch { mut cache, artists, cutoff, start, end, next, began } = batch;
    if result == Outcome::RateLimited {
        return ScanState::Closing { cache, next_index: next, status: "rate-limited" };
    }
    if result == Outcome::Found {
        match reply {
            Reply::Response { body, .. } => {
                let found = release::parse_release_groups(
                    body,
                    artists[next].as_str(),
                    cutoff.as_str(),
                );
                release::merge_releases(&mut cache.releases, found);
            },
            Reply::Failed(_) => {},
        }
    }
    assert(cache@ =~= release::CacheView { releases: gathered(view, reply@), ..view.cache });
    if next + 1 < end {
        let batch = Batch { cache, artists, cutoff, start, end, next: next + 1, began };
        ScanState::Checking { batch }
    } else {
        ScanState::Closing { cache, next_index: next + 1, status: "fresh" }
    }
}

/// One step of a scan: takes what came of the last action and gives the next
/// one. An event that is not waited for changes nothing.
pub fn step(state: ScanState, event: ScanEvent) -> (next: (ScanState, ScanAction))
    ensures
        (next.0@, next.1@) == advance(state@, event@),
{
    match (state, event) {
        (ScanState::Listing { cache }, ScanEvent::Artists(listed)) => take_artists(cache, listed),
        (ScanState::Stamping { cache }, ScanEvent::Clock(now)) => {
            let mut cache = cache;
            let ghost before = cache@;
            cache.updated_at = now;
            assert(cache@ =~= release::CacheView { updated_at: now as int, ..before });
            (ScanState::Done, show_page(true, cache, "fresh"))
        },
        (ScanState::Dating { batch }, ScanEvent::Clock(now)) => {
            proof {
                use_type_invariant(&batch);
            }
            let cutoff = calendar::cutoff_date_at(now, RECENT_DAYS);
            let Batch { cache, artists, cutoff: _, start, end, next, began } = batch;
            let batch = Batch { cache, artists, cutoff, start, end, next, began };
            (ScanState::Opening { batch }, ScanAction::ReadClock)
        },
        (ScanState::Opening { batch }, ScanEvent::Clock(now)) => {
            proof {
                use_type_invariant(&batch);
            }
            let Batch { cache, artists, cutoff, start, end, next, began: _ } = batch;
            let batch = Batch { cache, artists, cutoff, start, end, next, began: now };
            (ScanState::Checking { batch }, ScanAction::ReadClock)
        },
        (ScanState::Checking { batch }, ScanEvent::Clock(now)) => {
            if now.wrapping_sub(batch.began) > WALL_GUARD_SECS {
                let Batch { cache, next, .. } = batch;
                (
                    ScanState::Closing { cache, next_index: next, status: "partial" },
                    ScanAction::ReadClock,
                )
            } else {
                request_next(batch)
            }
        },
        (ScanState::Fetching { batch }, ScanEvent::Reply(reply)) => (
            take_reply(batch, reply),
            ScanAction::ReadClock,
        ),
        (ScanState::Closing { cache, next_index, status }, ScanEvent::Clock(now)) => {
            let mut cache = cache;
            let ghost before = cache@;
            cache.next_index = next_index;
            cache.updated_at = now;
            release::sort_and_cap(&mut cache.releases);
            assert(cache@ =~= closed_cache(before, next_index as nat, now));
            (ScanState::Done, show_page(true, cache, status))
        },
        (state, _) => (state, ScanAction::Ignore),
    }
}

} // verus!
