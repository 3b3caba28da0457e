//! What each step of a scan promises, stated over what it holds before and
//! after.

use crate::calendar;
use crate::descriptor;
use crate::promises;
use crate::query;
use crate::release;
use crate::scan;
use crate::scan::{
    ActionView, BatchView, EventView, Outcome, Reply, ReplyView, ScanAction, ScanEvent, ScanState,
    StateView,
};
use crate::text;
use vstd::prelude::*;

verus! {

// ----- beginning ------------------------------------------------------------

/// A scan that goes on begins with exactly what is stored. A rescan begins
/// without releases and at the first artist, and knows the rest.
pub proof fn scans_begin_with_what_is_stored(stored: release::CacheView)
    ensures
        scan::opened_cache(stored, false) == stored,
        scan::opened_cache(stored, true).releases.len() == 0,
        scan::opened_cache(stored, true).next_index == 0,
        scan::opened_cache(stored, true).total == stored.total,
        scan::opened_cache(stored, true).updated_at == stored.updated_at,
{
}

/// Whether two caches hold the same releases, cursor and time.
pub open spec fn same_but_total(a: release::CacheView, b: release::CacheView) -> bool {
    &&& a.releases == b.releases
    &&& a.next_index == b.next_index
    &&& a.updated_at == b.updated_at
}

/// Where the artist list cannot be had, the scan is over: it shows what it
/// began with and why, and saves nothing.
pub proof fn failed_listings_are_shown(cache: release::CacheView, message: Seq<char>)
    ensures
        scan::advance(StateView::Listing { cache }, EventView::Artists(Err(message))) == (
            StateView::Done,
            ActionView::Show {
                save: false,
                cache,
                page: descriptor::page(cache, "error: "@ + message),
            },
        ),
{
}

/// The artist list sets the total and nothing else. An empty one is stamped
/// with the time. With the cursor behind its end the scan is over and saves
/// nothing. Otherwise a batch begins at the cursor, over the whole list, and
/// goes through eight artists, or as many as are left.
pub proof fn listings_set_the_total(cache: release::CacheView, artists: Seq<Seq<char>>)
    ensures
        ({
            let (next, action) = scan::advance(
                StateView::Listing { cache },
                EventView::Artists(Ok(artists)),
            );
            let left = artists.len() - cache.next_index;
            &&& artists.len() == 0 ==> {
                &&& next matches StateView::Stamping { cache: held }
                &&& held.total == 0 && same_but_total(held, cache)
                &&& action is ReadClock
            }
            &&& artists.len() > 0 && left <= 0 ==> {
                &&& next is Done
                &&& action matches ActionView::Show { save, cache: shown, page }
                &&& !save
                &&& shown.total == artists.len() && same_but_total(shown, cache)
                &&& page == descriptor::page(shown, "cached"@)
            }
            &&& left > 0 ==> {
                &&& next matches StateView::Dating { batch }
                &&& batch.cache.total == artists.len() && same_but_total(batch.cache, cache)
                &&& batch.artists == artists
                &&& batch.start == cache.next_index
                &&& batch.next == cache.next_index
                &&& left >= 8 ==> batch.end == cache.next_index + 8
                &&& left < 8 ==> batch.end == artists.len()
                &&& action is ReadClock
            }
        }),
{
}

/// An empty library is saved and shown as fresh, with the time and nothing
/// else changed.
pub proof fn empty_libraries_are_stamped(cache: release::CacheView, now: i64)
    ensures
        ({
            let (next, action) = scan::advance(
                StateView::Stamping { cache },
                EventView::Clock(now),
            );
            &&& next is Done
            &&& action matches ActionView::Show { save, cache: shown, page }
            &&& save
            &&& shown.releases == cache.releases
            &&& shown.next_index == cache.next_index
            &&& shown.total == cache.total
            &&& shown.updated_at == now
            &&& page == descriptor::page(shown, "fresh"@)
        }),
{
}

// ----- the batch ------------------------------------------------------------

/// Whether two batches go over the same artists from and to the same places,
/// with the same one at hand.
pub open spec fn same_stretch(a: BatchView, b: BatchView) -> bool {
    &&& a.artists == b.artists
    &&& a.start == b.start
    &&& a.end == b.end
    &&& a.next == b.next
}

/// The first reading of the clock sets the cutoff and nothing else: the day
/// that lies 180 days before the day of the reading.
pub proof fn the_cutoff_lies_half_a_year_back(
    batch: BatchView,
    now: i64,
    year: int,
    month: int,
    day: int,
)
    requires
        i64::MIN <= now - 180 * 86_400,
        0 <= year <= 9999,
        calendar::valid_date(year, month, day),
        calendar::day_number(year, month, day) == now as int / 86_400 - 180,
    ensures
        ({
            let (next, action) = scan::advance(StateView::Dating { batch }, EventView::Clock(now));
            &&& next matches StateView::Opening { batch: dated }
            &&& dated.cutoff.len() == 10
            &&& promises::names_day(dated.cutoff, year, month, day)
            &&& action is ReadClock
        }),
{
    promises::cutoff_names_its_day(now, 180, year, month, day);
}

/// Dating a batch changes nothing but its cutoff, and opening it nothing but
/// the time at which it began.
pub proof fn readings_set_one_thing(batch: BatchView, now: i64)
    ensures
        ({
            let (next, action) = scan::advance(StateView::Dating { batch }, EventView::Clock(now));
            &&& next matches StateView::Opening { batch: dated }
            &&& dated.cutoff == calendar::day_text(calendar::cutoff_day(now, 180))
            &&& dated.cache == batch.cache
            &&& same_stretch(dated, batch)
            &&& action is ReadClock
        }),
        ({
            let (next, action) = scan::advance(StateView::Opening { batch }, EventView::Clock(now));
            &&& next matches StateView::Checking { batch: opened }
            &&& opened.began == now
            &&& opened.cutoff == batch.cutoff
            &&& opened.cache == batch.cache
            &&& same_stretch(opened, batch)
            &&& action is ReadClock
        }),
{
}

/// A batch that began more than 22 seconds ago stops, with the cursor on the
/// artist at hand. Otherwise that artist is asked for, from the cutoff on, at
/// once if it is the first of the batch, and else after 1.1 seconds.
pub proof fn checks_stop_or_ask(batch: BatchView, now: i64)
    ensures
        i64::MIN <= now - batch.began <= i64::MAX ==> (scan::overdue(now, batch.began) <==> now
            - batch.began > 22),
        ({
            let (next, action) = scan::advance(
                StateView::Checking { batch },
                EventView::Clock(now),
            );
            let artist = batch.artists[batch.next as int];
            &&& scan::overdue(now, batch.began) ==> {
                &&& next == (StateView::Closing {
                    cache: batch.cache,
                    next_index: batch.next,
                    status: "partial"@,
                })
                &&& action is ReadClock
            }
            &&& !scan::overdue(now, batch.began) ==> {
                &&& next == (StateView::Fetching { batch })
                &&& action matches ActionView::Fetch { wait_ms, artist: asked, request }
                &&& batch.next > batch.start ==> wait_ms == 1100
                &&& batch.next <= batch.start ==> wait_ms == 0
                &&& asked == artist
                &&& request == query::mb_request(query::mb_url(artist, batch.cutoff))
            }
        }),
{
}

/// How long a batch has run is reckoned in 64 bits, and 22 seconds are not yet
/// too long.
pub proof fn running_time_is_a_difference(now: i64, began: i64) -> (passed: i64)
    ensures
        (now - began - passed) % 0x1_0000_0000_0000_0000 == 0,
        scan::overdue(now, began) <==> passed > 22,
{
    now.wrapping_sub(began)
}

/// The status decides what a reply means: 200 brings releases, 429 and 503
/// ask to slow down, and any other brings nothing.
pub proof fn replies_mean_what_their_status_says(
    status: int,
    body: Option<Seq<release::GroupView>>,
    message: Seq<char>,
)
    ensures
        ({
            let meaning = scan::outcome(ReplyView::Response { status, body });
            &&& meaning == Outcome::Found <==> status == 200
            &&& meaning == Outcome::RateLimited <==> status == 429 || status == 503
            &&& meaning == Outcome::Refused <==> status != 200 && status != 429 && status != 503
        }),
        scan::outcome(ReplyView::Failed(message)) == Outcome::Failed,
{
}

/// A rate limit stops the batch with the cursor on the artist at hand and the
/// releases as they were.
pub proof fn rate_limits_leave_the_artist(
    batch: BatchView,
    status: int,
    body: Option<Seq<release::GroupView>>,
)
    requires
        status == 429 || status == 503,
    ensures
        ({
            let (next, action) = scan::advance(
                StateView::Fetching { batch },
                EventView::Reply(ReplyView::Response { status, body }),
            );
            &&& next == (StateView::Closing {
                cache: batch.cache,
                next_index: batch.next,
                status: "rate-limited"@,
            })
            &&& action is ReadClock
        }),
{
}

/// Any other reply moves on to the next artist, or ends the batch behind its
/// last one. A response with status 200 adds what it brings for the artist at
/// hand to the releases; any other reply leaves them as they were.
pub proof fn replies_move_on(batch: BatchView, reply: ReplyView)
    requires
        reply matches ReplyView::Response { status, .. } ==> status != 429 && status != 503,
    ensures
        ({
            let (next, action) = scan::advance(
                StateView::Fetching { batch },
                EventView::Reply(reply),
            );
            let artist = batch.artists[batch.next as int];
            let releases = match reply {
                ReplyView::Response { status, body } => if status == 200 {
                    release::merged(
                        batch.cache.releases,
                        release::found_releases(body, artist, batch.cutoff),
                    )
                } else {
                    batch.cache.releases
                },
                ReplyView::Failed(_) => batch.cache.releases,
            };
            &&& action is ReadClock
            &&& batch.next + 1 < batch.end ==> {
                &&& next matches StateView::Checking { batch: moved }
                &&& moved.next == batch.next + 1
                &&& moved.artists == batch.artists
                &&& moved.start == batch.start
                &&& moved.end == batch.end
                &&& moved.cutoff == batch.cutoff
                &&& moved.began == batch.began
                &&& moved.cache.releases == releases
                &&& moved.cache.next_index == batch.cache.next_index
                &&& moved.cache.total == batch.cache.total
                &&& moved.cache.updated_at == batch.cache.updated_at
            }
            &&& batch.next + 1 >= batch.end ==> {
                &&& next matches StateView::Closing { cache, next_index, status }
                &&& next_index == batch.next + 1
                &&& status == "fresh"@
                &&& cache.releases == releases
                &&& cache.total == batch.cache.total
            }
        }),
{
}

/// A batch that is over is saved and shown with its status: the newest of its
/// releases, the cursor where it stopped, the total as it was, and the time.
pub proof fn closed_batches_are_saved(
    cache: release::CacheView,
    next_index: nat,
    status: Seq<char>,
    now: i64,
)
    ensures
        ({
            let (next, action) = scan::advance(
                StateView::Closing { cache, next_index, status },
                EventView::Clock(now),
            );
            &&& next is Done
            &&& action matches ActionView::Show { save, cache: shown, page }
            &&& save
            &&& shown.releases == release::kept(cache.releases)
            &&& shown.next_index == next_index
            &&& shown.total == cache.total
            &&& shown.updated_at == now
            &&& page == descriptor::page(shown, status)
        }),
{
}

/// An event that is not waited for changes nothing, and once a scan is over
/// none is.
pub proof fn other_events_change_nothing(state: StateView, event: EventView)
    requires
        match state {
            StateView::Listing { .. } => !(event is Artists),
            StateView::Fetching { .. } => !(event is Reply),
            StateView::Done => true,
            _ => !(event is Clock),
        },
    ensures
        scan::advance(state, event) == (state, ActionView::Ignore),
{
}

/// The limits: 60 artists are followed, 8 asked for in a scan, 1.1 seconds
/// apart and for 22 seconds at most, releases are looked for over 180 days,
/// and 150 of them are kept.
pub proof fn limits()
    ensures
        scan::ARTIST_SCAN_LIMIT == 60,
        scan::BATCH == 8,
        scan::SPACING_MS == 1100,
        scan::WALL_GUARD_SECS == 22,
        scan::RECENT_DAYS == 180,
        release::MAX_RELEASES == 150,
{
}

// ----- what is logged -------------------------------------------------------

/// A reply is logged exactly when it is no response with status 200, 429 or
/// 503: with its status and the artist, or with why there is none.
pub proof fn other_replies_are_logged(
    status: int,
    body: Option<Seq<release::GroupView>>,
    message: Seq<char>,
    artist: Seq<char>,
)
    ensures
        scan::warning_text(ReplyView::Response { status, body }, artist) == if status == 200
            || status == 429 || status == 503 {
            None
        } else {
            Some("release-radar: MB "@ + text::decimal(status as nat) + " for "@ + artist)
        },
        scan::warning_text(ReplyView::Failed(message), artist) == Some(
            "release-radar: fetch failed: "@ + message,
        ),
{
}

// ----- what events, actions and states say ----------------------------------

/// A reply says its status, and what its body says if it could be read, or
/// why there is none.
pub proof fn replies_say_what_they_hold(
    status: u16,
    body: Option<release::MbResp>,
    message: String,
)
    ensures
        ({
            let said = Reply::Response { status, body }@;
            &&& said is Response
            &&& said->Response_status == status
            &&& body matches Some(resp) ==> said->Response_body == Some(resp@)
            &&& body is None ==> said->Response_body is None
        }),
        Reply::Failed(message)@ == ReplyView::Failed(message@),
{
}

/// An event says all it tells.
pub proof fn events_say_what_they_hold(
    artists: Vec<String>,
    message: String,
    now: i64,
    reply: Reply,
)
    ensures
        ScanEvent::Artists(Ok(artists))@ matches EventView::Artists(Ok(said)) && said.len()
            == artists@.len() && forall|i: int|
            0 <= i < said.len() ==> #[trigger] said[i] == artists@[i]@,
        ScanEvent::Artists(Err(message))@ == EventView::Artists(Err(message@)),
        ScanEvent::Clock(now)@ == EventView::Clock(now),
        ScanEvent::Reply(reply)@ == EventView::Reply(reply@),
{
}

/// An action says all it asks for.
pub proof fn actions_say_what_they_hold(action: ScanAction, request: query::Request)
    ensures
        match action {
            ScanAction::ListArtists { limit } => action@ == (ActionView::ListArtists { limit }),
            ScanAction::ReadClock => action@ == ActionView::ReadClock,
            ScanAction::Fetch { wait_ms, artist, request } => action@ == (ActionView::Fetch {
                wait_ms,
                artist: artist@,
                request: request@,
            }),
            ScanAction::Show { save, cache, page } => action@ == (ActionView::Show {
                save,
                cache: cache@,
                page: page@,
            }),
            ScanAction::Ignore => action@ == ActionView::Ignore,
        },
        request@.method == request.method@,
        request@.url == request.url@,
        request.body is None <==> request@.body is None,
        request.body matches Some(body) ==> request@.body == Some(body@),
        request@.headers.len() == request.headers@.len(),
        forall|i: int|
            0 <= i < request.headers@.len() ==> #[trigger] request@.headers[i] == (
                request.headers@[i].0@,
                request.headers@[i].1@,
            ),
{
}

/// A state says what it waits for and all it holds.
pub proof fn states_say_what_they_hold(state: ScanState)
    ensures
        match state {
            ScanState::Listing { cache } => state@ == (StateView::Listing { cache: cache@ }),
            ScanState::Stamping { cache } => state@ == (StateView::Stamping { cache: cache@ }),
            ScanState::Dating { batch } => state@ == (StateView::Dating { batch: batch@ }),
            ScanState::Opening { batch } => state@ == (StateView::Opening { batch: batch@ }),
            ScanState::Checking { batch } => state@ == (StateView::Checking { batch: batch@ }),
            ScanState::Fetching { batch } => state@ == (StateView::Fetching { batch: batch@ }),
            ScanState::Closing { cache, next_index, status } => state@ == (StateView::Closing {
                cache: cache@,
                next_index: next_index as nat,
                status: status@,
            }),
            ScanState::Done => state@ == StateView::Done,
        },
{
}

} // verus!
