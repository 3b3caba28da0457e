//! What holds of whole scans, whatever the host answers.

use crate::calendar;
use crate::query;
use crate::release;
use crate::scan;
use crate::scan::{ActionView, BatchView, EventView, Outcome, ReplyView, StateView};
use crate::text;
use vstd::prelude::*;

verus! {

/// Where a scan stands after these events.
pub open spec fn after(state: StateView, events: Seq<EventView>) -> StateView
    decreases events.len(),
{
    if events.len() == 0 {
        state
    } else {
        after(scan::advance(state, events[0]).0, events.drop_first())
    }
}

/// What a scan asks for, event by event.
pub open spec fn asked(state: StateView, events: Seq<EventView>) -> Seq<ActionView>
    decreases events.len(),
{
    if events.len() == 0 {
        seq![]
    } else {
        let (next, action) = scan::advance(state, events[0]);
        seq![action] + asked(next, events.drop_first())
    }
}

/// How many of the actions send a request.
pub open spec fn fetches(actions: Seq<ActionView>) -> nat
    decreases actions.len(),
{
    if actions.len() == 0 {
        0
    } else {
        fetches(actions.drop_first()) + if actions[0] is Fetch {
            1nat
        } else {
            0
        }
    }
}

/// A batch always is a stretch of the artist list, no longer than
/// [`scan::BATCH`], with the artist at hand in it.
pub proof fn scans_stay_in_range(state: StateView, events: Seq<EventView>)
    requires
        state.well_formed(),
    ensures
        after(state, events).well_formed(),
    decreases events.len(),
{
    if events.len() > 0 {
        scans_stay_in_range(scan::advance(state, events[0]).0, events.drop_first());
    }
}

/// How many requests a scan may still send.
spec fn requests_left(state: StateView) -> int {
    match state {
        StateView::Listing { .. } => scan::BATCH as int,
        StateView::Dating { batch } => batch.end - batch.next,
        StateView::Opening { batch } => batch.end - batch.next,
        StateView::Checking { batch } => batch.end - batch.next,
        StateView::Fetching { batch } => batch.end - batch.next - 1,
        _ => 0,
    }
}

proof fn requests_are_bounded(state: StateView, events: Seq<EventView>)
    requires
        state.well_formed(),
    ensures
        fetches(asked(state, events)) <= requests_left(state),
    decreases events.len(),
{
    if events.len() > 0 {
        let (next, action) = scan::advance(state, events[0]);
        requests_are_bounded(next, events.drop_first());
        assert(asked(state, events).drop_first() =~= asked(next, events.drop_first()));
    }
}

/// One scan sends no more than [`scan::BATCH`] requests.
pub proof fn a_scan_sends_at_most_a_batch(cache: release::CacheView, events: Seq<EventView>)
    ensures
        fetches(asked(StateView::Listing { cache }, events)) <= scan::BATCH,
{
    requests_are_bounded(StateView::Listing { cache }, events);
}

/// Whether the event is of the kind that the scan waits for.
pub open spec fn awaited(state: StateView, event: EventView) -> bool {
    match state {
        StateView::Listing { .. } => event is Artists,
        StateView::Fetching { .. } => event is Reply,
        StateView::Done => false,
        _ => event is Clock,
    }
}

/// Whether the event is what comes of performing the action.
pub open spec fn answers(action: ActionView, event: EventView) -> bool {
    match action {
        ActionView::ListArtists { .. } => event is Artists,
        ActionView::ReadClock => event is Clock,
        ActionView::Fetch { .. } => event is Reply,
        ActionView::Show { .. } => false,
        ActionView::Ignore => false,
    }
}

/// Whether a scan is told what it waits for until it is over.
pub open spec fn answered(state: StateView, events: Seq<EventView>) -> bool
    decreases events.len(),
{
    state is Done || events.len() == 0 || {
        &&& awaited(state, events[0])
        &&& answered(scan::advance(state, events[0]).0, events.drop_first())
    }
}

/// How many events a scan takes at most until it shows its page.
pub open spec fn events_left(state: StateView) -> int {
    match state {
        StateView::Listing { .. } => 2 * scan::BATCH + 4,
        StateView::Stamping { .. } => 1,
        StateView::Dating { batch } => 2 * (batch.end - batch.next) + 3,
        StateView::Opening { batch } => 2 * (batch.end - batch.next) + 2,
        StateView::Checking { batch } => 2 * (batch.end - batch.next) + 1,
        StateView::Fetching { batch } => 2 * (batch.end - batch.next),
        StateView::Closing { .. } => 1,
        StateView::Done => 0,
    }
}

/// Whether action `k` is a page, and each action before it asks for something.
pub open spec fn ends_at(actions: Seq<ActionView>, k: int) -> bool {
    &&& 0 <= k < actions.len()
    &&& actions[k] is Show
    &&& forall|j: int|
        0 <= j < k ==> !(#[trigger] actions[j] is Show) && !(actions[j] is Ignore)
}

/// What a scan asks for is what it then waits for, and once it has shown a
/// page it is over: performing each action tells it what it waits for.
pub proof fn scans_wait_for_what_they_ask(state: StateView, event: EventView)
    requires
        awaited(state, event),
    ensures
        ({
            let (next, action) = scan::advance(state, event);
            &&& forall|e: EventView| #[trigger] awaited(next, e) <==> answers(action, e)
            &&& next is Done <==> action is Show
            &&& !(action is Ignore)
        }),
{
}

/// A scan that is told what it waits for ends: within [`events_left`] events
/// it shows a page, having asked for something at every event before, and is
/// over.
pub proof fn answered_scan_ends(state: StateView, events: Seq<EventView>)
    requires
        state.well_formed(),
        !(state is Done),
        answered(state, events),
        events.len() >= events_left(state),
    ensures
        exists|k: int|
            {
                &&& 0 <= k < events_left(state)
                &&& #[trigger] ends_at(asked(state, events), k)
                &&& after(state, events.take(k + 1)) is Done
            },
    decreases events.len(),
{
    let (next, action) = scan::advance(state, events[0]);
    let rest = events.drop_first();
    let all = asked(state, events);
    asked_each(state, events);
    if next is Done {
        assert(ends_at(all, 0));
        assert(events.take(1).drop_first() =~= seq![]);
        assert(after(next, seq![]) is Done);
    } else {
        answered_scan_ends(next, rest);
        let later = asked(next, rest);
        let k = choose|k: int|
            {
                &&& 0 <= k < events_left(next)
                &&& #[trigger] ends_at(later, k)
                &&& after(next, rest.take(k + 1)) is Done
            };
        assert forall|j: int| 0 <= j < k + 1 implies !(#[trigger] all[j] is Show) && !(
        all[j] is Ignore) by {
            if j > 0 {
                assert(all[j] == later[j - 1]);
            }
        }
        assert(all[k + 1] == later[k]);
        assert(ends_at(all, k + 1));
        assert(events.take(k + 2).drop_first() =~= rest.take(k + 1));
    }
}

/// One scan ends within twenty events: it is told the artist list, twice the
/// time, for each artist of the batch the time and a reply, and the time once
/// more.
pub proof fn a_scan_ends(cache: release::CacheView, events: Seq<EventView>)
    requires
        answered(StateView::Listing { cache }, events),
        events.len() >= 20,
    ensures
        exists|k: int|
            0 <= k < 20 && #[trigger] ends_at(asked(StateView::Listing { cache }, events), k),
{
    answered_scan_ends(StateView::Listing { cache }, events);
}

/// The first reading of the clock among these events.
pub open spec fn first_reading(events: Seq<EventView>) -> i64
    decreases events.len(),
{
    if events.len() == 0 {
        0
    } else {
        match events[0] {
            EventView::Clock(now) => now,
            _ => first_reading(events.drop_first()),
        }
    }
}

/// The cutoff of a scan that is told these events once its artists are
/// listed: [`scan::RECENT_DAYS`] before the first reading of the clock.
pub open spec fn cutoff_of(events: Seq<EventView>) -> Seq<char> {
    calendar::day_text(calendar::cutoff_day(first_reading(events), scan::RECENT_DAYS))
}

/// The state after `sent` requests of a scan over `artists` that began at
/// `start` and has, or will have, this cutoff.
spec fn on_course(
    state: StateView,
    artists: Seq<Seq<char>>,
    cutoff: Seq<char>,
    start: nat,
    sent: nat,
    events: Seq<EventView>,
) -> bool {
    match state {
        StateView::Listing { .. } => false,
        StateView::Dating { batch } => {
            &&& sent == 0
            &&& batch.artists == artists
            &&& batch.start == start
            &&& batch.next == start
            &&& cutoff == cutoff_of(events)
        },
        StateView::Opening { batch } => {
            &&& sent == 0
            &&& batch.artists == artists
            &&& batch.cutoff == cutoff
            &&& batch.start == start
            &&& batch.next == start
        },
        StateView::Checking { batch } => {
            &&& batch.artists == artists
            &&& batch.cutoff == cutoff
            &&& batch.start == start
            &&& batch.next == start + sent
        },
        StateView::Fetching { batch } => {
            &&& batch.artists == artists
            &&& batch.cutoff == cutoff
            &&& batch.start == start
            &&& batch.next + 1 == start + sent
        },
        _ => true,
    }
}

/// The `n`-th request of a scan that began at `start`, counted from 0: for
/// the releases, from the cutoff on, of the artist `n` places behind the
/// cursor. It is sent at once if it is the first, and spaced from the one
/// before it otherwise.
pub open spec fn is_request(
    action: ActionView,
    artists: Seq<Seq<char>>,
    cutoff: Seq<char>,
    start: nat,
    n: nat,
) -> bool {
    match action {
        ActionView::Fetch { wait_ms, artist, request } => {
            &&& start + n < artists.len()
            &&& artist == artists[start + n as int]
            &&& wait_ms == if n == 0 {
                0
            } else {
                scan::SPACING_MS
            }
            &&& request == query::mb_request(query::mb_url(artist, cutoff))
        },
        _ => true,
    }
}

proof fn requests_keep_course(
    state: StateView,
    artists: Seq<Seq<char>>,
    cutoff: Seq<char>,
    start: nat,
    sent: nat,
    events: Seq<EventView>,
    k: int,
)
    requires
        state.well_formed(),
        on_course(state, artists, cutoff, start, sent, events),
        0 <= k < events.len(),
    ensures
        asked(state, events).len() == events.len(),
        is_request(
            asked(state, events)[k],
            artists,
            cutoff,
            start,
            sent + fetches(asked(state, events).take(k)),
        ),
    decreases events.len(),
{
    let (next, action) = scan::advance(state, events[0]);
    let rest = events.drop_first();
    let all = asked(state, events);
    asked_each(next, rest);
    assert(all.drop_first() =~= asked(next, rest));
    let sent_now: nat = if action is Fetch {
        sent + 1
    } else {
        sent
    };
    assert(on_course(next, artists, cutoff, start, sent_now, rest));
    if k > 0 {
        requests_keep_course(next, artists, cutoff, start, sent_now, rest, k - 1);
        assert(all.take(k).drop_first() =~= asked(next, rest).take(k - 1));
    } else {
        assert(all.take(0) =~= seq![]);
    }
}

proof fn asked_each(state: StateView, events: Seq<EventView>)
    ensures
        asked(state, events).len() == events.len(),
    decreases events.len(),
{
    if events.len() > 0 {
        asked_each(scan::advance(state, events[0]).0, events.drop_first());
    }
}

/// The requests of a scan go through the artist list in order from the
/// cursor, none left out and none sent twice. The first is sent at once, the
/// others each after a pause. All of them ask from the same day on, which
/// lies [`scan::RECENT_DAYS`] before the first reading of the clock.
pub proof fn requests_follow_the_cursor(
    cache: release::CacheView,
    artists: Seq<Seq<char>>,
    events: Seq<EventView>,
    k: int,
)
    requires
        0 <= k < events.len(),
    ensures
        ({
            let listed = scan::advance(
                StateView::Listing { cache },
                EventView::Artists(Ok(artists)),
            ).0;
            let actions = asked(listed, events);
            &&& actions.len() == events.len()
            &&& is_request(
                actions[k],
                artists,
                cutoff_of(events),
                cache.next_index,
                fetches(actions.take(k)),
            )
        }),
{
    let listed = scan::advance(StateView::Listing { cache }, EventView::Artists(Ok(artists))).0;
    requests_keep_course(
        listed,
        artists,
        cutoff_of(events),
        cache.next_index,
        0,
        events,
        k,
    );
}

/// A rate-limit answer stops the scan: no request follows it, whatever
/// happens, and what is saved has the cursor on the artist that was asked for.
pub proof fn rate_limit_stops_the_scan(
    batch: BatchView,
    reply: ReplyView,
    events: Seq<EventView>,
    k: int,
)
    requires
        scan::outcome(reply) == Outcome::RateLimited,
        0 <= k < events.len(),
    ensures
        ({
            let stopped = scan::advance(
                StateView::Fetching { batch },
                EventView::Reply(reply),
            ).0;
            let actions = asked(stopped, events);
            &&& actions.len() == events.len()
            &&& !(actions[k] is Fetch)
            &&& actions[k] matches ActionView::Show { save, cache, page } ==> {
                &&& save
                &&& cache.next_index == batch.next
                &&& cache.releases == release::kept(batch.cache.releases)
                &&& page.status == Some("rate-limited"@)
            }
        }),
{
    let stopped = scan::advance(StateView::Fetching { batch }, EventView::Reply(reply)).0;
    stopped_scan_only_shows(stopped, events, k);
}

proof fn stopped_scan_only_shows(state: StateView, events: Seq<EventView>, k: int)
    requires
        state is Closing || state is Done,
        0 <= k < events.len(),
    ensures
        asked(state, events).len() == events.len(),
        !(asked(state, events)[k] is Fetch),
        asked(state, events)[k] matches ActionView::Show { save, cache, page } ==> {
            &&& state is Closing
            &&& save
            &&& cache.next_index == state->Closing_next_index
            &&& cache.releases == release::kept(state->Closing_cache.releases)
            &&& page.status == Some(state->Closing_status)
        },
    decreases events.len(),
{
    let next = scan::advance(state, events[0]).0;
    asked_each(state, events);
    assert(asked(state, events).drop_first() =~= asked(next, events.drop_first()));
    if k > 0 {
        stopped_scan_only_shows(next, events.drop_first(), k - 1);
        assert(asked(state, events)[k] == asked(next, events.drop_first())[k - 1]);
    }
}

proof fn after_one_more(state: StateView, event: EventView, rest: Seq<EventView>)
    ensures
        after(state, seq![event] + rest) == after(scan::advance(state, event).0, rest),
{
    assert((seq![event] + rest).drop_first() =~= rest);
}

/// A batch has run too long once more than [`scan::WALL_GUARD_SECS`] have
/// passed since it began, as far as the difference of the two readings is a
/// 64-bit number.
pub proof fn overdue_means_past_the_guard(now: i64, began: i64)
    requires
        i64::MIN <= now - began <= i64::MAX,
    ensures
        scan::overdue(now, began) <==> now - began > scan::WALL_GUARD_SECS,
{
}

/// A batch that has run too long stops: no request follows, whatever happens,
/// and what is saved has the cursor on the artist that was next.
pub proof fn overdue_batch_stops(
    batch: BatchView,
    now: i64,
    events: Seq<EventView>,
    k: int,
)
    requires
        scan::overdue(now, batch.began),
        0 <= k < events.len(),
    ensures
        ({
            let stopped = scan::advance(StateView::Checking { batch }, EventView::Clock(now)).0;
            let actions = asked(stopped, events);
            &&& actions.len() == events.len()
            &&& !(actions[k] is Fetch)
            &&& actions[k] matches ActionView::Show { save, cache, page } ==> {
                &&& save
                &&& cache.next_index == batch.next
                &&& cache.releases == release::kept(batch.cache.releases)
                &&& page.status == Some("partial"@)
            }
        }),
{
    let stopped = scan::advance(StateView::Checking { batch }, EventView::Clock(now)).0;
    stopped_scan_only_shows(stopped, events, k);
}

/// A scan whose cursor is behind the last artist asks for nothing, saves
/// nothing, and shows what is remembered.
pub proof fn finished_sweep_is_cached(
    cache: release::CacheView,
    artists: Seq<Seq<char>>,
    events: Seq<EventView>,
    k: int,
)
    requires
        0 < artists.len() <= cache.next_index,
        0 <= k < events.len(),
    ensures
        ({
            let (done, action) = scan::advance(
                StateView::Listing { cache },
                EventView::Artists(Ok(artists)),
            );
            &&& action == scan::show(
                false,
                release::CacheView { total: artists.len(), ..cache },
                "cached"@,
            )
            &&& asked(done, events).len() == events.len()
            &&& asked(done, events)[k] is Ignore
        }),
{
    done_asks_for_nothing(events, k);
}

/// Where the artist list cannot be had, nothing is asked for or saved, and
/// the page says why.
pub proof fn failed_listing_saves_nothing(
    cache: release::CacheView,
    message: Seq<char>,
    events: Seq<EventView>,
    k: int,
)
    requires
        0 <= k < events.len(),
    ensures
        ({
            let (done, action) = scan::advance(
                StateView::Listing { cache },
                EventView::Artists(Err(message)),
            );
            &&& action == scan::show(false, cache, "error: "@ + message)
            &&& asked(done, events).len() == events.len()
            &&& asked(done, events)[k] is Ignore
        }),
{
    done_asks_for_nothing(events, k);
}

proof fn done_asks_for_nothing(events: Seq<EventView>, k: int)
    requires
        0 <= k < events.len(),
    ensures
        asked(StateView::Done, events).len() == events.len(),
        asked(StateView::Done, events)[k] is Ignore,
    decreases events.len(),
{
    asked_each(StateView::Done, events);
    if k > 0 {
        done_asks_for_nothing(events.drop_first(), k - 1);
        assert(asked(StateView::Done, events)[k] == asked(
            StateView::Done,
            events.drop_first(),
        )[k - 1]);
    }
}

/// How many artists are dealt with: asked for and answered by anything but a
/// rate limit.
pub open spec fn dealt_with(state: StateView, events: Seq<EventView>) -> nat
    decreases events.len(),
{
    if events.len() == 0 {
        0
    } else {
        dealt_with(scan::advance(state, events[0]).0, events.drop_first()) + match (
            state,
            events[0],
        ) {
            (StateView::Fetching { .. }, EventView::Reply(reply)) => if scan::outcome(reply)
                == Outcome::RateLimited {
                0nat
            } else {
                1
            },
            _ => 0,
        }
    }
}

/// The cursor at which a scan would stop now.
spec fn cursor(state: StateView) -> nat {
    match state {
        StateView::Listing { cache } => cache.next_index,
        StateView::Stamping { cache } => cache.next_index,
        StateView::Dating { batch } => batch.next,
        StateView::Opening { batch } => batch.next,
        StateView::Checking { batch } => batch.next,
        StateView::Fetching { batch } => batch.next,
        StateView::Closing { next_index, .. } => next_index,
        StateView::Done => 0,
    }
}

proof fn cursor_moves_with_artists(state: StateView, events: Seq<EventView>, k: int)
    requires
        state.well_formed(),
        0 <= k < events.len(),
    ensures
        asked(state, events).len() == events.len(),
        asked(state, events)[k] matches ActionView::Show { cache, .. } ==> cache.next_index
            == cursor(state) + dealt_with(state, events.take(k)),
    decreases events.len(),
{
    let next = scan::advance(state, events[0]).0;
    asked_each(state, events);
    if k > 0 {
        if next is Done {
            done_asks_for_nothing(events.drop_first(), k - 1);
        } else {
            cursor_moves_with_artists(next, events.drop_first(), k - 1);
        }
        assert(asked(state, events)[k] == asked(next, events.drop_first())[k - 1]);
        assert(events.take(k).drop_first() =~= events.drop_first().take(k - 1));
    }
}

/// The cursor that a scan leaves is the one it found, moved by one for each
/// artist that was asked for and answered by anything but a rate limit.
pub proof fn cursor_counts_artists(cache: release::CacheView, events: Seq<EventView>, k: int)
    requires
        0 <= k < events.len(),
    ensures
        ({
            let listing = StateView::Listing { cache };
            &&& asked(listing, events).len() == events.len()
            &&& asked(listing, events)[k] matches ActionView::Show { cache: shown, .. }
                ==> shown.next_index == cache.next_index + dealt_with(listing, events.take(k))
        }),
{
    cursor_moves_with_artists(StateView::Listing { cache }, events, k);
}

/// A scan goes on where the last one stopped: its first request is for the
/// artist at the cursor, and is sent at once.
pub proof fn next_scan_goes_on(
    cache: release::CacheView,
    artists: Seq<Seq<char>>,
    dated: i64,
    began: i64,
    checked: i64,
)
    requires
        cache.next_index < artists.len(),
        !scan::overdue(checked, began),
    ensures
        ({
            let artist = artists[cache.next_index as int];
            let cutoff = calendar::day_text(calendar::cutoff_day(dated, scan::RECENT_DAYS));
            let opened = after(
                StateView::Listing { cache },
                seq![EventView::Artists(Ok(artists))] + (seq![EventView::Clock(dated)] + (
                seq![EventView::Clock(began)] + seq![])),
            );
            scan::advance(opened, EventView::Clock(checked)).1 == (ActionView::Fetch {
                wait_ms: 0,
                artist,
                request: query::mb_request(query::mb_url(artist, cutoff)),
            })
        }),
{
    let listing = StateView::Listing { cache };
    let listed = EventView::Artists(Ok(artists));
    let dating = scan::advance(listing, listed).0;
    let opening = scan::advance(dating, EventView::Clock(dated)).0;
    let checking = scan::advance(opening, EventView::Clock(began)).0;
    after_one_more(
        listing,
        listed,
        seq![EventView::Clock(dated)] + (seq![EventView::Clock(began)] + seq![]),
    );
    after_one_more(dating, EventView::Clock(dated), seq![EventView::Clock(began)] + seq![]);
    after_one_more(opening, EventView::Clock(began), seq![]);
    assert(after(checking, seq![]) == checking);
}

/// What every scan of a well-formed cache keeps.
spec fn sound(state: StateView) -> bool {
    match state {
        StateView::Listing { cache } => cache.well_formed(),
        StateView::Stamping { cache } => cache.well_formed(),
        StateView::Dating { batch } => release::distinct_ids(batch.cache.releases),
        StateView::Opening { batch } => release::distinct_ids(batch.cache.releases),
        StateView::Checking { batch } => release::distinct_ids(batch.cache.releases),
        StateView::Fetching { batch } => release::distinct_ids(batch.cache.releases),
        StateView::Closing { cache, .. } => release::distinct_ids(cache.releases),
        StateView::Done => true,
    }
}

proof fn steps_keep_soundness(state: StateView, event: EventView)
    requires
        sound(state),
    ensures
        sound(scan::advance(state, event).0),
        scan::advance(state, event).1 matches ActionView::Show { cache, .. } ==> cache.well_formed(),
{
    match (state, event) {
        (StateView::Fetching { batch }, EventView::Reply(reply)) => {
            match reply {
                ReplyView::Response { body, .. } => {
                    release::merge_keeps_ids_distinct(
                        batch.cache.releases,
                        release::found_releases(
                            body,
                            batch.artists[batch.next as int],
                            batch.cutoff,
                        ),
                    );
                },
                ReplyView::Failed(_) => {},
            }
        },
        (StateView::Closing { cache, .. }, EventView::Clock(_)) => {
            release::kept_ids_stay_distinct(cache.releases);
            release::kept_are_the_newest(cache.releases);
        },
        _ => {},
    }
}

proof fn sound_scans_show_well_formed(state: StateView, events: Seq<EventView>, k: int)
    requires
        sound(state),
        0 <= k < events.len(),
    ensures
        asked(state, events).len() == events.len(),
        asked(state, events)[k] matches ActionView::Show { cache, .. } ==> cache.well_formed(),
    decreases events.len(),
{
    let next = scan::advance(state, events[0]).0;
    steps_keep_soundness(state, events[0]);
    asked_each(state, events);
    if k > 0 {
        sound_scans_show_well_formed(next, events.drop_first(), k - 1);
        assert(asked(state, events)[k] == asked(next, events.drop_first())[k - 1]);
    }
}

/// A scan of a well-formed cache saves and shows a well-formed one: no
/// release-group twice, newest first, and no more than are kept.
pub proof fn caches_stay_well_formed(
    cache: release::CacheView,
    events: Seq<EventView>,
    k: int,
)
    requires
        cache.well_formed(),
        0 <= k < events.len(),
    ensures
        asked(StateView::Listing { cache }, events).len() == events.len(),
        asked(StateView::Listing { cache }, events)[k] matches ActionView::Show { cache: shown, .. }
            ==> shown.well_formed(),
{
    sound_scans_show_well_formed(StateView::Listing { cache }, events, k);
}

/// A scan adds no release but those of the artist at hand that are dated, not
/// before the cutoff, and credited to the artist.
pub proof fn added_releases_are_recent_and_credited(
    batch: BatchView,
    reply: ReplyView,
    r: release::ReleaseView,
)
    requires
        scan::gathered(batch, reply).contains(r),
        !batch.cache.releases.contains(r),
    ensures
        reply matches ReplyView::Response { body: Some(groups), .. } && exists|i: int|
            0 <= i < groups.len() && release::release_if(
                #[trigger] groups[i],
                release::credited(groups[i].credits, batch.artists[batch.next as int]),
                batch.artists[batch.next as int],
                batch.cutoff,
            ) == Some(r),
{
    let artist = batch.artists[batch.next as int];
    if let ReplyView::Response { body, .. } = reply {
        let found = release::found_releases(body, artist, batch.cutoff);
        release::merge_unites_ids(batch.cache.releases, found, r.id, r);
        match body {
            Some(groups) => {
                release::selected_are_recent_and_credited(groups, artist, batch.cutoff, r);
            },
            None => {},
        }
    }
}

/// What the replies of a scan bring: of each search response that is taken,
/// the releases of the artist at hand.
pub open spec fn run_found(state: StateView, events: Seq<EventView>) -> Seq<release::ReleaseView>
    decreases events.len(),
{
    if events.len() == 0 {
        seq![]
    } else {
        let rest = run_found(scan::advance(state, events[0]).0, events.drop_first());
        match (state, events[0]) {
            (
                StateView::Fetching { batch },
                EventView::Reply(ReplyView::Response { status, body }),
            ) => if status == 200 {
                release::found_releases(body, batch.artists[batch.next as int], batch.cutoff) + rest
            } else {
                rest
            },
            _ => rest,
        }
    }
}

/// The releases that a scan holds.
spec fn pool(state: StateView) -> Seq<release::ReleaseView> {
    match state {
        StateView::Listing { cache } => cache.releases,
        StateView::Stamping { cache } => cache.releases,
        StateView::Dating { batch } => batch.cache.releases,
        StateView::Opening { batch } => batch.cache.releases,
        StateView::Checking { batch } => batch.cache.releases,
        StateView::Fetching { batch } => batch.cache.releases,
        StateView::Closing { cache, .. } => cache.releases,
        StateView::Done => seq![],
    }
}

proof fn pool_grows_by_what_is_found(state: StateView, event: EventView)
    requires
        !(state is Listing),
        !(scan::advance(state, event).0 is Done),
    ensures
        ({
            let found = run_found(state, seq![event]);
            pool(scan::advance(state, event).0) == release::merged(pool(state), found)
        }),
{
    let next = scan::advance(state, event).0;
    let none: Seq<EventView> = seq![event].drop_first();
    assert(none.len() == 0);
    assert(run_found(next, none) =~= seq![]);
    if let (StateView::Fetching { batch }, EventView::Reply(ReplyView::Response { body, .. })) = (
        state,
        event,
    ) {
        let found = release::found_releases(
            body,
            batch.artists[batch.next as int],
            batch.cutoff,
        );
        assert(found + run_found(next, none) =~= found);
    }
}

proof fn run_found_one_more(state: StateView, events: Seq<EventView>)
    requires
        events.len() > 0,
    ensures
        run_found(state, events) == run_found(state, seq![events[0]]) + run_found(
            scan::advance(state, events[0]).0,
            events.drop_first(),
        ),
{
    let next = scan::advance(state, events[0]).0;
    let none: Seq<EventView> = seq![events[0]].drop_first();
    assert(none.len() == 0);
    assert(run_found(next, none) =~= seq![]);
    assert(run_found(state, events) =~= run_found(state, seq![events[0]]) + run_found(
        next,
        events.drop_first(),
    ));
}

proof fn batch_saves_what_it_found(state: StateView, events: Seq<EventView>, k: int)
    requires
        !(state is Listing),
        !(state is Stamping),
        0 <= k < events.len(),
    ensures
        asked(state, events).len() == events.len(),
        asked(state, events)[k] matches ActionView::Show { save, cache, .. } ==> save
            && cache.releases == release::kept(
            release::merged(pool(state), run_found(state, events.take(k))),
        ),
    decreases events.len(),
{
    let next = scan::advance(state, events[0]).0;
    asked_each(state, events);
    if k > 0 {
        let rest = events.drop_first();
        assert(asked(state, events)[k] == asked(next, rest)[k - 1]);
        if next is Done {
            done_asks_for_nothing(rest, k - 1);
        } else {
            batch_saves_what_it_found(next, rest, k - 1);
            pool_grows_by_what_is_found(state, events[0]);
            assert(events.take(k).drop_first() =~= rest.take(k - 1));
            run_found_one_more(state, events.take(k));
            release::merging_goes_on(
                pool(state),
                run_found(state, seq![events[0]]),
                run_found(next, rest.take(k - 1)),
            );
        }
    } else {
        assert(run_found(state, events.take(0)) =~= seq![]);
    }
}

/// What a scan saves is what was remembered and what its replies brought,
/// merged, ordered and capped; an empty library leaves the releases as they
/// were.
pub proof fn a_scan_saves_what_it_found(
    cache: release::CacheView,
    artists: Seq<Seq<char>>,
    events: Seq<EventView>,
    k: int,
)
    requires
        0 <= k < events.len(),
    ensures
        ({
            let listed = scan::advance(
                StateView::Listing { cache },
                EventView::Artists(Ok(artists)),
            ).0;
            let actions = asked(listed, events);
            &&& actions.len() == events.len()
            &&& actions[k] matches ActionView::Show { save, cache: shown, .. } ==> save
                && shown.releases == if artists.len() == 0 {
                cache.releases
            } else {
                release::kept(
                    release::merged(cache.releases, run_found(listed, events.take(k))),
                )
            }
        }),
{
    let listed = scan::advance(StateView::Listing { cache }, EventView::Artists(Ok(artists))).0;
    if artists.len() == 0 {
        stamping_keeps_releases(listed, events, k);
    } else if cache.next_index >= artists.len() {
        done_asks_for_nothing(events, k);
    } else {
        assert(pool(listed) == cache.releases);
        batch_saves_what_it_found(listed, events, k);
    }
}

proof fn stamping_keeps_releases(state: StateView, events: Seq<EventView>, k: int)
    requires
        state is Stamping,
        0 <= k < events.len(),
    ensures
        asked(state, events).len() == events.len(),
        asked(state, events)[k] matches ActionView::Show { save, cache, .. } ==> save
            && cache.releases == state->Stamping_cache.releases,
    decreases events.len(),
{
    let next = scan::advance(state, events[0]).0;
    asked_each(state, events);
    if k > 0 {
        assert(asked(state, events)[k] == asked(next, events.drop_first())[k - 1]);
        if next is Done {
            done_asks_for_nothing(events.drop_first(), k - 1);
        } else {
            stamping_keeps_releases(next, events.drop_first(), k - 1);
        }
    }
}

proof fn held_releases_stay(state: StateView, events: Seq<EventView>, k: int, r: release::ReleaseView)
    requires
        state is Done || pool(state).contains(r),
        0 <= k < events.len(),
    ensures
        asked(state, events).len() == events.len(),
        asked(state, events)[k] matches ActionView::Show { cache: shown, .. } ==> {
            ||| shown.releases.contains(r)
            ||| shown.releases.len() == 150 && forall|i: int|
                0 <= i < shown.releases.len() ==> !text::text_less(
                    calendar::date_key_text((#[trigger] shown.releases[i]).date),
                    calendar::date_key_text(r.date),
                )
        },
    decreases events.len(),
{
    let (next, action) = scan::advance(state, events[0]);
    asked_each(state, events);
    if k > 0 {
        if let (StateView::Fetching { batch }, EventView::Reply(reply)) = (state, events[0]) {
            gathering_keeps(batch, reply, r);
        }
        assert(asked(state, events)[k] == asked(next, events.drop_first())[k - 1]);
        held_releases_stay(next, events.drop_first(), k - 1, r);
    } else if state is Closing {
        kept_or_too_old(state->Closing_cache.releases, r);
    }
}

proof fn gathering_keeps(batch: BatchView, reply: ReplyView, r: release::ReleaseView)
    requires
        batch.cache.releases.contains(r),
    ensures
        scan::gathered(batch, reply).contains(r),
{
    if let ReplyView::Response { body, .. } = reply {
        let old_list = batch.cache.releases;
        let found = release::found_releases(body, batch.artists[batch.next as int], batch.cutoff);
        let all = release::merged(old_list, found);
        release::merge_keeps_existing(old_list, found);
        let i = choose|i: int| 0 <= i < old_list.len() && old_list[i] == r;
        assert(all.take(old_list.len() as int)[i] == all[i]);
        assert(all[i] == r);
    }
}

proof fn kept_or_too_old(s: Seq<release::ReleaseView>, r: release::ReleaseView)
    requires
        s.contains(r),
    ensures
        release::kept(s).contains(r) || release::kept(s).len() == 150 && forall|i: int|
            0 <= i < release::kept(s).len() ==> !text::text_less(
                calendar::date_key_text((#[trigger] release::kept(s)[i]).date),
                calendar::date_key_text(r.date),
            ),
{
    let kept = release::kept(s);
    release::kept_are_the_newest(s);
    s.to_multiset_ensures();
    kept.to_multiset_ensures();
    assert(s.to_multiset().count(r) > 0);
    if !kept.contains(r) {
        assert(kept.to_multiset().count(r) == 0);
        assert(s.to_multiset().sub(kept.to_multiset()).count(r) > 0);
        assert forall|i: int| 0 <= i < kept.len() implies !text::text_less(
            calendar::date_key_text((#[trigger] kept[i]).date),
            calendar::date_key_text(r.date),
        ) by {
            assert(!text::text_less(kept[i].key(), r.key()));
        }
    }
}

/// A scan that goes on loses nothing that was stored, whatever the host
/// answers: each stored release is among those that the scan saves and shows,
/// unless 150 are shown of which none is older.
pub proof fn going_on_keeps_what_was_stored(
    stored: release::CacheView,
    events: Seq<EventView>,
    k: int,
    r: release::ReleaseView,
)
    requires
        stored.releases.contains(r),
        0 <= k < events.len(),
    ensures
        ({
            let actions = asked(
                StateView::Listing { cache: scan::opened_cache(stored, false) },
                events,
            );
            &&& actions.len() == events.len()
            &&& actions[k] matches ActionView::Show { cache: shown, .. } ==> {
                ||| shown.releases.contains(r)
                ||| shown.releases.len() == 150 && forall|i: int|
                    0 <= i < shown.releases.len() ==> !text::text_less(
                        calendar::date_key_text((#[trigger] shown.releases[i]).date),
                        calendar::date_key_text(r.date),
                    )
            }
        }),
{
    held_releases_stay(
        StateView::Listing { cache: scan::opened_cache(stored, false) },
        events,
        k,
        r,
    );
}

/// Whether a group of one of the replies makes this release for this artist:
/// dated, not before the cutoff, and credited to the artist.
pub open spec fn brought(
    events: Seq<EventView>,
    artist: Seq<char>,
    cutoff: Seq<char>,
    r: release::ReleaseView,
) -> bool {
    exists|e: int, g: int| #[trigger] brought_by(events, e, g, artist, cutoff, r)
}

/// Whether group `g` of the reply that is event `e` makes this release.
pub open spec fn brought_by(
    events: Seq<EventView>,
    e: int,
    g: int,
    artist: Seq<char>,
    cutoff: Seq<char>,
    r: release::ReleaseView,
) -> bool {
    &&& 0 <= e < events.len()
    &&& events[e] matches EventView::Reply(ReplyView::Response { status, body: Some(groups) })
    &&& status == 200
    &&& 0 <= g < groups.len()
    &&& release::release_if(
        groups[g],
        release::credited(groups[g].credits, artist),
        artist,
        cutoff,
    ) == Some(r)
}

proof fn found_was_brought(
    state: StateView,
    artists: Seq<Seq<char>>,
    cutoff: Seq<char>,
    start: nat,
    sent: nat,
    events: Seq<EventView>,
    n: int,
    r: release::ReleaseView,
) -> (artist: Seq<char>)
    requires
        state.well_formed(),
        on_course(state, artists, cutoff, start, sent, events),
        0 <= n <= events.len(),
        run_found(state, events.take(n)).contains(r),
    ensures
        artists.contains(artist),
        brought(events.take(n), artist, cutoff, r),
    decreases n,
{
    let seen = events.take(n);
    if n == 0 {
        assert(run_found(state, seen) =~= seq![]);
        assert(false);
    }
    let (next, action) = scan::advance(state, events[0]);
    let rest = events.drop_first();
    assert(seen.drop_first() =~= rest.take(n - 1));
    let later = run_found(next, rest.take(n - 1));
    let sent_now: nat = if action is Fetch {
        sent + 1
    } else {
        sent
    };
    assert(on_course(next, artists, cutoff, start, sent_now, rest));
    if later.contains(r) {
        let artist = found_was_brought(
            next,
            artists,
            cutoff,
            start,
            sent_now,
            rest,
            n - 1,
            r,
        );
        let (e, g) = choose|e: int, g: int|
            #[trigger] brought_by(rest.take(n - 1), e, g, artist, cutoff, r);
        assert(seen[e + 1] == rest.take(n - 1)[e]);
        assert(brought_by(seen, e + 1, g, artist, cutoff, r));
        artist
    } else {
        let batch = state->Fetching_batch;
        let artist = batch.artists[batch.next as int];
        let body = events[0]->Reply_0->Response_body;
        let here = release::found_releases(body, artist, cutoff);
        let all = here + later;
        let i = choose|i: int| 0 <= i < all.len() && all[i] == r;
        if i >= here.len() {
            assert(later[i - here.len()] == r);
        }
        assert(here[i] == r);
        let groups = body->0;
        release::selected_are_recent_and_credited(groups, artist, cutoff, r);
        let g = choose|g: int|
            0 <= g < groups.len() && release::release_if(
                #[trigger] groups[g],
                release::credited(groups[g].credits, artist),
                artist,
                cutoff,
            ) == Some(r);
        assert(seen[0] == events[0]);
        assert(brought_by(seen, 0, g, artist, cutoff, r));
        assert(artists[batch.next as int] == artist);
        artist
    }
}

/// Each release that a scan saves was remembered, or a reply brought it for
/// one of the artists, dated no earlier than the cutoff. What was remembered
/// wins over what was brought under the same id. As long as
/// [`release::MAX_RELEASES`] are enough, nothing that was remembered and no
/// id that was brought is lost.
pub proof fn saved_releases_are_accounted_for(
    cache: release::CacheView,
    artists: Seq<Seq<char>>,
    events: Seq<EventView>,
    k: int,
    r: release::ReleaseView,
)
    requires
        0 <= k < events.len(),
    ensures
        ({
            let listed = scan::advance(
                StateView::Listing { cache },
                EventView::Artists(Ok(artists)),
            ).0;
            let found = run_found(listed, events.take(k));
            let enough = release::merged(cache.releases, found).len() <= release::MAX_RELEASES;
            &&& asked(listed, events).len() == events.len()
            &&& asked(listed, events)[k] matches ActionView::Show { cache: saved, .. } ==> {
                &&& saved.releases.contains(r) && !cache.releases.contains(r) ==> {
                    &&& !release::has_id(cache.releases, r.id)
                    &&& exists|i: int|
                        0 <= i < artists.len() && brought(
                            events.take(k),
                            #[trigger] artists[i],
                            cutoff_of(events),
                            r,
                        )
                }
                &&& enough && cache.releases.contains(r) ==> saved.releases.contains(r)
                &&& enough && release::has_id(found, r.id) ==> release::has_id(
                    saved.releases,
                    r.id,
                )
            }
        }),
{
    let listed = scan::advance(StateView::Listing { cache }, EventView::Artists(Ok(artists))).0;
    let found = run_found(listed, events.take(k));
    a_scan_saves_what_it_found(cache, artists, events, k);
    release::kept_of_old_and_found(cache.releases, found, r);
    if artists.len() == 0 {
        empty_library_finds_nothing(listed, events.take(k));
    }
    if found.contains(r) {
        let artist = found_was_brought(
            listed,
            artists,
            cutoff_of(events),
            cache.next_index,
            0,
            events,
            k,
            r,
        );
        let i = choose|i: int| 0 <= i < artists.len() && artists[i] == artist;
        assert(brought(events.take(k), artists[i], cutoff_of(events), r));
    }
}

proof fn empty_library_finds_nothing(state: StateView, events: Seq<EventView>)
    requires
        state is Stamping || state is Done,
    ensures
        run_found(state, events).len() == 0,
    decreases events.len(),
{
    if events.len() > 0 {
        empty_library_finds_nothing(scan::advance(state, events[0]).0, events.drop_first());
    }
}

/// The cache of a library that was never scanned is well formed, and so is
/// any cache once a rescan has cleared it.
pub proof fn scans_begin_well_formed(cache: release::CacheView)
    ensures
        release::CacheView::fresh().well_formed(),
        scan::opened_cache(cache, true).well_formed(),
{
}

/// The events of a batch in which no check of the clock and no reply stops it.
pub open spec fn calm(times: Seq<i64>, replies: Seq<ReplyView>) -> Seq<EventView>
    decreases replies.len(),
{
    if replies.len() == 0 {
        seq![]
    } else {
        seq![EventView::Clock(times[0]), EventView::Reply(replies[0])] + calm(
            times.drop_first(),
            replies.drop_first(),
        )
    }
}

/// The releases of a batch after these replies, one artist each.
pub open spec fn gathered_all(batch: BatchView, replies: Seq<ReplyView>) -> Seq<
    release::ReleaseView,
>
    decreases replies.len(),
{
    if replies.len() == 0 {
        batch.cache.releases
    } else {
        let cache = release::CacheView {
            releases: scan::gathered(batch, replies[0]),
            ..batch.cache
        };
        gathered_all(
            BatchView { cache, next: batch.next + 1, ..batch },
            replies.drop_first(),
        )
    }
}

/// A batch that nothing stops goes through all its artists, gathers what
/// each of them brought, and leaves the cursor behind the last.
pub proof fn calm_batch_reaches_its_end(
    batch: BatchView,
    times: Seq<i64>,
    replies: Seq<ReplyView>,
)
    requires
        batch.well_formed(),
        times.len() == batch.end - batch.next,
        replies.len() == batch.end - batch.next,
        forall|i: int| 0 <= i < times.len() ==> !scan::overdue(#[trigger] times[i], batch.began),
        forall|i: int|
            0 <= i < replies.len() ==> scan::outcome(#[trigger] replies[i])
                != Outcome::RateLimited,
    ensures
        after(StateView::Checking { batch }, calm(times, replies)) == (StateView::Closing {
            cache: release::CacheView { releases: gathered_all(batch, replies), ..batch.cache },
            next_index: batch.end,
            status: "fresh"@,
        }),
    decreases replies.len(),
{
    calm_step(batch, times, replies);
    let next = scan::on_reply(batch, replies[0]);
    if batch.next + 1 < batch.end {
        calm_continues(batch, times, replies);
        calm_batch_reaches_its_end(
            next->Checking_batch,
            times.drop_first(),
            replies.drop_first(),
        );
    } else {
        reveal_with_fuel(gathered_all, 2);
        let tail = calm(times.drop_first(), replies.drop_first());
        assert(tail.len() == 0);
        assert(after(next, tail) == next);
    }
}

/// One artist of a batch that nothing stops.
proof fn calm_step(batch: BatchView, times: Seq<i64>, replies: Seq<ReplyView>)
    requires
        times.len() > 0,
        replies.len() > 0,
        !scan::overdue(times[0], batch.began),
    ensures
        after(StateView::Checking { batch }, calm(times, replies)) == after(
            scan::on_reply(batch, replies[0]),
            calm(times.drop_first(), replies.drop_first()),
        ),
{
    let tail = calm(times.drop_first(), replies.drop_first());
    let asking = EventView::Clock(times[0]);
    let answer = EventView::Reply(replies[0]);
    assert(calm(times, replies) =~= seq![asking] + (seq![answer] + tail));
    after_one_more(StateView::Checking { batch }, asking, seq![answer] + tail);
    after_one_more(StateView::Fetching { batch }, answer, tail);
}

pub(crate) proof fn calm_continues(batch: BatchView, times: Seq<i64>, replies: Seq<ReplyView>)
    requires
        times.len() > 0,
        replies.len() > 0,
        forall|i: int| 0 <= i < times.len() ==> !scan::overdue(#[trigger] times[i], batch.began),
        forall|i: int|
            0 <= i < replies.len() ==> scan::outcome(#[trigger] replies[i])
                != Outcome::RateLimited,
    ensures
        forall|i: int|
            0 <= i < times.drop_first().len() ==> !scan::overdue(
                #[trigger] times.drop_first()[i],
                batch.began,
            ),
        forall|i: int|
            0 <= i < replies.drop_first().len() ==> scan::outcome(
                #[trigger] replies.drop_first()[i],
            ) != Outcome::RateLimited,
{
    assert forall|i: int| 0 <= i < times.drop_first().len() implies !scan::overdue(
        #[trigger] times.drop_first()[i],
        batch.began,
    ) by {
        assert(times.drop_first()[i] == times[i + 1]);
    }
    assert forall|i: int| 0 <= i < replies.drop_first().len() implies scan::outcome(
        #[trigger] replies.drop_first()[i],
    ) != Outcome::RateLimited by {
        assert(replies.drop_first()[i] == replies[i + 1]);
    }
}

/// Whatever state a scan is in and whatever it is told, each request that it
/// sends is a GET on MusicBrainz that names the app and asks for JSON.
pub proof fn requests_go_to_musicbrainz(state: StateView, event: EventView)
    ensures
        scan::advance(state, event).1 matches ActionView::Fetch { request, .. } ==> {
            &&& request.method == "GET"@
            &&& "https://musicbrainz.org/"@.is_prefix_of(request.url)
            &&& request.headers == seq![
                ("User-Agent"@, query::USER_AGENT@),
                ("Accept"@, "application/json"@),
            ]
            &&& request.body is None
        },
{
    if let ActionView::Fetch { artist, request, .. } = scan::advance(state, event).1 {
        let batch = state->Checking_batch;
        reveal_strlit("https://musicbrainz.org/");
        reveal_strlit("https://musicbrainz.org/ws/2/release-group?query=");
        assert(request.url == query::mb_url(artist, batch.cutoff));
        let host = "https://musicbrainz.org/"@;
        assert(request.url.subrange(0, host.len() as int) =~= host);
    }
}

} // verus!
