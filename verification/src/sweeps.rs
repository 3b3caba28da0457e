//! What holds of rescans and of scans that follow each other.

use crate::calendar;
use crate::release;
use crate::runs;
use crate::scan;
use crate::scan::{ActionView, BatchView, EventView, Outcome, ReplyView, StateView};
use vstd::prelude::*;

verus! {

// ----- rescans --------------------------------------------------------------

/// Whether the first artist list among these events could not be had.
pub open spec fn listing_fails(events: Seq<EventView>) -> bool
    decreases events.len(),
{
    if events.len() == 0 {
        false
    } else {
        match events[0] {
            EventView::Artists(listed) => listed is Err,
            _ => listing_fails(events.drop_first()),
        }
    }
}

/// Two caches that differ at most in when they were last updated.
spec fn alike_caches(a: release::CacheView, b: release::CacheView) -> bool {
    a == release::CacheView { updated_at: a.updated_at, ..b }
}

/// Two batches that differ at most in when their caches were last updated.
spec fn alike_batches(a: BatchView, b: BatchView) -> bool {
    alike_caches(a.cache, b.cache) && a == BatchView { cache: a.cache, ..b }
}

/// Two scans that ask for the same from here on.
spec fn alike(a: StateView, b: StateView) -> bool {
    match (a, b) {
        (StateView::Listing { cache: x }, StateView::Listing { cache: y }) => {
            &&& x == scan::opened_cache(x, true)
            &&& y == scan::opened_cache(y, true)
        },
        (StateView::Stamping { cache: x }, StateView::Stamping { cache: y }) => alike_caches(x, y),
        (StateView::Dating { batch: x }, StateView::Dating { batch: y }) => alike_batches(x, y),
        (StateView::Opening { batch: x }, StateView::Opening { batch: y }) => alike_batches(x, y),
        (StateView::Checking { batch: x }, StateView::Checking { batch: y }) => alike_batches(x, y),
        (StateView::Fetching { batch: x }, StateView::Fetching { batch: y }) => alike_batches(x, y),
        (
            StateView::Closing { cache: x, next_index: m, status: s },
            StateView::Closing { cache: y, next_index: n, status: t },
        ) => alike_caches(x, y) && m == n && s == t,
        (StateView::Done, StateView::Done) => true,
        _ => false,
    }
}

proof fn alike_scans_step_alike(a: StateView, b: StateView, event: EventView)
    requires
        alike(a, b),
        a is Listing ==> !(event matches EventView::Artists(Err(_))),
    ensures
        alike(scan::advance(a, event).0, scan::advance(b, event).0),
        scan::advance(a, event).1 == scan::advance(b, event).1,
{
}

proof fn alike_scans_ask_alike(a: StateView, b: StateView, events: Seq<EventView>)
    requires
        alike(a, b),
        a is Listing ==> !listing_fails(events),
    ensures
        runs::asked(a, events) == runs::asked(b, events),
    decreases events.len(),
{
    if events.len() > 0 {
        alike_scans_step_alike(a, b, events[0]);
        alike_scans_ask_alike(
            scan::advance(a, events[0]).0,
            scan::advance(b, events[0]).0,
            events.drop_first(),
        );
    }
}

/// What a rescan asks for, shows and saves does not depend on what was
/// stored. (Where the artist list cannot be had, the page still tells of the
/// stored progress, and nothing is saved.)
pub proof fn rescan_forgets_the_store(
    one: release::CacheView,
    other: release::CacheView,
    events: Seq<EventView>,
)
    requires
        !listing_fails(events),
    ensures
        runs::asked(StateView::Listing { cache: scan::opened_cache(one, true) }, events)
            == runs::asked(StateView::Listing { cache: scan::opened_cache(other, true) }, events),
{
    alike_scans_ask_alike(
        StateView::Listing { cache: scan::opened_cache(one, true) },
        StateView::Listing { cache: scan::opened_cache(other, true) },
        events,
    );
}

// ----- calls ----------------------------------------------------------------

/// The artists that these actions ask for.
pub open spec fn requested(actions: Seq<ActionView>) -> Seq<Seq<char>>
    decreases actions.len(),
{
    if actions.len() == 0 {
        seq![]
    } else {
        match actions[0] {
            ActionView::Fetch { artist, .. } => seq![artist] + requested(actions.drop_first()),
            _ => requested(actions.drop_first()),
        }
    }
}

/// What is stored after these actions.
pub open spec fn stored(cache: release::CacheView, actions: Seq<ActionView>) -> release::CacheView
    decreases actions.len(),
{
    if actions.len() == 0 {
        cache
    } else {
        match actions[0] {
            ActionView::Show { save: true, cache: saved, .. } => stored(
                saved,
                actions.drop_first(),
            ),
            _ => stored(cache, actions.drop_first()),
        }
    }
}

/// The clock readings and the replies of one call.
pub struct Call {
    pub dated: i64,
    pub began: i64,
    pub checked: Seq<i64>,
    pub replies: Seq<ReplyView>,
    pub ended: i64,
}

/// How many artists a call at this cursor goes through.
pub open spec fn call_size(cursor: nat, total: nat) -> nat {
    if cursor < total {
        (scan::batch_end(cursor, total) - cursor) as nat
    } else {
        0
    }
}

impl Call {
    /// Neither the time nor a rate limit stops the call, which goes through
    /// `size` artists.
    pub open spec fn unstopped(self, size: nat) -> bool {
        &&& self.checked.len() == size
        &&& self.replies.len() == size
        &&& forall|i: int|
            0 <= i < size ==> !scan::overdue(#[trigger] self.checked[i], self.began)
        &&& forall|i: int|
            0 <= i < size ==> scan::outcome(#[trigger] self.replies[i]) != Outcome::RateLimited
    }

    /// What the scan is told in the course of the call.
    pub open spec fn events(self, cursor: nat, artists: Seq<Seq<char>>) -> Seq<EventView> {
        let listed = EventView::Artists(Ok(artists));
        if artists.len() == 0 {
            seq![listed] + (seq![EventView::Clock(self.ended)] + seq![])
        } else if cursor >= artists.len() {
            seq![listed] + seq![]
        } else {
            seq![listed] + (seq![EventView::Clock(self.dated)] + (seq![EventView::Clock(self.began)]
                + (runs::calm(self.checked, self.replies) + (seq![EventView::Clock(self.ended)]
                + seq![]))))
        }
    }

    /// What the scan asks for in the course of the call.
    #[verifier::opaque]
    pub open spec fn actions(self, cache: release::CacheView, artists: Seq<Seq<char>>) -> Seq<
        ActionView,
    > {
        runs::asked(StateView::Listing { cache }, self.events(cache.next_index, artists))
    }

    /// The batch of the call, once it has begun.
    pub open spec fn batch(self, cache: release::CacheView, artists: Seq<Seq<char>>) -> BatchView {
        BatchView {
            cutoff: calendar::day_text(
                calendar::cutoff_day(self.dated, scan::RECENT_DAYS),
            ),
            began: self.began,
            ..scan::new_batch(release::CacheView { total: artists.len(), ..cache }, artists)
        }
    }
}

proof fn told(state: StateView, event: EventView, rest: Seq<EventView>, cache: release::CacheView)
    ensures
        ({
            let (next, action) = scan::advance(state, event);
            let later = runs::asked(next, rest);
            let all = runs::asked(state, seq![event] + rest);
            &&& requested(all) == match action {
                ActionView::Fetch { artist, .. } => seq![artist] + requested(later),
                _ => requested(later),
            }
            &&& stored(cache, all) == match action {
                ActionView::Show { save: true, cache: saved, .. } => stored(saved, later),
                _ => stored(cache, later),
            }
        }),
{
    let (next, action) = scan::advance(state, event);
    let later = runs::asked(next, rest);
    let all = runs::asked(state, seq![event] + rest);
    assert((seq![event] + rest).drop_first() =~= rest);
    assert(all == seq![action] + later);
    assert(all.drop_first() =~= later);
}

/// The state in which a batch that nothing stops waits to be closed.
#[verifier::opaque]
spec fn at_end(batch: BatchView, replies: Seq<ReplyView>) -> StateView {
    StateView::Closing {
        cache: release::CacheView {
            releases: runs::gathered_all(batch, replies),
            ..batch.cache
        },
        next_index: batch.end,
        status: "fresh"@,
    }
}

/// The end of a batch that nothing stops, seen from the next artist.
proof fn same_end(batch: BatchView, replies: Seq<ReplyView>)
    requires
        batch.well_formed(),
        replies.len() == batch.end - batch.next,
        scan::outcome(replies[0]) != Outcome::RateLimited,
    ensures
        ({
            let next = scan::on_reply(batch, replies[0]);
            if batch.next + 1 < batch.end {
                &&& next is Checking
                &&& at_end(next->Checking_batch, replies.drop_first()) == at_end(batch, replies)
            } else {
                next == at_end(batch, replies)
            }
        }),
{
    reveal(at_end);
    reveal_with_fuel(runs::gathered_all, 2);
}

proof fn calm_batch_asks_for_each(
    batch: BatchView,
    times: Seq<i64>,
    replies: Seq<ReplyView>,
    tail: Seq<EventView>,
    cache: release::CacheView,
)
    requires
        batch.well_formed(),
        times.len() == batch.end - batch.next,
        replies.len() == batch.end - batch.next,
        forall|i: int| 0 <= i < times.len() ==> !scan::overdue(#[trigger] times[i], batch.began),
        forall|i: int|
            0 <= i < replies.len() ==> scan::outcome(#[trigger] replies[i])
                != Outcome::RateLimited,
    ensures
        ({
            let all = runs::asked(
                StateView::Checking { batch },
                runs::calm(times, replies) + tail,
            );
            let later = runs::asked(at_end(batch, replies), tail);
            &&& requested(all) == batch.artists.subrange(batch.next as int, batch.end as int)
                + requested(later)
            &&& stored(cache, all) == stored(cache, later)
        }),
    decreases replies.len(),
{
    let more = runs::calm(times.drop_first(), replies.drop_first());
    let next = scan::on_reply(batch, replies[0]);
    let artist = batch.artists[batch.next as int];
    assert(scan::outcome(replies[0]) != Outcome::RateLimited);
    same_end(batch, replies);
    calm_batch_asks_for_one(batch, times, replies, tail, cache);
    if batch.next + 1 < batch.end {
        let rest = next->Checking_batch;
        runs::calm_continues(batch, times, replies);
        calm_batch_asks_for_each(rest, times.drop_first(), replies.drop_first(), tail, cache);
        one_then_the_rest(
            batch.artists,
            batch.next as int,
            batch.end as int,
            requested(runs::asked(at_end(batch, replies), tail)),
        );
    } else {
        assert(more + tail =~= tail);
        assert(seq![artist] =~= batch.artists.subrange(batch.next as int, batch.end as int));
    }
}

proof fn one_then_the_rest(
    artists: Seq<Seq<char>>,
    next: int,
    end: int,
    later: Seq<Seq<char>>,
)
    requires
        0 <= next < end <= artists.len(),
    ensures
        seq![artists[next]] + (artists.subrange(next + 1, end) + later) == artists.subrange(
            next,
            end,
        ) + later,
{
    assert(seq![artists[next]] + (artists.subrange(next + 1, end) + later) =~= artists.subrange(
        next,
        end,
    ) + later);
}

proof fn calm_batch_asks_for_one(
    batch: BatchView,
    times: Seq<i64>,
    replies: Seq<ReplyView>,
    tail: Seq<EventView>,
    cache: release::CacheView,
)
    requires
        times.len() > 0,
        replies.len() > 0,
        !scan::overdue(times[0], batch.began),
    ensures
        ({
            let all = runs::asked(
                StateView::Checking { batch },
                runs::calm(times, replies) + tail,
            );
            let later = runs::asked(
                scan::on_reply(batch, replies[0]),
                runs::calm(times.drop_first(), replies.drop_first()) + tail,
            );
            &&& requested(all) == seq![batch.artists[batch.next as int]] + requested(later)
            &&& stored(cache, all) == stored(cache, later)
        }),
{
    let asking = EventView::Clock(times[0]);
    let answer = EventView::Reply(replies[0]);
    let more = runs::calm(times.drop_first(), replies.drop_first());
    assert(runs::calm(times, replies) + tail =~= seq![asking] + (seq![answer] + (more + tail)));
    told(StateView::Checking { batch }, asking, seq![answer] + (more + tail), cache);
    told(StateView::Fetching { batch }, answer, more + tail, cache);
}

/// A call that nothing stops asks for the artists from the cursor to the end
/// of the batch, and stores what they brought with the cursor behind them.
/// With the cursor behind the last artist it asks for nothing and stores
/// nothing; in an empty library it only notes the time.
pub proof fn unstopped_call(cache: release::CacheView, artists: Seq<Seq<char>>, call: Call)
    requires
        call.unstopped(call_size(cache.next_index, artists.len())),
    ensures
        ({
            let actions = call.actions(cache, artists);
            let listed = release::CacheView { total: artists.len(), ..cache };
            if artists.len() == 0 {
                &&& requested(actions) == Seq::<Seq<char>>::empty()
                &&& stored(cache, actions) == release::CacheView {
                    updated_at: call.ended as int,
                    ..listed
                }
            } else if cache.next_index >= artists.len() {
                &&& requested(actions) == Seq::<Seq<char>>::empty()
                &&& stored(cache, actions) == cache
            } else {
                let batch = call.batch(cache, artists);
                &&& requested(actions) == artists.subrange(
                    batch.start as int,
                    batch.end as int,
                )
                &&& stored(cache, actions) == scan::closed_cache(
                    release::CacheView {
                        releases: runs::gathered_all(batch, call.replies),
                        ..listed
                    },
                    batch.end,
                    call.ended,
                )
            }
        }),
{
    reveal(Call::actions);
    let listing = StateView::Listing { cache };
    let listed = EventView::Artists(Ok(artists));
    let none: Seq<EventView> = seq![];
    let ended = EventView::Clock(call.ended);
    let dating = scan::advance(listing, listed).0;
    nothing_told(StateView::Done, cache);
    if artists.len() == 0 {
        told(listing, listed, seq![ended] + none, cache);
        told(dating, ended, none, cache);
        nothing_told(
            StateView::Done,
            release::CacheView { total: 0, updated_at: call.ended as int, ..cache },
        );
    } else if cache.next_index >= artists.len() {
        told(listing, listed, none, cache);
    } else {
        whole_batch(cache, artists, call);
    }
}

proof fn nothing_told(state: StateView, cache: release::CacheView)
    ensures
        requested(runs::asked(state, seq![])) == Seq::<Seq<char>>::empty(),
        stored(cache, runs::asked(state, seq![])) == cache,
{
    assert(runs::asked(state, seq![]) =~= seq![]);
}

proof fn whole_batch(cache: release::CacheView, artists: Seq<Seq<char>>, call: Call)
    requires
        call.unstopped(call_size(cache.next_index, artists.len())),
        cache.next_index < artists.len(),
    ensures
        ({
            let actions = call.actions(cache, artists);
            let batch = call.batch(cache, artists);
            &&& requested(actions) == artists.subrange(batch.start as int, batch.end as int)
            &&& stored(cache, actions) == scan::closed_cache(
                release::CacheView {
                    releases: runs::gathered_all(batch, call.replies),
                    total: artists.len(),
                    ..cache
                },
                batch.end,
                call.ended,
            )
        }),
{
    reveal(Call::actions);
    reveal(at_end);
    let batch = call.batch(cache, artists);
    let listing = StateView::Listing { cache };
    let listed = EventView::Artists(Ok(artists));
    let dating = scan::advance(listing, listed).0;
    let opening = scan::advance(dating, EventView::Clock(call.dated)).0;
    let none: Seq<EventView> = seq![];
    let last = seq![EventView::Clock(call.ended)] + none;
    let calm = runs::calm(call.checked, call.replies) + last;
    let end = at_end(batch, call.replies);
    let closed = scan::closed_cache(
        release::CacheView {
            releases: runs::gathered_all(batch, call.replies),
            total: artists.len(),
            ..cache
        },
        batch.end,
        call.ended,
    );
    told(
        listing,
        listed,
        seq![EventView::Clock(call.dated)] + (seq![EventView::Clock(call.began)] + calm),
        cache,
    );
    told(dating, EventView::Clock(call.dated), seq![EventView::Clock(call.began)] + calm, cache);
    told(opening, EventView::Clock(call.began), calm, cache);
    assert(scan::advance(opening, EventView::Clock(call.began)).0 == (StateView::Checking {
        batch,
    }));
    calm_batch_asks_for_each(batch, call.checked, call.replies, last, cache);
    told(end, EventView::Clock(call.ended), none, cache);
    nothing_told(StateView::Done, closed);
    assert(artists.subrange(batch.start as int, batch.end as int) + Seq::<Seq<char>>::empty()
        =~= artists.subrange(batch.start as int, batch.end as int));
}

// ----- sweeps ---------------------------------------------------------------

/// What is stored after these calls, one after the other.
pub open spec fn stored_after(
    cache: release::CacheView,
    artists: Seq<Seq<char>>,
    calls: Seq<Call>,
) -> release::CacheView
    decreases calls.len(),
{
    if calls.len() == 0 {
        cache
    } else {
        let before = stored_after(cache, artists, calls.drop_last());
        stored(before, calls.last().actions(before, artists))
    }
}

/// The artists that these calls ask for, one after the other.
pub open spec fn requested_by(
    cache: release::CacheView,
    artists: Seq<Seq<char>>,
    calls: Seq<Call>,
) -> Seq<Seq<char>>
    decreases calls.len(),
{
    if calls.len() == 0 {
        seq![]
    } else {
        let before = stored_after(cache, artists, calls.drop_last());
        requested_by(cache, artists, calls.drop_last()) + requested(
            calls.last().actions(before, artists),
        )
    }
}

/// Nothing stops any of these calls.
pub open spec fn all_unstopped(
    cache: release::CacheView,
    artists: Seq<Seq<char>>,
    calls: Seq<Call>,
) -> bool
    decreases calls.len(),
{
    calls.len() > 0 ==> {
        &&& all_unstopped(cache, artists, calls.drop_last())
        &&& calls.last().unstopped(
            call_size(
                stored_after(cache, artists, calls.drop_last()).next_index,
                artists.len(),
            ),
        )
    }
}

/// The cursor after this many calls that nothing stops.
pub open spec fn swept_to(start: nat, calls: nat, total: nat) -> nat {
    if start + calls * scan::BATCH < total {
        (start + calls * scan::BATCH) as nat
    } else {
        total
    }
}

proof fn swept_one_more(start: nat, calls: nat, total: nat)
    requires
        start <= total,
    ensures
        start <= swept_to(start, calls, total) <= total,
        swept_to(start, 0, total) == start,
        swept_to(start, calls + 1, total) == scan::batch_end(
            swept_to(start, calls, total),
            total,
        ),
{
    assert((calls + 1) * scan::BATCH == calls * scan::BATCH + scan::BATCH) by (nonlinear_arith);
    assert(calls * scan::BATCH >= 0) by (nonlinear_arith);
}

/// One call that nothing stops moves the cursor to the end of the batch and
/// asks for the artists in between.
proof fn call_moves_on(cache: release::CacheView, artists: Seq<Seq<char>>, call: Call)
    requires
        cache.next_index <= artists.len(),
        call.unstopped(call_size(cache.next_index, artists.len())),
    ensures
        ({
            let actions = call.actions(cache, artists);
            let end = scan::batch_end(cache.next_index, artists.len());
            &&& stored(cache, actions).next_index == end
            &&& requested(actions) == artists.subrange(cache.next_index as int, end as int)
        }),
{
    unstopped_call(cache, artists, call);
    if cache.next_index >= artists.len() {
        assert(artists.subrange(cache.next_index as int, artists.len() as int) =~= seq![]);
    }
}

/// Calls that nothing stops sweep through the library: each moves the cursor
/// on by a batch until it stands behind the last artist. Together they ask
/// for each artist from the first cursor on once and in order, and once the
/// cursor stands behind the last artist they ask for nothing more.
pub proof fn calls_sweep_the_library(
    cache: release::CacheView,
    artists: Seq<Seq<char>>,
    calls: Seq<Call>,
)
    requires
        cache.next_index <= artists.len(),
        all_unstopped(cache, artists, calls),
    ensures
        stored_after(cache, artists, calls).next_index == swept_to(
            cache.next_index,
            calls.len(),
            artists.len(),
        ),
        requested_by(cache, artists, calls) == artists.subrange(
            cache.next_index as int,
            swept_to(cache.next_index, calls.len(), artists.len()) as int,
        ),
    decreases calls.len(),
{
    let start = cache.next_index;
    let total = artists.len();
    if calls.len() == 0 {
        swept_one_more(start, 0, total);
        assert(requested_by(cache, artists, calls) =~= artists.subrange(
            start as int,
            start as int,
        ));
    } else {
        let head = calls.drop_last();
        let before = stored_after(cache, artists, head);
        calls_sweep_the_library(cache, artists, head);
        swept_one_more(start, head.len(), total);
        call_moves_on(before, artists, calls.last());
        let here = before.next_index as int;
        let there = scan::batch_end(before.next_index, total) as int;
        assert(artists.subrange(start as int, here) + artists.subrange(here, there)
            =~= artists.subrange(start as int, there));
    }
}

/// From an empty store the cursor stands at the smaller of `BATCH` times the
/// calls and the number of artists, and each artist before it was asked for
/// once.
pub proof fn first_sweep_takes_a_few_calls(artists: Seq<Seq<char>>, calls: Seq<Call>)
    requires
        all_unstopped(release::CacheView::fresh(), artists, calls),
    ensures
        ({
            let fresh = release::CacheView::fresh();
            let reached = if calls.len() * scan::BATCH < artists.len() {
                calls.len() * scan::BATCH
            } else {
                artists.len() as int
            };
            &&& stored_after(fresh, artists, calls).next_index == reached
            &&& requested_by(fresh, artists, calls) == artists.take(reached)
        }),
{
    calls_sweep_the_library(release::CacheView::fresh(), artists, calls);
}

} // verus!
