//! What responses and release lists promise, stated over their releases and
//! the days that these are dated.

use crate::calendar;
use crate::promises;
use crate::query;
use crate::release;
use crate::release::{Cache, GroupView, MbResp, Release, ReleaseView, RgRaw};
use crate::text;
use vstd::prelude::*;

verus! {

// ----- responses ------------------------------------------------------------

/// A group makes a release exactly when it is dated, its date is not before
/// the cutoff, and one of the credited names is the artist's but for case and
/// surrounding white space. Nothing else about the group matters.
pub proof fn which_groups_make_releases(group: GroupView, artist: Seq<char>, cutoff: Seq<char>)
    ensures
        release::found_releases(Some(seq![group]), artist, cutoff).len() == 1 <==> {
            &&& group.first_release_date.len() > 0
            &&& !text::text_less(calendar::date_key_text(group.first_release_date), cutoff)
            &&& exists|i: int|
                0 <= i < group.credits.len() && query::lowercase(
                    query::trimmed(#[trigger] group.credits[i]),
                ) == query::lowercase(query::trimmed(artist))
        },
        release::found_releases(Some(seq![group]), artist, cutoff).len() <= 1,
{
    one_group(group, artist, cutoff);
    if release::credited(group.credits, artist) {
        let i = choose|i: int|
            0 <= i < group.credits.len() && query::normalized(#[trigger] group.credits[i])
                == query::normalized(artist);
        assert(query::lowercase(query::trimmed(group.credits[i])) == query::lowercase(
            query::trimmed(artist),
        ));
    }
    if exists|i: int|
        0 <= i < group.credits.len() && query::lowercase(
            query::trimmed(#[trigger] group.credits[i]),
        ) == query::lowercase(query::trimmed(artist)) {
        let i = choose|i: int|
            0 <= i < group.credits.len() && query::lowercase(
                query::trimmed(#[trigger] group.credits[i]),
            ) == query::lowercase(query::trimmed(artist));
        assert(query::normalized(group.credits[i]) == query::normalized(artist));
    }
}

proof fn one_group(group: GroupView, artist: Seq<char>, cutoff: Seq<char>)
    ensures
        release::found_releases(Some(seq![group]), artist, cutoff) == match release::release_if(
            group,
            release::credited(group.credits, artist),
            artist,
            cutoff,
        ) {
            Some(made) => seq![made],
            None => seq![],
        },
{
    reveal_with_fuel(release::selected, 2);
    let none = seq![group].drop_last();
    assert(none =~= seq![]);
    assert(release::selected(none, artist, cutoff) =~= seq![]);
}

/// The release that a group makes carries the group's id, title, date and
/// type, a group without a type making one with an empty one. Its artist is
/// the first credited name, or the one asked for where that is empty.
pub proof fn what_a_release_carries(group: GroupView, artist: Seq<char>, cutoff: Seq<char>)
    requires
        release::found_releases(Some(seq![group]), artist, cutoff).len() == 1,
    ensures
        ({
            let r = release::found_releases(Some(seq![group]), artist, cutoff)[0];
            &&& r.id == group.id
            &&& r.title == group.title
            &&& r.date == group.first_release_date
            &&& group.primary_type matches Some(kind) ==> r.primary_type == kind
            &&& group.primary_type is None ==> r.primary_type.len() == 0
            &&& group.credits.len() > 0
            &&& group.credits[0].len() > 0 ==> r.artist == group.credits[0]
            &&& group.credits[0].len() == 0 ==> r.artist == artist
        }),
{
    one_group(group, artist, cutoff);
}

/// Once it is known whether a group is credited to the artist, its date alone
/// decides whether it makes a release, and its fields say which.
pub proof fn groups_make_releases_if_credited(
    group: GroupView,
    is_credited: bool,
    artist: Seq<char>,
    cutoff: Seq<char>,
)
    ensures
        release::release_if(group, is_credited, artist, cutoff) is Some <==> {
            &&& is_credited
            &&& group.first_release_date.len() > 0
            &&& !text::text_less(calendar::date_key_text(group.first_release_date), cutoff)
        },
        release::release_if(group, is_credited, artist, cutoff) matches Some(r) ==> {
            &&& r.id == group.id
            &&& r.title == group.title
            &&& r.date == group.first_release_date
            &&& r.primary_type == match group.primary_type {
                Some(kind) => kind,
                None => Seq::<char>::empty(),
            }
            &&& r.artist == if group.credits.len() > 0 && group.credits[0].len() > 0 {
                group.credits[0]
            } else {
                artist
            }
        },
{
}

/// A dated group that is credited to the artist makes a release exactly when
/// the first day of its date is no earlier than that of the cutoff.
pub proof fn groups_count_from_the_cutoff_on(
    group: GroupView,
    artist: Seq<char>,
    cutoff: Seq<char>,
    i: int,
    y1: int,
    m1: int,
    d1: int,
    y2: int,
    m2: int,
    d2: int,
)
    requires
        0 <= i < group.credits.len(),
        group.credits[i] == artist,
        promises::names_day(group.first_release_date, y1, m1, d1),
        promises::names_day(cutoff, y2, m2, d2),
        cutoff.len() == 10,
    ensures
        release::found_releases(Some(seq![group]), artist, cutoff).len() == 1
            <==> calendar::day_number(y1, m1, d1) >= calendar::day_number(y2, m2, d2),
{
    which_groups_make_releases(group, artist, cutoff);
    promises::dates_compare_by_their_days(group.first_release_date, y1, m1, d1, cutoff, y2, m2, d2);
    promises::full_dates_are_their_keys(cutoff, y2, m2, d2);
    assert(query::lowercase(query::trimmed(group.credits[i])) == query::lowercase(
        query::trimmed(artist),
    ));
}

/// The releases of a response are those of its groups, one group after the
/// other; a response that cannot be read has none.
pub proof fn responses_are_read_group_by_group(
    a: Seq<GroupView>,
    b: Seq<GroupView>,
    artist: Seq<char>,
    cutoff: Seq<char>,
)
    ensures
        release::found_releases(Some(a + b), artist, cutoff) == release::found_releases(
            Some(a),
            artist,
            cutoff,
        ) + release::found_releases(Some(b), artist, cutoff),
        release::found_releases(Some(seq![]), artist, cutoff).len() == 0,
        release::found_releases(None, artist, cutoff).len() == 0,
    decreases b.len(),
{
    let all = release::found_releases(Some(a + b), artist, cutoff);
    let first = release::found_releases(Some(a), artist, cutoff);
    let second = release::found_releases(Some(b), artist, cutoff);
    if b.len() > 0 {
        responses_are_read_group_by_group(a, b.drop_last(), artist, cutoff);
        assert((a + b).drop_last() =~= a + b.drop_last());
        assert((a + b).last() == b.last());
        assert(all =~= first + second);
    } else {
        assert(a + b =~= a);
        assert(all =~= first + second);
    }
}

// ----- merging --------------------------------------------------------------

/// Merging takes what was found one by one: a release joins at the end unless
/// one with its id is there, and then the list stays as it is.
pub proof fn merging_goes_one_by_one(
    existing: Seq<ReleaseView>,
    a: Seq<ReleaseView>,
    b: Seq<ReleaseView>,
    r: ReleaseView,
)
    ensures
        release::merged(existing, seq![]) == existing,
        release::merged(existing, a + b) == release::merged(release::merged(existing, a), b),
        (exists|i: int| 0 <= i < existing.len() && (#[trigger] existing[i]).id == r.id)
            ==> release::merged(existing, seq![r]) == existing,
        (forall|i: int| 0 <= i < existing.len() ==> (#[trigger] existing[i]).id != r.id)
            ==> release::merged(existing, seq![r]) == existing.push(r),
{
    release::merging_goes_on(existing, a, b);
    reveal_with_fuel(release::merged, 2);
    assert(seq![r].drop_last() =~= seq![]);
    assert(release::merged(existing, seq![r].drop_last()) == existing);
}

// ----- ordering and capping -------------------------------------------------

/// Whether the first days of two dates, so far as they name days, are in
/// order, the later one first.
pub open spec fn later_first(a: Seq<char>, b: Seq<char>) -> bool {
    forall|y1: int, m1: int, d1: int, y2: int, m2: int, d2: int|
        #[trigger] promises::names_day(a, y1, m1, d1) && #[trigger] promises::names_day(
            b,
            y2,
            m2,
            d2,
        ) ==> calendar::day_number(y1, m1, d1) >= calendar::day_number(y2, m2, d2)
}

/// What is kept of a list, followed by what is left out, is the list put in
/// another order: newest first by the days of the dates, and by their keys as
/// texts; those of one key in the order in which they came. Of more than 150
/// releases the first 150 of that order are kept, and otherwise all.
pub proof fn the_newest_are_kept(s: Seq<ReleaseView>) -> (left_out: Seq<ReleaseView>)
    ensures
        ({
            let kept = release::kept(s);
            let all = kept + left_out;
            &&& kept.len() <= 150
            &&& left_out.len() > 0 ==> kept.len() == 150
            &&& all.to_multiset() == s.to_multiset()
            &&& forall|i: int, j: int|
                0 <= i < j < all.len() ==> later_first(
                    (#[trigger] all[i]).date,
                    (#[trigger] all[j]).date,
                )
            &&& forall|i: int, j: int|
                0 <= i < j < all.len() ==> !text::text_less(
                    calendar::date_key_text((#[trigger] all[i]).date),
                    calendar::date_key_text((#[trigger] all[j]).date),
                )
            &&& forall|key: Seq<char>| #[trigger]
                dated(all, key) == dated(s, key)
        }),
{
    let sorted = release::newest_first(s);
    let kept = release::kept(s);
    let left_out = sorted.skip(kept.len() as int);
    release::newest_first_is_sorted(s);
    assert(kept + left_out =~= sorted);
    assert forall|i: int, j: int| 0 <= i < j < sorted.len() implies !text::text_less(
        calendar::date_key_text((#[trigger] sorted[i]).date),
        calendar::date_key_text((#[trigger] sorted[j]).date),
    ) && later_first(sorted[i].date, sorted[j].date) by {
        let (a, b) = (sorted[i].date, sorted[j].date);
        assert(sorted[i].key() == calendar::date_key_text(a));
        assert(sorted[j].key() == calendar::date_key_text(b));
        assert forall|y1: int, m1: int, d1: int, y2: int, m2: int, d2: int|
            #[trigger] promises::names_day(a, y1, m1, d1) && #[trigger] promises::names_day(
                b,
                y2,
                m2,
                d2,
            ) implies calendar::day_number(y1, m1, d1) >= calendar::day_number(y2, m2, d2) by {
            promises::dates_compare_by_their_days(a, y1, m1, d1, b, y2, m2, d2);
        }
    }
    assert forall|key: Seq<char>| #[trigger] dated(sorted, key) == dated(s, key) by {
        release::newest_first_is_stable(s, key);
        same_filter(sorted, key);
        same_filter(s, key);
    }
    left_out
}

/// The releases whose date has this key, in their order.
pub open spec fn dated(s: Seq<ReleaseView>, key: Seq<char>) -> Seq<ReleaseView> {
    s.filter(|r: ReleaseView| calendar::date_key_text(r.date) == key)
}

proof fn same_filter(s: Seq<ReleaseView>, key: Seq<char>)
    ensures
        dated(s, key) == release::of_date(s, key),
{
    let f = |r: ReleaseView| calendar::date_key_text(r.date) == key;
    let g = |x: ReleaseView| x.key() == key;
    assert(f =~= g);
}

// ----- what lists and responses say -----------------------------------------

/// A release says what its fields say, and a list says what each of its
/// releases says.
pub proof fn releases_say_what_they_hold(r: Release, list: Seq<Release>, i: int)
    requires
        0 <= i < list.len(),
    ensures
        r@.id == r.id@,
        r@.title == r.title@,
        r@.artist == r.artist@,
        r@.date == r.date@,
        r@.primary_type == r.primary_type@,
        release::views(list).len() == list.len(),
        release::views(list)[i] == list[i]@,
{
}

/// A cache says each of its releases, its cursor, its total and its time.
pub proof fn caches_say_what_they_hold(cache: Cache)
    ensures
        cache@.releases.len() == cache.releases@.len(),
        forall|i: int|
            0 <= i < cache.releases@.len() ==> #[trigger] cache@.releases[i]
                == cache.releases@[i]@,
        cache@.next_index == cache.next_index,
        cache@.total == cache.total,
        cache@.updated_at == cache.updated_at,
{
}

/// A cache that was never used holds nothing, and all its numbers are 0.
pub proof fn fresh_caches_hold_nothing()
    ensures
        release::CacheView::fresh().releases.len() == 0,
        release::CacheView::fresh().next_index == 0,
        release::CacheView::fresh().total == 0,
        release::CacheView::fresh().updated_at == 0,
{
}

/// A response says each of its groups, and a group its fields and each of its
/// credits.
pub proof fn responses_say_what_they_hold(resp: MbResp, group: RgRaw)
    ensures
        resp@.len() == resp.release_groups@.len(),
        forall|i: int|
            0 <= i < resp.release_groups@.len() ==> #[trigger] resp@[i]
                == resp.release_groups@[i]@,
        group@.id == group.id@,
        group@.title == group.title@,
        group@.first_release_date == group.first_release_date@,
        group.primary_type is None ==> group@.primary_type is None,
        group.primary_type matches Some(kind) ==> group@.primary_type == Some(kind@),
        group@.credits.len() == group.artist_credit@.len(),
        forall|i: int|
            0 <= i < group.artist_credit@.len() ==> #[trigger] group@.credits[i]
                == group.artist_credit@[i].name@,
{
}

} // verus!
