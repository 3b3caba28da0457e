//! Releases: which ones count as recent, and the list they are kept in.

use crate::calendar;
use crate::query;
use crate::text;
use vstd::prelude::*;

verus! {

/// Cap on the number of releases kept in the cache — newest first.
pub const MAX_RELEASES: usize = 150;

// ----- releases and the cache -----------------------------------------------

/// One recent release-group.
pub struct Release {
    /// MusicBrainz release-group MBID — the id for the cover + the link.
    pub id: String,
    pub title: String,
    pub artist: String,
    /// First-release date as MusicBrainz reports it: `YYYY-MM-DD`,
    /// `YYYY-MM`, or `YYYY`.
    pub date: String,
    /// `Album` / `EP` / `Single` / … — shown as a badge.
    pub primary_type: String,
}

/// What a [`Release`] says.
#[verifier::ext_equal]
pub struct ReleaseView {
    pub id: Seq<char>,
    pub title: Seq<char>,
    pub artist: Seq<char>,
    pub date: Seq<char>,
    pub primary_type: Seq<char>,
}

impl View for Release {
    type V = ReleaseView;

    open spec fn view(&self) -> ReleaseView {
        ReleaseView {
            id: self.id@,
            title: self.title@,
            artist: self.artist@,
            date: self.date@,
            primary_type: self.primary_type@,
        }
    }
}

impl ReleaseView {
    /// The text by which releases are ordered.
    pub open spec fn key(self) -> Seq<char> {
        calendar::date_key_text(self.date)
    }
}

/// What each release of a list says.
pub open spec fn views(releases: Seq<Release>) -> Seq<ReleaseView> {
    releases.map_values(|r: Release| r@)
}

/// Everything remembered between calls.
pub struct Cache {
    /// Resolved releases, deduped by release-group id, newest first.
    pub releases: Vec<Release>,
    /// Index into the artist list the next batch resumes from.
    pub next_index: usize,
    /// Total artists in the current scan pass (snapshot of the list
    /// length), so the UI can show `scanned / total`.
    pub total: usize,
    /// Epoch seconds of the last completed batch; `0` = never scanned.
    pub updated_at: i64,
}

/// What a [`Cache`] holds.
#[verifier::ext_equal]
pub struct CacheView {
    pub releases: Seq<ReleaseView>,
    pub next_index: nat,
    pub total: nat,
    pub updated_at: int,
}

impl View for Cache {
    type V = CacheView;

    open spec fn view(&self) -> CacheView {
        CacheView {
            releases: views(self.releases@),
            next_index: self.next_index as nat,
            total: self.total as nat,
            updated_at: self.updated_at as int,
        }
    }
}

impl CacheView {
    /// The cache of a library that was never scanned.
    pub open spec fn fresh() -> CacheView {
        CacheView { releases: seq![], next_index: 0, total: 0, updated_at: 0 }
    }

    /// No release-group twice, newest first, and no more than are kept.
    pub open spec fn well_formed(self) -> bool {
        &&& distinct_ids(self.releases)
        &&& in_order(self.releases)
        &&& self.releases.len() <= MAX_RELEASES
    }
}

impl Default for Cache {
    /// The cache of a library that was never scanned.
    fn default() -> (cache: Cache)
        ensures
            cache@ == CacheView::fresh(),
    {
        let cache = Cache { releases: Vec::new(), next_index: 0, total: 0, updated_at: 0 };
        assert(cache@ =~= CacheView::fresh());
        cache
    }
}

/// The cache that the scratch store held, or a fresh one where it held none
/// that could be read.
pub fn read_cache(stored: Option<Cache>) -> (cache: Cache)
    ensures
        cache@ == match stored {
            Some(stored) => stored@,
            None => CacheView::fresh(),
        },
{
    match stored {
        Some(cache) => cache,
        None => Cache::default(),
    }
}

/// The line for the log about a cache that could not be stored.
pub fn write_warning(error: &str) -> (line: String)
    ensures
        line@ == "release-radar: cache write failed: "@ + error@,
{
    let mut line = "release-radar: cache write failed: ".to_owned();
    line.append(error);
    line
}

/// The line for the log about a cache that could not be encoded.
pub fn encode_warning(error: &str) -> (line: String)
    ensures
        line@ == "release-radar: cache encode failed: "@ + error@,
{
    let mut line = "release-radar: cache encode failed: ".to_owned();
    line.append(error);
    line
}

// ----- MusicBrainz responses ------------------------------------------------

/// A MusicBrainz release-group search response.
pub struct MbResp {
    pub release_groups: Vec<RgRaw>,
}

/// One release-group of a response.
pub struct RgRaw {
    pub id: String,
    pub title: String,
    pub first_release_date: String,
    pub primary_type: Option<String>,
    pub artist_credit: Vec<AcRaw>,
}

/// One credited artist of a release-group.
pub struct AcRaw {
    pub name: String,
}

/// What a [`RgRaw`] says.
#[verifier::ext_equal]
pub struct GroupView {
    pub id: Seq<char>,
    pub title: Seq<char>,
    pub first_release_date: Seq<char>,
    pub primary_type: Option<Seq<char>>,
    pub credits: Seq<Seq<char>>,
}

impl View for RgRaw {
    type V = GroupView;

    open spec fn view(&self) -> GroupView {
        GroupView {
            id: self.id@,
            title: self.title@,
            first_release_date: self.first_release_date@,
            primary_type: match self.primary_type {
                Some(kind) => Some(kind@),
                None => None,
            },
            credits: self.artist_credit@.map_values(|ac: AcRaw| ac.name@),
        }
    }
}

impl View for MbResp {
    type V = Seq<GroupView>;

    open spec fn view(&self) -> Seq<GroupView> {
        self.release_groups@.map_values(|rg: RgRaw| rg@)
    }
}

/// Whether one of the credited names is the artist's, compared in normalized form.
pub open spec fn credited(credits: Seq<Seq<char>>, artist: Seq<char>) -> bool {
    exists|i: int|
        0 <= i < credits.len() && query::normalized(#[trigger] credits[i]) == query::normalized(
            artist,
        )
}

/// The release that a group makes, if it is dated, not before the cutoff, and
/// credited to the artist. It is shown under the first credited name, or the
/// artist's own where that is empty.
pub open spec fn release_if(
    group: GroupView,
    is_credited: bool,
    artist: Seq<char>,
    cutoff: Seq<char>,
) -> Option<ReleaseView> {
    if group.first_release_date.len() > 0 && !text::text_less(
        calendar::date_key_text(group.first_release_date),
        cutoff,
    ) && is_credited {
        Some(
            ReleaseView {
                id: group.id,
                title: group.title,
                artist: if group.credits.len() > 0 && group.credits[0].len() > 0 {
                    group.credits[0]
                } else {
                    artist
                },
                date: group.first_release_date,
                primary_type: match group.primary_type {
                    Some(kind) => kind,
                    None => seq![],
                },
            },
        )
    } else {
        None
    }
}

/// The releases that the groups of a response make, in the order of the groups.
pub open spec fn selected(
    groups: Seq<GroupView>,
    artist: Seq<char>,
    cutoff: Seq<char>,
) -> Seq<ReleaseView>
    decreases groups.len(),
{
    if groups.len() == 0 {
        seq![]
    } else {
        let before = selected(groups.drop_last(), artist, cutoff);
        let group = groups.last();
        match release_if(group, credited(group.credits, artist), artist, cutoff) {
            Some(release) => before.push(release),
            None => before,
        }
    }
}

/// What a response yields: nothing where it could not be read.
pub open spec fn found_releases(
    resp: Option<Seq<GroupView>>,
    artist: Seq<char>,
    cutoff: Seq<char>,
) -> Seq<ReleaseView> {
    match resp {
        Some(groups) => selected(groups, artist, cutoff),
        None => seq![],
    }
}

/// Whether one of the names is `want`.
pub fn any_name_is(want: &str, names: &Vec<String>) -> (found: bool)
    ensures
        found == exists|i: int| 0 <= i < names@.len() && (#[trigger] names@[i])@ == want@,
{
    let mut i: usize = 0;
    while i < names.len()
        invariant
            i <= names@.len(),
            forall|j: int| 0 <= j < i ==> (#[trigger] names@[j])@ != want@,
        decreases names@.len() - i,
    {
        if text::str_eq(names[i].as_str(), want) {
            return true;
        }
        i = i + 1;
    }
    false
}

/// The credited names in normalized form.
fn normalized_credits(credits: &Vec<AcRaw>) -> (names: Vec<String>)
    ensures
        names@.len() == credits@.len(),
        forall|i: int|
            0 <= i < names@.len() ==> (#[trigger] names@[i])@ == query::normalized(
                credits@[i].name@,
            ),
{
    let mut names: Vec<String> = Vec::new();
    let mut i: usize = 0;
    while i < credits.len()
        invariant
            i <= credits@.len(),
            names@.len() == i,
            forall|j: int|
                0 <= j < i ==> (#[trigger] names@[j])@ == query::normalized(credits@[j].name@),
        decreases credits@.len() - i,
    {
        names.push(query::normalize(credits[i].name.as_str()));
        i = i + 1;
    }
    names
}

/// The release that a group makes for the artist, given whether it is
/// credited to the artist.
pub fn release_from_group(rg: RgRaw, is_credited: bool, artist_name: &str, cutoff: &str) -> (release:
    Option<Release>)
    ensures
        match release {
            Some(release) => Some(release@),
            None => None,
        } == release_if(rg@, is_credited, artist_name@, cutoff@),
{
    if rg.first_release_date.as_str().is_empty() {
        return None;
    }
    if text::str_less(calendar::date_key(rg.first_release_date.as_str()).as_str(), cutoff) {
        return None;
    }
    if !is_credited {
        return None;
    }
    let artist = if rg.artist_credit.len() > 0 && !rg.artist_credit[0].name.as_str().is_empty() {
        rg.artist_credit[0].name.clone()
    } else {
        artist_name.to_owned()
    };
    let primary_type = match rg.primary_type {
        Some(kind) => kind,
        None => String::new(),
    };
    let release = Release {
        id: rg.id,
        title: rg.title,
        artist,
        date: rg.first_release_date,
        primary_type,
    };
    assert(Some(release@) =~~= release_if(rg@, is_credited, artist_name@, cutoff@));
    Some(release)
}

/// The recent releases of a response, `None` where the response could not be
/// read. The query is an `artist:"name"` phrase search, but MusicBrainz can
/// return homonyms, so a normalized credit match is required.
pub fn parse_release_groups(resp: Option<MbResp>, artist_name: &str, cutoff: &str) -> (out: Vec<
    Release,
>)
    ensures
        views(out@) == found_releases(
            match resp {
                Some(resp) => Some(resp@),
                None => None,
            },
            artist_name@,
            cutoff@,
        ),
{
    let mut out: Vec<Release> = Vec::new();
    let resp = match resp {
        Some(resp) => resp,
        None => {
            assert(views(out@) =~= seq![]);
            return out;
        },
    };
    let want = query::normalize(artist_name);
    let groups = resp.release_groups;
    let ghost all = resp@;
    assert(all.take(0) =~= seq![]);
    assert(views(out@) =~= seq![]);
    for rg in it: groups
        invariant
            it.seq() == groups@,
            all == groups@.map_values(|rg: RgRaw| rg@),
            want@ == query::normalized(artist_name@),
            views(out@) == selected(all.take(it.index()), artist_name@, cutoff@),
    {
        let ghost k = it.index();
        let ghost group = rg@;
        let ghost before = out@;
        let names = normalized_credits(&rg.artist_credit);
        let is_credited = any_name_is(want.as_str(), &names);
        proof {
            assert(group == all[k]);
            assert(all.take(k + 1).drop_last() =~= all.take(k));
            assert(all.take(k + 1).last() == group);
            if credited(group.credits, artist_name@) {
                let i = choose|i: int|
                    0 <= i < group.credits.len() && query::normalized(#[trigger] group.credits[i])
                        == query::normalized(artist_name@);
                assert(names@[i]@ == want@);
            }
            if is_credited {
                let i = choose|i: int| 0 <= i < names@.len() && (#[trigger] names@[i])@ == want@;
                assert(query::normalized(group.credits[i]) == want@);
            }
            assert(is_credited == credited(group.credits, artist_name@));
        }
        match release_from_group(rg, is_credited, artist_name, cutoff) {
            Some(release) => {
                out.push(release);
                assert(views(out@) =~= views(before).push(release@));
            },
            None => {},
        }
    }
    assert(all.take(all.len() as int) =~= all);
    out
}

/// A response yields a release for each group that is dated, not before the
/// cutoff and credited to the artist, and none for any other.
pub proof fn selected_are_recent_and_credited(
    groups: Seq<GroupView>,
    artist: Seq<char>,
    cutoff: Seq<char>,
    r: ReleaseView,
)
    ensures
        selected(groups, artist, cutoff).contains(r) <==> exists|i: int|
            0 <= i < groups.len() && release_if(
                #[trigger] groups[i],
                credited(groups[i].credits, artist),
                artist,
                cutoff,
            ) == Some(r),
    decreases groups.len(),
{
    if groups.len() > 0 {
        let head = groups.drop_last();
        let last = groups.last();
        let before = selected(head, artist, cutoff);
        let all = selected(groups, artist, cutoff);
        let made = release_if(last, credited(last.credits, artist), artist, cutoff);
        selected_are_recent_and_credited(head, artist, cutoff, r);
        if all.contains(r) {
            if before.contains(r) {
                let i = choose|i: int|
                    0 <= i < head.len() && release_if(
                        #[trigger] head[i],
                        credited(head[i].credits, artist),
                        artist,
                        cutoff,
                    ) == Some(r);
                assert(groups[i] == head[i]);
            } else {
                let k = choose|k: int| 0 <= k < all.len() && all[k] == r;
                assert(k < before.len() ==> before[k] == r);
                assert(groups[groups.len() - 1] == last && made == Some(r));
            }
        }
        if exists|i: int|
            0 <= i < groups.len() && release_if(
                #[trigger] groups[i],
                credited(groups[i].credits, artist),
                artist,
                cutoff,
            ) == Some(r) {
            let i = choose|i: int|
                0 <= i < groups.len() && release_if(
                    #[trigger] groups[i],
                    credited(groups[i].credits, artist),
                    artist,
                    cutoff,
                ) == Some(r);
            if i < head.len() {
                assert(head[i] == groups[i]);
                let k = choose|k: int| 0 <= k < before.len() && before[k] == r;
                assert(all[k] == r);
            } else {
                assert(all[before.len() as int] == r);
            }
        }
    }
}

// ----- the list of releases -------------------------------------------------

/// Whether a release with this id is in the list.
pub open spec fn has_id(s: Seq<ReleaseView>, id: Seq<char>) -> bool {
    exists|i: int| 0 <= i < s.len() && (#[trigger] s[i]).id == id
}

/// No release-group is in the list twice.
pub open spec fn distinct_ids(s: Seq<ReleaseView>) -> bool {
    forall|i: int, j: int| 0 <= i < j < s.len() ==> (#[trigger] s[i]).id != (#[trigger] s[j]).id
}

/// No release stands before a newer one.
pub open spec fn in_order(s: Seq<ReleaseView>) -> bool {
    forall|i: int, j: int|
        0 <= i < j < s.len() ==> !text::text_less((#[trigger] s[i]).key(), (#[trigger] s[j]).key())
}

/// `existing`, then those of `found` whose id was not there yet.
pub open spec fn merged(existing: Seq<ReleaseView>, found: Seq<ReleaseView>) -> Seq<ReleaseView>
    decreases found.len(),
{
    if found.len() == 0 {
        existing
    } else {
        let before = merged(existing, found.drop_last());
        if has_id(before, found.last().id) {
            before
        } else {
            before.push(found.last())
        }
    }
}

fn contains_id(releases: &Vec<Release>, id: &String) -> (found: bool)
    ensures
        found == has_id(views(releases@), id@),
{
    let ghost list = views(releases@);
    let mut i: usize = 0;
    while i < releases.len()
        invariant
            i <= releases@.len(),
            list == views(releases@),
            forall|j: int| 0 <= j < i ==> (#[trigger] list[j]).id != id@,
        decreases releases@.len() - i,
    {
        assert(list[i as int] == releases@[i as int]@);
        if releases[i].id == *id {
            return true;
        }
        i = i + 1;
    }
    false
}

/// Adds to `existing` those of `found` whose id is not there yet.
pub fn merge_releases(existing: &mut Vec<Release>, found: Vec<Release>)
    ensures
        views(final(existing)@) == merged(views(old(existing)@), views(found@)),
{
    let ghost all = views(found@);
    let ghost first = views(existing@);
    assert(all.take(0) =~= seq![]);
    for r in it: found
        invariant
            it.seq() == found@,
            all == views(found@),
            views(existing@) == merged(first, all.take(it.index())),
    {
        let ghost k = it.index();
        let ghost before = existing@;
        proof {
            assert(r@ == all[k]);
            assert(all.take(k + 1).drop_last() =~= all.take(k));
            assert(all.take(k + 1).last() == r@);
        }
        if !contains_id(existing, &r.id) {
            existing.push(r);
            assert(views(existing@) =~= views(before).push(r@));
        }
    }
    assert(all.take(all.len() as int) =~= all);
}

/// `r` put into `s` behind every release that is as new or newer, read from
/// the end of `s`.
pub open spec fn place(s: Seq<ReleaseView>, r: ReleaseView) -> Seq<ReleaseView>
    decreases s.len(),
{
    if s.len() > 0 && text::text_less(s.last().key(), r.key()) {
        place(s.drop_last(), r).push(s.last())
    } else {
        s.push(r)
    }
}

/// The releases ordered newest first, those of one date in the order they came in.
pub open spec fn newest_first(s: Seq<ReleaseView>) -> Seq<ReleaseView>
    decreases s.len(),
{
    if s.len() == 0 {
        seq![]
    } else {
        place(newest_first(s.drop_last()), s.last())
    }
}

/// The releases that are kept: the newest, newest first.
pub open spec fn kept(s: Seq<ReleaseView>) -> Seq<ReleaseView> {
    if s.len() <= MAX_RELEASES {
        newest_first(s)
    } else {
        newest_first(s).take(MAX_RELEASES as int)
    }
}

/// Moves the release at `i` to its place among those before it.
#[verifier::spinoff_prover]
fn settle(releases: &mut Vec<Release>, i: usize)
    requires
        i < old(releases)@.len(),
    ensures
        views(final(releases)@) == place(
            views(old(releases)@).take(i as int),
            views(old(releases)@)[i as int],
        ) + views(old(releases)@).skip(i + 1),
{
    let ghost all = views(releases@);
    let r = releases.remove(i);
    let key = calendar::date_key(r.date.as_str());
    let mut p: usize = i;
    let ghost rest = views(releases@);
    proof {
        assert(rest =~= all.remove(i as int));
        assert(all.take(i as int) =~= rest.take(i as int));
        assert(all.skip(i + 1) =~= rest.skip(i as int));
        assert(rest.subrange(i as int, i as int) =~= seq![]);
        assert(place(rest.take(i as int), r@) + seq![] =~= place(rest.take(i as int), r@));
    }
    while p > 0 && text::str_less(
        calendar::date_key(releases[p - 1].date.as_str()).as_str(),
        key.as_str(),
    )
        invariant
            p <= i <= releases@.len(),
            rest == views(releases@),
            key@ == r@.key(),
            place(rest.take(i as int), r@) == place(rest.take(p as int), r@) + rest.subrange(
                p as int,
                i as int,
            ),
        decreases p,
    {
        proof {
            let head = rest.take(p as int);
            assert(head.last() == releases@[p - 1]@);
            assert(head.drop_last() =~= rest.take(p - 1));
            assert(place(rest.take(p - 1), r@).push(head.last()) + rest.subrange(p as int, i as int)
                =~= place(rest.take(p - 1), r@) + rest.subrange(p - 1, i as int));
        }
        p = p - 1;
    }
    proof {
        let head = rest.take(p as int);
        if p > 0 {
            assert(head.last() == releases@[p - 1]@);
        }
        assert(place(head, r@) == head.push(r@));
    }
    releases.insert(p, r);
    assert(views(releases@) =~= rest.take(p as int).push(r@) + rest.subrange(p as int, i as int)
        + rest.skip(i as int));
}

/// The first `i` releases are ordered and the others untouched.
spec fn partly_sorted(all: Seq<ReleaseView>, i: int, now: Seq<ReleaseView>) -> bool {
    &&& newest_first(all.take(i)).len() == i
    &&& now == newest_first(all.take(i)) + all.skip(i)
}

proof fn settling_sorts_one_more(
    all: Seq<ReleaseView>,
    i: int,
    before: Seq<ReleaseView>,
    after: Seq<ReleaseView>,
)
    requires
        0 <= i < all.len(),
        partly_sorted(all, i, before),
        after == place(before.take(i), before[i]) + before.skip(i + 1),
    ensures
        partly_sorted(all, i + 1, after),
{
    let sorted = newest_first(all.take(i));
    assert(before.take(i) =~= sorted);
    assert(before[i] == all[i]);
    assert(before.skip(i + 1) =~= all.skip(i + 1));
    assert(all.take(i + 1).drop_last() =~= all.take(i));
    assert(all.take(i + 1).last() == all[i]);
    place_adds_one(sorted, all[i]);
}

/// Orders the releases newest first.
#[verifier::spinoff_prover]
fn sort_newest_first(releases: &mut Vec<Release>)
    ensures
        views(final(releases)@) == newest_first(views(old(releases)@)),
{
    let ghost all = views(releases@);
    let n: usize = releases.len();
    let mut i: usize = 0;
    proof {
        nothing_sorted_yet(all);
    }
    while i < n
        invariant
            i <= n,
            n == all.len(),
            n == releases@.len(),
            partly_sorted(all, i as int, views(releases@)),
        decreases n - i,
    {
        let ghost before = views(releases@);
        settle(releases, i);
        proof {
            settling_sorts_one_more(all, i as int, before, views(releases@));
            assert(views(releases@).len() == releases@.len());
        }
        i = i + 1;
    }
    proof {
        all_sorted(all, views(releases@));
    }
}

proof fn nothing_sorted_yet(all: Seq<ReleaseView>)
    ensures
        partly_sorted(all, 0, all),
{
    assert(all.take(0) =~= seq![]);
    assert(newest_first(all.take(0)) + all.skip(0) =~= all);
}

proof fn all_sorted(all: Seq<ReleaseView>, now: Seq<ReleaseView>)
    requires
        partly_sorted(all, all.len() as int, now),
    ensures
        now == newest_first(all),
        now.len() == all.len(),
{
    let n = all.len() as int;
    assert(all.take(n) =~= all);
    assert(newest_first(all) + all.skip(n) =~= newest_first(all));
}

/// Orders the releases newest first and keeps the newest [`MAX_RELEASES`].
pub fn sort_and_cap(releases: &mut Vec<Release>)
    ensures
        views(final(releases)@) == kept(views(old(releases)@)),
{
    let ghost all = views(releases@);
    sort_newest_first(releases);
    let ghost sorted = releases@;
    releases.truncate(MAX_RELEASES);
    proof {
        newest_first_is_sorted(all);
        assert(views(sorted).len() == sorted.len());
        if all.len() > MAX_RELEASES {
            assert(views(releases@) =~= views(sorted).take(MAX_RELEASES as int));
        }
    }
}

proof fn place_adds_one(s: Seq<ReleaseView>, r: ReleaseView)
    ensures
        place(s, r).len() == s.len() + 1,
    decreases s.len(),
{
    if s.len() > 0 && text::text_less(s.last().key(), r.key()) {
        place_adds_one(s.drop_last(), r);
    }
}

// ----- what merging keeps ---------------------------------------------------

/// Merging leaves the existing releases where they are.
pub proof fn merge_keeps_existing(existing: Seq<ReleaseView>, found: Seq<ReleaseView>)
    ensures
        existing.len() <= merged(existing, found).len(),
        merged(existing, found).take(existing.len() as int) == existing,
    decreases found.len(),
{
    if found.len() > 0 {
        merge_keeps_existing(existing, found.drop_last());
        let before = merged(existing, found.drop_last());
        assert(before.push(found.last()).take(existing.len() as int) =~= before.take(
            existing.len() as int,
        ));
    } else {
        assert(existing.take(existing.len() as int) =~= existing);
    }
}

/// After merging, the list holds the ids of both sides and no others, and
/// each of its releases came from one of the two.
pub proof fn merge_unites_ids(
    existing: Seq<ReleaseView>,
    found: Seq<ReleaseView>,
    id: Seq<char>,
    r: ReleaseView,
)
    ensures
        has_id(merged(existing, found), id) <==> has_id(existing, id) || has_id(found, id),
        merged(existing, found).contains(r) ==> existing.contains(r) || found.contains(r),
    decreases found.len(),
{
    if found.len() > 0 {
        merge_unites_ids(existing, found.drop_last(), id, r);
        let before = merged(existing, found.drop_last());
        let last = found.last();
        id_after_push(before, last, id);
        id_after_push(found.drop_last(), last, id);
        assert(found.drop_last().push(last) =~= found);
        if has_id(before, last.id) && last.id == id {
            assert(has_id(before, id));
        }
        if before.push(last).contains(r) && !before.contains(r) {
            let i = choose|i: int| 0 <= i < before.push(last).len() && before.push(last)[i] == r;
            if i < before.len() {
                assert(before[i] == r);
            }
            assert(found[found.len() - 1] == r);
        }
        if found.drop_last().contains(r) {
            let i = choose|i: int| 0 <= i < found.len() - 1 && found.drop_last()[i] == r;
            assert(found[i] == r);
        }
    }
}

proof fn id_after_push(s: Seq<ReleaseView>, r: ReleaseView, id: Seq<char>)
    ensures
        has_id(s.push(r), id) <==> has_id(s, id) || r.id == id,
{
    let t = s.push(r);
    if has_id(s, id) {
        let i = choose|i: int| 0 <= i < s.len() && (#[trigger] s[i]).id == id;
        assert(t[i].id == id);
    }
    if r.id == id {
        assert(t[s.len() as int].id == id);
    }
    if has_id(t, id) && r.id != id {
        let i = choose|i: int| 0 <= i < t.len() && (#[trigger] t[i]).id == id;
        assert(s[i].id == id);
    }
}

/// A list without duplicates has none after merging.
pub proof fn merge_keeps_ids_distinct(existing: Seq<ReleaseView>, found: Seq<ReleaseView>)
    requires
        distinct_ids(existing),
    ensures
        distinct_ids(merged(existing, found)),
    decreases found.len(),
{
    if found.len() > 0 {
        merge_keeps_ids_distinct(existing, found.drop_last());
        let before = merged(existing, found.drop_last());
        let t = before.push(found.last());
        if !has_id(before, found.last().id) {
            assert forall|i: int, j: int| 0 <= i < j < t.len() implies (#[trigger] t[i]).id != (
            #[trigger] t[j]).id by {
                assert(t[i] == before[i]);
                if j < before.len() {
                    assert(t[j] == before[j]);
                }
            }
        }
    }
}

/// Merging what is already there changes nothing: scanning an artist again
/// adds no release twice.
pub proof fn merge_twice_is_merge_once(existing: Seq<ReleaseView>, found: Seq<ReleaseView>)
    ensures
        merged(merged(existing, found), found) == merged(existing, found),
{
    let list = merged(existing, found);
    assert forall|i: int| 0 <= i < found.len() implies has_id(list, (#[trigger] found[i]).id) by {
        assert(has_id(found, found[i].id));
        merge_unites_ids(existing, found, found[i].id, found[i]);
    }
    merge_of_known(list, found);
}

proof fn merge_of_known(list: Seq<ReleaseView>, found: Seq<ReleaseView>)
    requires
        forall|i: int| 0 <= i < found.len() ==> has_id(list, (#[trigger] found[i]).id),
    ensures
        merged(list, found) == list,
    decreases found.len(),
{
    if found.len() > 0 {
        let before = found.drop_last();
        assert forall|i: int| 0 <= i < before.len() implies has_id(list, (#[trigger] before[i]).id) by {
            assert(before[i] == found[i]);
        }
        merge_of_known(list, before);
        assert(has_id(list, found[found.len() - 1].id));
    }
}

/// Merging two finds one after the other is merging both at once.
pub proof fn merging_goes_on(
    existing: Seq<ReleaseView>,
    first: Seq<ReleaseView>,
    second: Seq<ReleaseView>,
)
    ensures
        merged(merged(existing, first), second) == merged(existing, first + second),
    decreases second.len(),
{
    if second.len() > 0 {
        merging_goes_on(existing, first, second.drop_last());
        assert((first + second).drop_last() =~= first + second.drop_last());
        assert((first + second).last() == second.last());
    } else {
        assert(first + second =~= first);
    }
}

/// A release in the merged list whose id was there before is the one that was
/// there.
proof fn existing_wins(existing: Seq<ReleaseView>, found: Seq<ReleaseView>, r: ReleaseView)
    requires
        merged(existing, found).contains(r),
        has_id(existing, r.id),
    ensures
        existing.contains(r),
    decreases found.len(),
{
    if found.len() > 0 {
        let before = merged(existing, found.drop_last());
        let all = merged(existing, found);
        merge_unites_ids(existing, found.drop_last(), r.id, r);
        let i = choose|i: int| 0 <= i < all.len() && all[i] == r;
        if i < before.len() {
            assert(before[i] == r);
        }
        existing_wins(existing, found.drop_last(), r);
    }
}

// ----- what ordering keeps --------------------------------------------------

proof fn place_contents(s: Seq<ReleaseView>, r: ReleaseView, x: ReleaseView)
    ensures
        place(s, r).to_multiset() == s.to_multiset().insert(r),
        place(s, r).contains(x) ==> s.contains(x) || x == r,
    decreases s.len(),
{
    s.to_multiset_ensures();
    if s.len() > 0 && text::text_less(s.last().key(), r.key()) {
        let head = s.drop_last();
        place_contents(head, r, x);
        head.to_multiset_ensures();
        place(head, r).to_multiset_ensures();
        assert(head.push(s.last()) =~= s);
        assert(place(s, r).to_multiset() =~= s.to_multiset().insert(r));
        if place(s, r).contains(x) && x != s.last() {
            let t = place(s, r);
            let i = choose|i: int| 0 <= i < t.len() && t[i] == x;
            assert(place(head, r)[i] == x);
            if head.contains(x) {
                let k = choose|k: int| 0 <= k < head.len() && head[k] == x;
                assert(s[k] == x);
            }
        }
        if x == s.last() {
            assert(s[s.len() - 1] == x);
        }
    } else {
        if s.push(r).contains(x) && x != r {
            let i = choose|i: int| 0 <= i < s.push(r).len() && s.push(r)[i] == x;
            assert(s[i] == x);
        }
    }
}

proof fn place_keeps_order(s: Seq<ReleaseView>, r: ReleaseView)
    requires
        in_order(s),
    ensures
        in_order(place(s, r)),
    decreases s.len(),
{
    let t = place(s, r);
    if s.len() > 0 && text::text_less(s.last().key(), r.key()) {
        let head = s.drop_last();
        assert(in_order(head));
        place_keeps_order(head, r);
        place_adds_one(head, r);
        assert forall|i: int, j: int| 0 <= i < j < t.len() implies !text::text_less(
            (#[trigger] t[i]).key(),
            (#[trigger] t[j]).key(),
        ) by {
            if j == t.len() - 1 {
                let x = place(head, r)[i];
                assert(place(head, r).contains(x));
                place_contents(head, r, x);
                text::text_order_is_total(s.last().key(), r.key(), s.last().key());
                if x != r {
                    let k = choose|k: int| 0 <= k < head.len() && head[k] == x;
                    assert(s[k] == x && s[s.len() - 1] == s.last());
                }
            } else {
                assert(t[i] == place(head, r)[i] && t[j] == place(head, r)[j]);
            }
        }
    } else {
        assert forall|i: int, j: int| 0 <= i < j < t.len() implies !text::text_less(
            (#[trigger] t[i]).key(),
            (#[trigger] t[j]).key(),
        ) by {
            if j == s.len() && i < s.len() - 1 {
                let last = s.last();
                assert(s[i] == t[i]);
                assert(!text::text_less(s[i].key(), s[s.len() - 1].key()));
                text::text_order_is_total(s[i].key(), r.key(), last.key());
                text::text_order_is_total(last.key(), s[i].key(), r.key());
                text::text_order_is_total(r.key(), last.key(), s[i].key());
            } else if j < s.len() {
                assert(s[i] == t[i] && s[j] == t[j]);
            }
        }
    }
}

/// Ordering gives a list that is in order and holds the same releases.
pub proof fn newest_first_is_sorted(s: Seq<ReleaseView>)
    ensures
        in_order(newest_first(s)),
        newest_first(s).to_multiset() == s.to_multiset(),
        newest_first(s).len() == s.len(),
    decreases s.len(),
{
    s.to_multiset_ensures();
    if s.len() > 0 {
        let head = s.drop_last();
        newest_first_is_sorted(head);
        place_keeps_order(newest_first(head), s.last());
        place_adds_one(newest_first(head), s.last());
        place_contents(newest_first(head), s.last(), s.last());
        head.to_multiset_ensures();
        assert(head.push(s.last()) =~= s);
    } else {
        assert(s =~= seq![]);
    }
}

/// The releases of one date, in their order.
pub open spec fn of_date(s: Seq<ReleaseView>, key: Seq<char>) -> Seq<ReleaseView> {
    s.filter(|x: ReleaseView| x.key() == key)
}

proof fn of_date_after_push(s: Seq<ReleaseView>, r: ReleaseView, key: Seq<char>)
    ensures
        of_date(s.push(r), key) == if r.key() == key {
            of_date(s, key).push(r)
        } else {
            of_date(s, key)
        },
{
    reveal(Seq::filter);
    assert(s.push(r).drop_last() =~= s);
}

proof fn place_is_stable(s: Seq<ReleaseView>, r: ReleaseView, key: Seq<char>)
    ensures
        of_date(place(s, r), key) == of_date(s.push(r), key),
    decreases s.len(),
{
    if s.len() > 0 && text::text_less(s.last().key(), r.key()) {
        let head = s.drop_last();
        place_is_stable(head, r, key);
        text::text_order_is_total(s.last().key(), r.key(), r.key());
        of_date_after_push(place(head, r), s.last(), key);
        of_date_after_push(head, r, key);
        of_date_after_push(head, s.last(), key);
        of_date_after_push(s, r, key);
        assert(head.push(s.last()) =~= s);
    }
}

/// Releases of one date stay in the order they came in.
pub proof fn newest_first_is_stable(s: Seq<ReleaseView>, key: Seq<char>)
    ensures
        of_date(newest_first(s), key) == of_date(s, key),
    decreases s.len(),
{
    if s.len() > 0 {
        let head = s.drop_last();
        newest_first_is_stable(head, key);
        place_is_stable(newest_first(head), s.last(), key);
        of_date_after_push(newest_first(head), s.last(), key);
        of_date_after_push(head, s.last(), key);
        assert(head.push(s.last()) =~= s);
    } else {
        assert(s =~= seq![]);
    }
}

/// A list that is in order stays as it is.
pub proof fn newest_first_keeps_sorted(s: Seq<ReleaseView>)
    requires
        in_order(s),
    ensures
        newest_first(s) == s,
    decreases s.len(),
{
    if s.len() > 0 {
        let head = s.drop_last();
        newest_first_keeps_sorted(head);
        if head.len() > 0 {
            assert(head.last() == s[s.len() - 2]);
        }
        assert(place(head, s.last()) =~= s);
    } else {
        assert(s =~= seq![]);
    }
}

proof fn place_keeps_ids_distinct(s: Seq<ReleaseView>, r: ReleaseView)
    requires
        distinct_ids(s),
        !has_id(s, r.id),
    ensures
        distinct_ids(place(s, r)),
        forall|id: Seq<char>| has_id(place(s, r), id) ==> has_id(s, id) || id == r.id,
    decreases s.len(),
{
    let t = place(s, r);
    if s.len() > 0 && text::text_less(s.last().key(), r.key()) {
        let head = s.drop_last();
        assert(head.push(s.last()) =~= s);
        assert(distinct_ids(head));
        id_after_push(head, s.last(), r.id);
        place_keeps_ids_distinct(head, r);
        let inner = place(head, r);
        assert(!has_id(head, s.last().id)) by {
            if has_id(head, s.last().id) {
                let k = choose|k: int| 0 <= k < head.len() && (#[trigger] head[k]).id == s.last().id;
                assert(s[k].id == s[s.len() - 1].id);
            }
        }
        assert(!has_id(inner, s.last().id));
        assert forall|i: int, j: int| 0 <= i < j < t.len() implies (#[trigger] t[i]).id != (
        #[trigger] t[j]).id by {
            assert(t[i] == inner[i]);
            if j < inner.len() {
                assert(t[j] == inner[j]);
            }
        }
        assert forall|id: Seq<char>| has_id(t, id) implies has_id(s, id) || id == r.id by {
            id_after_push(inner, s.last(), id);
            id_after_push(head, s.last(), id);
        }
    } else {
        assert forall|i: int, j: int| 0 <= i < j < t.len() implies (#[trigger] t[i]).id != (
        #[trigger] t[j]).id by {
            assert(t[i] == s[i]);
            if j < s.len() {
                assert(t[j] == s[j]);
            }
        }
        assert forall|id: Seq<char>| has_id(t, id) implies has_id(s, id) || id == r.id by {
            id_after_push(s, r, id);
        }
    }
}

proof fn newest_first_keeps_ids_distinct(s: Seq<ReleaseView>)
    requires
        distinct_ids(s),
    ensures
        distinct_ids(newest_first(s)),
        forall|id: Seq<char>| has_id(newest_first(s), id) ==> has_id(s, id),
    decreases s.len(),
{
    if s.len() > 0 {
        let head = s.drop_last();
        assert(head.push(s.last()) =~= s);
        assert(distinct_ids(head));
        newest_first_keeps_ids_distinct(head);
        assert(!has_id(head, s.last().id)) by {
            if has_id(head, s.last().id) {
                let k = choose|k: int| 0 <= k < head.len() && (#[trigger] head[k]).id == s.last().id;
                assert(s[k].id == s[s.len() - 1].id);
            }
        }
        place_keeps_ids_distinct(newest_first(head), s.last());
        assert forall|id: Seq<char>| has_id(newest_first(s), id) implies has_id(s, id) by {
            id_after_push(head, s.last(), id);
        }
    }
}

/// What is kept is in order, no more than [`MAX_RELEASES`], all of it from
/// the list, and nothing left out is newer than anything kept.
pub proof fn kept_are_the_newest(s: Seq<ReleaseView>)
    ensures
        in_order(kept(s)),
        kept(s).len() <= MAX_RELEASES,
        kept(s).to_multiset().subset_of(s.to_multiset()),
        s.len() <= MAX_RELEASES ==> kept(s).to_multiset() == s.to_multiset(),
        s.len() > MAX_RELEASES ==> kept(s).len() == MAX_RELEASES,
        forall|left_out: ReleaseView, i: int|
            s.to_multiset().sub(kept(s).to_multiset()).count(left_out) > 0 && 0 <= i < kept(s).len()
                ==> !#[trigger] text::text_less(kept(s)[i].key(), left_out.key()),
{
    newest_first_is_sorted(s);
    let sorted = newest_first(s);
    if s.len() > MAX_RELEASES {
        let top = kept(s);
        let rest = sorted.skip(MAX_RELEASES as int);
        assert(top + rest =~= sorted);
        vstd::seq_lib::lemma_multiset_commutative(top, rest);
        rest.to_multiset_ensures();
        assert(s.to_multiset().sub(top.to_multiset()) =~= rest.to_multiset());
        assert forall|left_out: ReleaseView, i: int|
            s.to_multiset().sub(top.to_multiset()).count(left_out) > 0 && 0 <= i
                < top.len() implies !#[trigger] text::text_less(
            top[i].key(),
            left_out.key(),
        ) by {
            assert(rest.contains(left_out));
            let k = choose|k: int| 0 <= k < rest.len() && rest[k] == left_out;
            assert(sorted[MAX_RELEASES + k] == left_out && sorted[i] == top[i]);
        }
    }
}

/// A list without duplicates has none after ordering and capping.
pub proof fn kept_ids_stay_distinct(s: Seq<ReleaseView>)
    requires
        distinct_ids(s),
    ensures
        distinct_ids(kept(s)),
{
    newest_first_keeps_ids_distinct(s);
    newest_first_is_sorted(s);
}

/// Of an old list and what was found, the list that is kept holds nothing
/// else. An old release wins over a found one with its id. As long as
/// [`MAX_RELEASES`] are enough, no old release and no found id is lost.
pub proof fn kept_of_old_and_found(
    old_list: Seq<ReleaseView>,
    found: Seq<ReleaseView>,
    r: ReleaseView,
)
    ensures
        ({
            let after = kept(merged(old_list, found));
            &&& after.contains(r) ==> old_list.contains(r) || found.contains(r)
            &&& after.contains(r) && has_id(old_list, r.id) ==> old_list.contains(r)
            &&& merged(old_list, found).len() <= MAX_RELEASES && old_list.contains(r)
                ==> after.contains(r)
            &&& merged(old_list, found).len() <= MAX_RELEASES && has_id(found, r.id) ==> has_id(
                after,
                r.id,
            )
        }),
{
    let all = merged(old_list, found);
    let after = kept(all);
    kept_are_the_newest(all);
    merge_unites_ids(old_list, found, r.id, r);
    merge_keeps_existing(old_list, found);
    after.to_multiset_ensures();
    all.to_multiset_ensures();
    if after.contains(r) {
        assert(after.to_multiset().count(r) > 0);
        assert(all.to_multiset().count(r) > 0);
        assert(all.contains(r));
        if has_id(old_list, r.id) {
            existing_wins(old_list, found, r);
        }
    }
    if all.len() <= MAX_RELEASES {
        if old_list.contains(r) {
            let i = choose|i: int| 0 <= i < old_list.len() && old_list[i] == r;
            assert(all.take(old_list.len() as int)[i] == all[i]);
            assert(all.contains(r));
            assert(after.to_multiset().count(r) > 0);
        }
        if has_id(found, r.id) {
            let i = choose|i: int| 0 <= i < all.len() && (#[trigger] all[i]).id == r.id;
            assert(all.contains(all[i]));
            assert(after.to_multiset().count(all[i]) > 0);
            assert(after.contains(all[i]));
            let j = choose|j: int| 0 <= j < after.len() && after[j] == all[i];
            assert(after[j].id == r.id);
        }
    }
}

} // verus!
