//! The view descriptor: the declarative page that the host draws.

use crate::query;
use crate::release;
use crate::release::Cache;
use crate::release::Release;
use crate::text;
use vstd::prelude::*;

verus! {

/// What an optional text says.
pub open spec fn opt_text(text: Option<String>) -> Option<Seq<char>> {
    match text {
        Some(text) => Some(text@),
        None => None,
    }
}

// ----- actions --------------------------------------------------------------

/// A button: it sends an event back, or opens a page.
pub struct Action {
    pub kind: &'static str,
    pub label: String,
    pub event: Option<String>,
    pub payload: Option<String>,
    pub url: Option<String>,
}

/// What an [`Action`] says.
#[verifier::ext_equal]
pub struct ActionView {
    pub kind: Seq<char>,
    pub label: Seq<char>,
    pub event: Option<Seq<char>>,
    pub payload: Option<Seq<char>>,
    pub url: Option<Seq<char>>,
}

impl View for Action {
    type V = ActionView;

    open spec fn view(&self) -> ActionView {
        ActionView {
            kind: self.kind@,
            label: self.label@,
            event: opt_text(self.event),
            payload: opt_text(self.payload),
            url: opt_text(self.url),
        }
    }
}

/// The button that sends `event` back.
pub open spec fn event_action(label: Seq<char>, event: Seq<char>) -> ActionView {
    ActionView { kind: "event"@, label, event: Some(event), payload: None, url: None }
}

/// The button that opens the page at `url`.
pub open spec fn open_url_action(label: Seq<char>, url: Seq<char>) -> ActionView {
    ActionView { kind: "open-url"@, label, event: None, payload: None, url: Some(url) }
}

impl Action {
    /// The button that sends `event` back.
    pub fn event(label: &str, event: &str) -> (action: Self)
        ensures
            action@ == event_action(label@, event@),
    {
        Action {
            kind: "event",
            label: label.to_owned(),
            event: Some(event.to_owned()),
            payload: None,
            url: None,
        }
    }

    /// The button that opens the page at `url`.
    pub fn open_url(label: &str, url: String) -> (action: Self)
        ensures
            action@ == open_url_action(label@, url@),
    {
        Action {
            kind: "open-url",
            label: label.to_owned(),
            event: None,
            payload: None,
            url: Some(url),
        }
    }
}

// ----- items, sections and the page -----------------------------------------

/// A card.
pub struct Item {
    pub id: String,
    pub title: String,
    pub subtitle: Option<String>,
    pub detail: Option<String>,
    pub image_url: Option<String>,
    pub badges: Vec<String>,
    pub actions: Vec<Action>,
}

/// What an [`Item`] says.
#[verifier::ext_equal]
pub struct ItemView {
    pub id: Seq<char>,
    pub title: Seq<char>,
    pub subtitle: Option<Seq<char>>,
    pub detail: Option<Seq<char>>,
    pub image_url: Option<Seq<char>>,
    pub badges: Seq<Seq<char>>,
    pub actions: Seq<ActionView>,
}

impl View for Item {
    type V = ItemView;

    open spec fn view(&self) -> ItemView {
        ItemView {
            id: self.id@,
            title: self.title@,
            subtitle: opt_text(self.subtitle),
            detail: opt_text(self.detail),
            image_url: opt_text(self.image_url),
            badges: self.badges@.map_values(|badge: String| badge@),
            actions: self.actions@.map_values(|action: Action| action@),
        }
    }
}

/// A titled group of cards.
pub struct Section {
    pub title: Option<String>,
    pub items: Vec<Item>,
}

/// What a [`Section`] says.
#[verifier::ext_equal]
pub struct SectionView {
    pub title: Option<Seq<char>>,
    pub items: Seq<ItemView>,
}

impl View for Section {
    type V = SectionView;

    open spec fn view(&self) -> SectionView {
        SectionView {
            title: opt_text(self.title),
            items: self.items@.map_values(|item: Item| item@),
        }
    }
}

/// The page.
pub struct Descriptor {
    pub schema_version: u32,
    pub title: String,
    pub subtitle: Option<String>,
    pub status: Option<String>,
    pub actions: Vec<Action>,
    pub sections: Vec<Section>,
    pub empty_title: Option<String>,
    pub empty_hint: Option<String>,
}

/// What a [`Descriptor`] says.
#[verifier::ext_equal]
pub struct DescriptorView {
    pub schema_version: int,
    pub title: Seq<char>,
    pub subtitle: Option<Seq<char>>,
    pub status: Option<Seq<char>>,
    pub actions: Seq<ActionView>,
    pub sections: Seq<SectionView>,
    pub empty_title: Option<Seq<char>>,
    pub empty_hint: Option<Seq<char>>,
}

impl View for Descriptor {
    type V = DescriptorView;

    open spec fn view(&self) -> DescriptorView {
        DescriptorView {
            schema_version: self.schema_version as int,
            title: self.title@,
            subtitle: opt_text(self.subtitle),
            status: opt_text(self.status),
            actions: self.actions@.map_values(|action: Action| action@),
            sections: self.sections@.map_values(|section: Section| section@),
            empty_title: opt_text(self.empty_title),
            empty_hint: opt_text(self.empty_hint),
        }
    }
}

// ----- what the page shows --------------------------------------------------

/// No batch was completed yet, and none is under way.
pub open spec fn never_scanned(cache: release::CacheView) -> bool {
    cache.updated_at == 0 && cache.next_index == 0
}

/// The buttons: a first scan, or going on and starting over, or starting over.
pub open spec fn page_actions(cache: release::CacheView) -> Seq<ActionView> {
    if never_scanned(cache) {
        seq![event_action("Rechercher les nouveautés"@, "scan"@)]
    } else if cache.next_index < cache.total {
        seq![
            event_action(
                "Continuer ("@ + text::decimal((cache.total - cache.next_index) as nat)
                    + " restants)"@,
                "scan"@,
            ),
            event_action("Tout rescanner"@, "rescan"@),
        ]
    } else {
        seq![event_action("Rescanner"@, "rescan"@)]
    }
}

/// How many releases there are, and how far the scan has come.
pub open spec fn page_subtitle(cache: release::CacheView) -> Seq<char> {
    if cache.total > 0 {
        let scanned = if cache.next_index < cache.total {
            cache.next_index
        } else {
            cache.total
        };
        text::decimal(cache.releases.len()) + " nouveauté(s) · "@ + text::decimal(scanned) + "/"@
            + text::decimal(cache.total) + " artistes"@
    } else {
        "Découvrez les dernières sorties de vos artistes"@
    }
}

/// The card of a release: its cover, title, artist, date and type, with a
/// link to its MusicBrainz page.
pub open spec fn card(r: release::ReleaseView) -> ItemView {
    ItemView {
        id: r.id,
        title: r.title,
        subtitle: Some(r.artist),
        detail: Some(r.date),
        image_url: Some(query::cover_address(r.id)),
        badges: if r.primary_type.len() == 0 {
            seq![]
        } else {
            seq![r.primary_type]
        },
        actions: seq![open_url_action("MusicBrainz"@, query::page_address(r.id))],
    }
}

/// The cards of a list of releases, in its order.
pub open spec fn cards(releases: Seq<release::ReleaseView>) -> Seq<ItemView> {
    releases.map_values(|r: release::ReleaseView| card(r))
}

/// The page for what is remembered.
pub open spec fn page(cache: release::CacheView, status: Seq<char>) -> DescriptorView {
    DescriptorView {
        schema_version: 1,
        title: "Release Radar"@,
        subtitle: Some(page_subtitle(cache)),
        status: Some(status),
        actions: page_actions(cache),
        sections: if cache.releases.len() == 0 {
            seq![]
        } else {
            seq![
                SectionView { title: Some("Sorties récentes"@), items: cards(cache.releases) },
            ]
        },
        empty_title: if cache.releases.len() > 0 {
            None
        } else if never_scanned(cache) {
            Some("Bienvenue dans Release Radar"@)
        } else {
            Some("Aucune nouveauté"@)
        },
        empty_hint: if cache.releases.len() > 0 {
            None
        } else if never_scanned(cache) {
            Some(
                "Lancez une recherche pour découvrir les sorties récentes de vos artistes suivis."@,
            )
        } else {
            Some("Aucune sortie récente trouvée pour vos artistes sur MusicBrainz."@)
        },
    }
}

fn page_buttons(cache: &Cache) -> (actions: Vec<Action>)
    ensures
        actions@.map_values(|action: Action| action@) == page_actions(cache@),
{
    let mut actions: Vec<Action> = Vec::new();
    if cache.updated_at == 0 && cache.next_index == 0 {
        actions.push(Action::event("Rechercher les nouveautés", "scan"));
    } else if cache.next_index < cache.total {
        let mut label = "Continuer (".to_owned();
        text::push_decimal(&mut label, cache.total - cache.next_index);
        label.append(" restants)");
        actions.push(Action::event(label.as_str(), "scan"));
        actions.push(Action::event("Tout rescanner", "rescan"));
    } else {
        actions.push(Action::event("Rescanner", "rescan"));
    }
    assert(actions@.map_values(|action: Action| action@) =~= page_actions(cache@));
    actions
}

fn subtitle_line(cache: &Cache) -> (line: String)
    ensures
        line@ == page_subtitle(cache@),
{
    if cache.total > 0 {
        let scanned: usize = if cache.next_index < cache.total {
            cache.next_index
        } else {
            cache.total
        };
        let mut line = String::new();
        text::push_decimal(&mut line, cache.releases.len());
        line.append(" nouveauté(s) · ");
        text::push_decimal(&mut line, scanned);
        line.append("/");
        text::push_decimal(&mut line, cache.total);
        line.append(" artistes");
        assert(line@ =~= page_subtitle(cache@));
        line
    } else {
        "Découvrez les dernières sorties de vos artistes".to_owned()
    }
}

fn release_card(r: &Release) -> (item: Item)
    ensures
        item@ == card(r@),
{
    let mut badges: Vec<String> = Vec::new();
    if !r.primary_type.as_str().is_empty() {
        badges.push(r.primary_type.clone());
    }
    let mut actions: Vec<Action> = Vec::new();
    actions.push(Action::open_url("MusicBrainz", query::mb_rg_url(r.id.as_str())));
    let item = Item {
        id: r.id.clone(),
        title: r.title.clone(),
        subtitle: Some(r.artist.clone()),
        detail: Some(r.date.clone()),
        image_url: Some(query::caa_url(r.id.as_str())),
        badges,
        actions,
    };
    assert(item@ =~= card(r@));
    item
}

fn release_cards(releases: &Vec<Release>) -> (items: Vec<Item>)
    ensures
        items@.map_values(|item: Item| item@) == cards(release::views(releases@)),
{
    let mut items: Vec<Item> = Vec::new();
    let mut i: usize = 0;
    while i < releases.len()
        invariant
            i <= releases@.len(),
            items@.len() == i,
            forall|j: int| 0 <= j < i ==> (#[trigger] items@[j])@ == card(releases@[j]@),
        decreases releases@.len() - i,
    {
        items.push(release_card(&releases[i]));
        i = i + 1;
    }
    assert(items@.map_values(|item: Item| item@) =~= cards(release::views(releases@)));
    items
}

/// The page for what is remembered: buttons, progress, and a card for each
/// release, or a word of welcome or regret where there is none.
pub fn render_view(cache: &Cache, status: &str) -> (descriptor: Descriptor)
    ensures
        descriptor@ == page(cache@, status@),
{
    let never_scanned = cache.updated_at == 0 && cache.next_index == 0;
    let actions = page_buttons(cache);
    let items = release_cards(&cache.releases);
    let subtitle = Some(subtitle_line(cache));
    let (empty_title, empty_hint) = if items.len() > 0 {
        (None, None)
    } else if never_scanned {
        (
            Some("Bienvenue dans Release Radar".to_owned()),
            Some(
                "Lancez une recherche pour découvrir les sorties récentes de vos artistes suivis.".to_owned(),
            ),
        )
    } else {
        (
            Some("Aucune nouveauté".to_owned()),
            Some("Aucune sortie récente trouvée pour vos artistes sur MusicBrainz.".to_owned()),
        )
    };
    assert(items@.map_values(|item: Item| item@).len() == items@.len());
    let mut sections: Vec<Section> = Vec::new();
    if items.len() > 0 {
        sections.push(Section { title: Some("Sorties récentes".to_owned()), items });
    }
    let descriptor = Descriptor {
        schema_version: 1,
        title: "Release Radar".to_owned(),
        subtitle,
        status: Some(status.to_owned()),
        actions,
        sections,
        empty_title,
        empty_hint,
    };
    assert(descriptor@.sections =~= page(cache@, status@).sections);
    assert(descriptor@ =~= page(cache@, status@));
    descriptor
}

/// The text of a page that was encoded, or of a minimal well-formed page
/// where encoding failed.
pub fn page_json(encoded: Option<String>) -> (json: String)
    ensures
        json@ == match encoded {
            Some(encoded) => encoded@,
            None =>
                "{\"schemaVersion\":1,\"title\":\"Release Radar\",\"status\":\"error\",\"emptyTitle\":\"Erreur\"}"@,
        },
{
    match encoded {
        Some(json) => json,
        None =>
            "{\"schemaVersion\":1,\"title\":\"Release Radar\",\"status\":\"error\",\"emptyTitle\":\"Erreur\"}".to_owned(),
    }
}

/// A page shows a card for each release in the order of the list, or a title
/// and a hint where there is none, never both.
pub proof fn page_shows_cards_or_a_hint(cache: release::CacheView, status: Seq<char>)
    ensures
        ({
            let p = page(cache, status);
            if cache.releases.len() > 0 {
                &&& p.sections.len() == 1
                &&& p.sections[0].items.len() == cache.releases.len()
                &&& forall|i: int|
                    0 <= i < cache.releases.len() ==> #[trigger] p.sections[0].items[i] == card(
                        cache.releases[i],
                    )
                &&& p.empty_title is None
                &&& p.empty_hint is None
            } else {
                &&& p.sections.len() == 0
                &&& p.empty_title is Some
                &&& p.empty_hint is Some
            }
        }),
{
}

/// Going on is offered exactly as long as it is owed: before the first scan,
/// and while artists are left. Starting over is offered after it.
pub proof fn page_offers_what_is_left(cache: release::CacheView)
    ensures
        (exists|i: int|
            0 <= i < page_actions(cache).len() && (#[trigger] page_actions(cache)[i]).event == Some(
                "scan"@,
            )) <==> never_scanned(cache) || cache.next_index < cache.total,
        (exists|i: int|
            0 <= i < page_actions(cache).len() && (#[trigger] page_actions(cache)[i]).event == Some(
                "rescan"@,
            )) <==> !never_scanned(cache),
{
    reveal_strlit("scan");
    reveal_strlit("rescan");
    assert("scan"@.len() != "rescan"@.len());
    let actions = page_actions(cache);
    if never_scanned(cache) {
        assert(actions[0].event == Some("scan"@));
    } else if cache.next_index < cache.total {
        assert(actions[0].event == Some("scan"@));
        assert(actions[1].event == Some("rescan"@));
    } else {
        assert(actions[0].event == Some("rescan"@));
    }
}

} // verus!
