//! What pages promise, stated field by field over what is remembered.

use crate::descriptor;
use crate::descriptor::{Action, Descriptor, Item, Section};
use crate::json;
use crate::json::{Json, JsonView};
use crate::release;
use crate::text;
use vstd::prelude::*;

verus! {

// ----- cards ----------------------------------------------------------------

/// The page shows one group of cards, one card for each release, in the order
/// of the list. Each card has the whole id, title, artist and date of its
/// release, the type as its only badge unless it is empty, the cover under
/// the whole id, and one button, which opens the page under the whole id.
pub proof fn each_release_has_its_card(cache: release::CacheView, status: Seq<char>, i: int)
    requires
        0 <= i < cache.releases.len(),
    ensures
        ({
            let page = descriptor::page(cache, status);
            let r = cache.releases[i];
            let card = page.sections[0].items[i];
            &&& page.sections.len() == 1
            &&& page.sections[0].title == Some("Sorties récentes"@)
            &&& page.sections[0].items.len() == cache.releases.len()
            &&& card.id == r.id
            &&& card.title == r.title
            &&& card.subtitle == Some(r.artist)
            &&& card.detail == Some(r.date)
            &&& card.image_url == Some(
                "https://coverartarchive.org/release-group/"@ + r.id + "/front-250"@,
            )
            &&& r.primary_type.len() == 0 ==> card.badges.len() == 0
            &&& r.primary_type.len() > 0 ==> card.badges.len() == 1 && card.badges[0]
                == r.primary_type
            &&& card.actions.len() == 1
            &&& card.actions[0].kind == "open-url"@
            &&& card.actions[0].label == "MusicBrainz"@
            &&& card.actions[0].url == Some("https://musicbrainz.org/release-group/"@ + r.id)
            &&& card.actions[0].event is None
            &&& card.actions[0].payload is None
        }),
{
}

/// Without releases the page has no cards, and says welcome before the first
/// scan and that there is nothing new after it. With releases it says neither.
pub proof fn pages_without_releases_say_so(cache: release::CacheView, status: Seq<char>)
    ensures
        ({
            let page = descriptor::page(cache, status);
            let never = cache.updated_at == 0 && cache.next_index == 0;
            &&& cache.releases.len() == 0 <==> page.sections.len() == 0
            &&& cache.releases.len() > 0 ==> page.empty_title is None && page.empty_hint is None
            &&& cache.releases.len() == 0 && never ==> {
                &&& page.empty_title == Some("Bienvenue dans Release Radar"@)
                &&& page.empty_hint == Some(
                    "Lancez une recherche pour découvrir les sorties récentes de vos artistes suivis."@,
                )
            }
            &&& cache.releases.len() == 0 && !never ==> {
                &&& page.empty_title == Some("Aucune nouveauté"@)
                &&& page.empty_hint == Some(
                    "Aucune sortie récente trouvée pour vos artistes sur MusicBrainz."@,
                )
            }
        }),
{
}

// ----- the head of the page -------------------------------------------------

/// The page has the schema version, the title and the status as it is. Its
/// subtitle counts all releases, and the artists up to the cursor out of all;
/// where no artists are known it invites.
pub proof fn pages_tell_the_progress(cache: release::CacheView, status: Seq<char>)
    ensures
        ({
            let page = descriptor::page(cache, status);
            let scanned = if cache.next_index <= cache.total {
                cache.next_index
            } else {
                cache.total
            };
            &&& page.schema_version == 1
            &&& page.title == "Release Radar"@
            &&& page.status == Some(status)
            &&& cache.total == 0 ==> page.subtitle == Some(
                "Découvrez les dernières sorties de vos artistes"@,
            )
            &&& cache.total > 0 ==> page.subtitle == Some(
                text::decimal(cache.releases.len()) + " nouveauté(s) · "@ + text::decimal(scanned)
                    + "/"@ + text::decimal(cache.total) + " artistes"@,
            )
        }),
{
}

/// Whether a button sends this event back, under this label, and does nothing
/// else.
pub open spec fn sends(
    button: descriptor::ActionView,
    label: Seq<char>,
    event: Seq<char>,
) -> bool {
    &&& button.kind == "event"@
    &&& button.label == label
    &&& button.event == Some(event)
    &&& button.payload is None
    &&& button.url is None
}

/// Before the first scan the page offers to scan. While artists are left it
/// offers to go on with them, and says how many they are, or to start over;
/// after the last it offers to start over.
pub proof fn pages_offer_the_next_scan(cache: release::CacheView, status: Seq<char>)
    ensures
        ({
            let buttons = descriptor::page(cache, status).actions;
            let never = cache.updated_at == 0 && cache.next_index == 0;
            let left = cache.total - cache.next_index;
            &&& never ==> {
                &&& buttons.len() == 1
                &&& sends(buttons[0], "Rechercher les nouveautés"@, "scan"@)
            }
            &&& !never && left > 0 ==> {
                &&& buttons.len() == 2
                &&& sends(
                    buttons[0],
                    "Continuer ("@ + text::decimal(left as nat) + " restants)"@,
                    "scan"@,
                )
                &&& sends(buttons[1], "Tout rescanner"@, "rescan"@)
            }
            &&& !never && left <= 0 ==> {
                &&& buttons.len() == 1
                &&& sends(buttons[0], "Rescanner"@, "rescan"@)
            }
        }),
{
}

/// A button that sends an event or opens a page does that and nothing else.
pub proof fn buttons_do_one_thing(label: Seq<char>, event: Seq<char>, url: Seq<char>)
    ensures
        sends(descriptor::event_action(label, event), label, event),
        ({
            let button = descriptor::open_url_action(label, url);
            &&& button.kind == "open-url"@
            &&& button.label == label
            &&& button.url == Some(url)
            &&& button.event is None
            &&& button.payload is None
        }),
{
}

// ----- pages as JSON --------------------------------------------------------

/// Whether the value is an object with exactly one member under this key, and
/// that is this value, or with none where it is `None`.
pub open spec fn says(tree: JsonView, key: Seq<char>, value: Option<JsonView>) -> bool {
    tree is Object && match value {
        Some(value) => exists|m: int| #[trigger] only_member(tree->Object_0, m, key, value),
        None => no_member(tree->Object_0, key),
    }
}

/// Whether no member has this key.
pub open spec fn no_member(members: Seq<(Seq<char>, JsonView)>, key: Seq<char>) -> bool {
    forall|m: int| 0 <= m < members.len() ==> (#[trigger] members[m]).0 != key
}

/// Whether member `m` is this key and value, and no other has the key.
pub open spec fn only_member(
    members: Seq<(Seq<char>, JsonView)>,
    m: int,
    key: Seq<char>,
    value: JsonView,
) -> bool {
    &&& 0 <= m < members.len()
    &&& members[m] == (key, value)
    &&& forall|n: int| 0 <= n < members.len() && n != m ==> (#[trigger] members[n]).0 != key
}

/// Whether `a` stands at `i` and `b` behind it at `j`.
pub open spec fn stand_at(names: Seq<Seq<char>>, i: int, j: int, a: Seq<char>, b: Seq<char>) -> bool {
    &&& 0 <= i < j < names.len()
    &&& names[i] == a
    &&& names[j] == b
}

/// Whether `a` stands before `b` among the names.
pub open spec fn stands_before(names: Seq<Seq<char>>, a: Seq<char>, b: Seq<char>) -> bool {
    exists|i: int, j: int| #[trigger] stand_at(names, i, j, a, b)
}

/// Whether the value is an object that has no keys but these, in this order.
pub open spec fn has_keys_of(tree: JsonView, names: Seq<Seq<char>>) -> bool {
    tree is Object && keys_are_of(tree->Object_0, names)
}

/// Whether the members have no keys but these, in this order.
pub open spec fn keys_are_of(
    members: Seq<(Seq<char>, JsonView)>,
    names: Seq<Seq<char>>,
) -> bool {
    &&& forall|m: int| 0 <= m < members.len() ==> names.contains((#[trigger] members[m]).0)
    &&& forall|m: int, n: int|
        0 <= m < n < members.len() ==> stands_before(
            names,
            (#[trigger] members[m]).0,
            (#[trigger] members[n]).0,
        )
}

proof fn value_is_a_member(members: Seq<(Seq<char>, JsonView)>, key: Seq<char>) -> (m: int)
    requires
        json::value_at(members, key) is Some,
    ensures
        0 <= m < members.len(),
        members[m] == (key, json::value_at(members, key)->0),
    decreases members.len(),
{
    if members.last().0 == key {
        members.len() - 1
    } else {
        value_is_a_member(members.drop_last(), key)
    }
}

proof fn field_is_said(fields: Seq<(Seq<char>, Option<JsonView>)>, i: int)
    requires
        json::distinct_keys(fields),
        0 <= i < fields.len(),
    ensures
        says(JsonView::Object(json::written(fields)), fields[i].0, fields[i].1),
{
    let members = json::written(fields);
    let key = fields[i].0;
    json::absent_fields_are_left_out(fields);
    assert(json::value_at(members, fields[i].0) == fields[i].1);
    if fields[i].1 is Some {
        let value = fields[i].1->0;
        let m = value_is_a_member(members, key);
        assert forall|n: int| 0 <= n < members.len() && n != m implies (#[trigger] members[n]).0
            != key by {
            if n < m {
                assert(members[n].0 != members[m].0);
            } else {
                assert(members[m].0 != members[n].0);
            }
        }
        assert(only_member(members, m, key, value));
        assert(only_member(JsonView::Object(members)->Object_0, m, key, value));
    } else {
        assert forall|m: int| 0 <= m < members.len() implies (#[trigger] members[m]).0 != key by {
            assert(fields.contains((members[m].0, Some(members[m].1))));
            let j = choose|j: int|
                0 <= j < fields.len() && fields[j] == (members[m].0, Some(members[m].1));
            if i < j {
                assert(fields[i].0 != fields[j].0);
            } else if j < i {
                assert(fields[j].0 != fields[i].0);
            }
        }
        assert(no_member(members, key));
    }
}

proof fn fields_are_said(fields: Seq<(Seq<char>, Option<JsonView>)>)
    requires
        json::distinct_keys(fields),
    ensures
        forall|i: int|
            0 <= i < fields.len() ==> says(
                JsonView::Object(json::written(fields)),
                (#[trigger] fields[i]).0,
                fields[i].1,
            ),
{
    assert forall|i: int| 0 <= i < fields.len() implies says(
        JsonView::Object(json::written(fields)),
        (#[trigger] fields[i]).0,
        fields[i].1,
    ) by {
        field_is_said(fields, i);
    }
}

proof fn fields_are_in_order(fields: Seq<(Seq<char>, Option<JsonView>)>, names: Seq<Seq<char>>)
    requires
        names.len() == fields.len(),
        forall|i: int| 0 <= i < fields.len() ==> (#[trigger] fields[i]).0 == names[i],
    ensures
        keys_are_of(json::written(fields), names),
    decreases fields.len(),
{
    let members = json::written(fields);
    if fields.len() > 0 {
        let head = fields.drop_last();
        let first = names.drop_last();
        let last = fields.len() - 1;
        assert forall|i: int| 0 <= i < head.len() implies (#[trigger] head[i]).0 == first[i] by {
            assert(fields[i].0 == names[i]);
        }
        fields_are_in_order(head, first);
        let before = json::written(head);
        assert(fields[last].0 == names[last]);
        assert forall|m: int| 0 <= m < members.len() implies names.contains(
            (#[trigger] members[m]).0,
        ) by {
            if m < before.len() {
                assert(members[m] == before[m]);
                assert(first.contains(before[m].0));
                let i = choose|i: int| 0 <= i < first.len() && first[i] == before[m].0;
                assert(names[i] == before[m].0);
            } else {
                assert(names[last] == members[m].0);
            }
        }
        assert forall|m: int, n: int| 0 <= m < n < members.len() implies stands_before(
            names,
            (#[trigger] members[m]).0,
            (#[trigger] members[n]).0,
        ) by {
            assert(members[m] == before[m]);
            if n < before.len() {
                assert(members[n] == before[n]);
                assert(stands_before(first, before[m].0, before[n].0));
                let (i, j) = choose|i: int, j: int|
                    stand_at(first, i, j, before[m].0, before[n].0);
                assert(stand_at(names, i, j, members[m].0, members[n].0));
            } else {
                assert(first.contains(before[m].0));
                let i = choose|i: int| 0 <= i < first.len() && first[i] == before[m].0;
                assert(stand_at(names, i, last, members[m].0, members[n].0));
            }
        }
    }
}

/// A button as JSON has its kind and label, and its event, payload and
/// address where it has them.
pub proof fn buttons_are_encoded_whole(a: descriptor::ActionView)
    ensures
        ({
            let tree = json::action_tree(a);
            &&& has_keys_of(tree, seq!["kind"@, "label"@, "event"@, "payload"@, "url"@])
            &&& says(tree, "kind"@, Some(JsonView::Text(a.kind)))
            &&& says(tree, "label"@, Some(JsonView::Text(a.label)))
            &&& says(
                tree,
                "event"@,
                match a.event {
                    Some(event) => Some(JsonView::Text(event)),
                    None => None,
                },
            )
            &&& says(
                tree,
                "payload"@,
                match a.payload {
                    Some(payload) => Some(JsonView::Text(payload)),
                    None => None,
                },
            )
            &&& says(
                tree,
                "url"@,
                match a.url {
                    Some(url) => Some(JsonView::Text(url)),
                    None => None,
                },
            )
        }),
{
    let fields = json::action_fields(a);
    json::action_keys_differ(a);
    fields_are_said(fields);
    fields_are_in_order(fields, seq!["kind"@, "label"@, "event"@, "payload"@, "url"@]);
    assert(fields[0].0 == "kind"@);
    assert(fields[1].0 == "label"@);
    assert(fields[2].0 == "event"@);
    assert(fields[3].0 == "payload"@);
    assert(fields[4].0 == "url"@);
}

/// Whether the array holds the JSON of each of these buttons, in their order.
pub open spec fn encodes_buttons(
    array: Seq<JsonView>,
    buttons: Seq<descriptor::ActionView>,
) -> bool {
    &&& array.len() == buttons.len()
    &&& forall|i: int|
        0 <= i < buttons.len() ==> #[trigger] array[i] == json::action_tree(buttons[i])
}

/// Nothing for an empty list, and else the list as an array.
pub open spec fn array_or_nothing(array: Seq<JsonView>) -> Option<JsonView> {
    if array.len() == 0 {
        None
    } else {
        Some(JsonView::Array(array))
    }
}

/// A card as JSON has its id and title, its other texts where it has them,
/// and all its badges and buttons in their order.
pub proof fn cards_are_encoded_whole(item: descriptor::ItemView) -> (arrays: (
    Seq<JsonView>,
    Seq<JsonView>,
))
    ensures
        ({
            let tree = json::item_tree(item);
            let (badges, buttons) = arrays;
            &&& has_keys_of(
                tree,
                seq![
                    "id"@,
                    "title"@,
                    "subtitle"@,
                    "detail"@,
                    "imageUrl"@,
                    "badges"@,
                    "actions"@,
                ],
            )
            &&& says(tree, "id"@, Some(JsonView::Text(item.id)))
            &&& says(tree, "title"@, Some(JsonView::Text(item.title)))
            &&& says(
                tree,
                "subtitle"@,
                match item.subtitle {
                    Some(subtitle) => Some(JsonView::Text(subtitle)),
                    None => None,
                },
            )
            &&& says(
                tree,
                "detail"@,
                match item.detail {
                    Some(detail) => Some(JsonView::Text(detail)),
                    None => None,
                },
            )
            &&& says(
                tree,
                "imageUrl"@,
                match item.image_url {
                    Some(url) => Some(JsonView::Text(url)),
                    None => None,
                },
            )
            &&& says(tree, "badges"@, array_or_nothing(badges))
            &&& badges.len() == item.badges.len()
            &&& forall|i: int|
                0 <= i < badges.len() ==> #[trigger] badges[i] == JsonView::Text(item.badges[i])
            &&& says(tree, "actions"@, array_or_nothing(buttons))
            &&& encodes_buttons(buttons, item.actions)
        }),
{
    let fields = json::item_fields(item);
    json::item_keys_differ(item);
    fields_are_said(fields);
    fields_are_in_order(
        fields,
        seq!["id"@, "title"@, "subtitle"@, "detail"@, "imageUrl"@, "badges"@, "actions"@],
    );
    assert(fields[0].0 == "id"@);
    assert(fields[1].0 == "title"@);
    assert(fields[2].0 == "subtitle"@);
    assert(fields[3].0 == "detail"@);
    assert(fields[4].0 == "imageUrl"@);
    assert(fields[5].0 == "badges"@);
    assert(fields[6].0 == "actions"@);
    (json::text_trees(item.badges), json::action_trees(item.actions))
}

/// A group of cards as JSON has its title where it has one, and all its cards
/// in their order.
pub proof fn groups_are_encoded_whole(section: descriptor::SectionView) -> (cards: Seq<JsonView>)
    ensures
        ({
            let tree = json::section_tree(section);
            &&& has_keys_of(tree, seq!["title"@, "items"@])
            &&& says(
                tree,
                "title"@,
                match section.title {
                    Some(title) => Some(JsonView::Text(title)),
                    None => None,
                },
            )
            &&& says(tree, "items"@, Some(JsonView::Array(cards)))
            &&& cards.len() == section.items.len()
            &&& forall|i: int|
                0 <= i < cards.len() ==> #[trigger] cards[i] == json::item_tree(section.items[i])
        }),
{
    let fields = json::section_fields(section);
    json::section_keys_differ(section);
    fields_are_said(fields);
    fields_are_in_order(fields, seq!["title"@, "items"@]);
    assert(fields[0].0 == "title"@);
    assert(fields[1].0 == "items"@);
    json::item_trees(section.items)
}

/// A page as JSON has its schema version and title, its other texts where it
/// has them, and all its buttons and groups of cards in their order.
pub proof fn pages_are_encoded_whole(page: descriptor::DescriptorView) -> (arrays: (
    Seq<JsonView>,
    Seq<JsonView>,
))
    ensures
        ({
            let tree = json::page_tree_of(page);
            let (buttons, groups) = arrays;
            &&& has_keys_of(
                tree,
                seq![
                    "schemaVersion"@,
                    "title"@,
                    "subtitle"@,
                    "status"@,
                    "actions"@,
                    "sections"@,
                    "emptyTitle"@,
                    "emptyHint"@,
                ],
            )
            &&& says(tree, "schemaVersion"@, Some(JsonView::Number(page.schema_version)))
            &&& says(tree, "title"@, Some(JsonView::Text(page.title)))
            &&& says(
                tree,
                "subtitle"@,
                match page.subtitle {
                    Some(subtitle) => Some(JsonView::Text(subtitle)),
                    None => None,
                },
            )
            &&& says(
                tree,
                "status"@,
                match page.status {
                    Some(status) => Some(JsonView::Text(status)),
                    None => None,
                },
            )
            &&& says(tree, "actions"@, array_or_nothing(buttons))
            &&& encodes_buttons(buttons, page.actions)
            &&& says(tree, "sections"@, array_or_nothing(groups))
            &&& groups.len() == page.sections.len()
            &&& forall|i: int|
                0 <= i < groups.len() ==> #[trigger] groups[i] == json::section_tree(
                    page.sections[i],
                )
            &&& says(
                tree,
                "emptyTitle"@,
                match page.empty_title {
                    Some(title) => Some(JsonView::Text(title)),
                    None => None,
                },
            )
            &&& says(
                tree,
                "emptyHint"@,
                match page.empty_hint {
                    Some(hint) => Some(JsonView::Text(hint)),
                    None => None,
                },
            )
        }),
{
    let fields = json::page_fields(page);
    json::page_keys_differ(page);
    fields_are_said(fields);
    fields_are_in_order(
        fields,
        seq![
            "schemaVersion"@,
            "title"@,
            "subtitle"@,
            "status"@,
            "actions"@,
            "sections"@,
            "emptyTitle"@,
            "emptyHint"@,
        ],
    );
    assert(fields[0].0 == "schemaVersion"@);
    assert(fields[1].0 == "title"@);
    assert(fields[2].0 == "subtitle"@);
    assert(fields[3].0 == "status"@);
    assert(fields[4].0 == "actions"@);
    assert(fields[5].0 == "sections"@);
    assert(fields[6].0 == "emptyTitle"@);
    assert(fields[7].0 == "emptyHint"@);
    (json::action_trees(page.actions), json::section_trees(page.sections))
}

/// What reaches the screen: the JSON of the page has one group of cards with
/// as many cards as there are releases, and the card at `i` says the id,
/// title, artist, date, cover and link of the release at `i`.
pub proof fn each_release_reaches_the_screen(
    cache: release::CacheView,
    status: Seq<char>,
    i: int,
) -> (found: (JsonView, Seq<JsonView>, JsonView))
    requires
        0 <= i < cache.releases.len(),
    ensures
        ({
            let (group, cards, button) = found;
            let r = cache.releases[i];
            let tree = json::page_tree_of(descriptor::page(cache, status));
            &&& says(tree, "sections"@, Some(JsonView::Array(seq![group])))
            &&& says(group, "items"@, Some(JsonView::Array(cards)))
            &&& cards.len() == cache.releases.len()
            &&& says(cards[i], "id"@, Some(JsonView::Text(r.id)))
            &&& says(cards[i], "title"@, Some(JsonView::Text(r.title)))
            &&& says(cards[i], "subtitle"@, Some(JsonView::Text(r.artist)))
            &&& says(cards[i], "detail"@, Some(JsonView::Text(r.date)))
            &&& says(
                cards[i],
                "imageUrl"@,
                Some(
                    JsonView::Text(
                        "https://coverartarchive.org/release-group/"@ + r.id + "/front-250"@,
                    ),
                ),
            )
            &&& says(
                cards[i],
                "badges"@,
                if r.primary_type.len() == 0 {
                    None
                } else {
                    Some(JsonView::Array(seq![JsonView::Text(r.primary_type)]))
                },
            )
            &&& says(cards[i], "actions"@, Some(JsonView::Array(seq![button])))
            &&& says(
                button,
                "url"@,
                Some(JsonView::Text("https://musicbrainz.org/release-group/"@ + r.id)),
            )
        }),
{
    let page = descriptor::page(cache, status);
    let (buttons, groups) = pages_are_encoded_whole(page);
    let group = groups[0];
    assert(groups =~= seq![group]);
    let cards = groups_are_encoded_whole(page.sections[0]);
    each_release_has_its_card(cache, status, i);
    let card = page.sections[0].items[i];
    assert(cards[i] == json::item_tree(card));
    let (badges, links) = cards_are_encoded_whole(card);
    let button = links[0];
    assert(links =~= seq![button]);
    if cache.releases[i].primary_type.len() > 0 {
        assert(badges =~= seq![JsonView::Text(cache.releases[i].primary_type)]);
    }
    assert(button == json::action_tree(card.actions[0]));
    buttons_are_encoded_whole(card.actions[0]);
    (group, cards, button)
}

// ----- what pages and values say --------------------------------------------

/// Whether a view of an optional text says what the text says.
pub open spec fn same_text(text: Option<String>, said: Option<Seq<char>>) -> bool {
    match text {
        Some(text) => said == Some(text@),
        None => said is None,
    }
}

/// An optional text says what it holds, if anything.
pub proof fn texts_say_what_they_hold(text: Option<String>)
    ensures
        same_text(text, descriptor::opt_text(text)),
{
}

/// A page says what its fields say, and each of its buttons and groups.
pub proof fn pages_say_what_they_hold(page: Descriptor, section: Section)
    ensures
        page@.schema_version == page.schema_version,
        page@.title == page.title@,
        same_text(page.subtitle, page@.subtitle),
        same_text(page.status, page@.status),
        same_text(page.empty_title, page@.empty_title),
        same_text(page.empty_hint, page@.empty_hint),
        page@.actions.len() == page.actions@.len(),
        forall|i: int|
            0 <= i < page.actions@.len() ==> #[trigger] page@.actions[i] == page.actions@[i]@,
        page@.sections.len() == page.sections@.len(),
        forall|i: int|
            0 <= i < page.sections@.len() ==> #[trigger] page@.sections[i] == page.sections@[i]@,
        same_text(section.title, section@.title),
        section@.items.len() == section.items@.len(),
        forall|i: int|
            0 <= i < section.items@.len() ==> #[trigger] section@.items[i] == section.items@[i]@,
{
}

/// A card says what its fields say, and each of its badges and buttons; a
/// button says what its fields say.
pub proof fn cards_say_what_they_hold(item: Item, action: Action)
    ensures
        item@.id == item.id@,
        item@.title == item.title@,
        same_text(item.subtitle, item@.subtitle),
        same_text(item.detail, item@.detail),
        same_text(item.image_url, item@.image_url),
        item@.badges.len() == item.badges@.len(),
        forall|i: int|
            0 <= i < item.badges@.len() ==> #[trigger] item@.badges[i] == item.badges@[i]@,
        item@.actions.len() == item.actions@.len(),
        forall|i: int|
            0 <= i < item.actions@.len() ==> #[trigger] item@.actions[i] == item.actions@[i]@,
        action@.kind == action.kind@,
        action@.label == action.label@,
        same_text(action.event, action@.event),
        same_text(action.payload, action@.payload),
        same_text(action.url, action@.url),
{
}

/// A JSON value says what it holds, at every depth.
pub proof fn values_say_what_they_hold(
    n: u64,
    text: String,
    items: Vec<Json>,
    members: Vec<(String, Json)>,
)
    ensures
        Json::Null@ is Null,
        Json::Number(n)@ == JsonView::Number(n as int),
        Json::Text(text)@ == JsonView::Text(text@),
        Json::Array(items)@ matches JsonView::Array(said) && said.len() == items@.len() && forall|
            i: int,
        |
            0 <= i < said.len() ==> #[trigger] said[i] == items@[i]@,
        Json::Object(members)@ matches JsonView::Object(said) && said.len() == members@.len()
            && forall|i: int|
            0 <= i < said.len() ==> #[trigger] said[i] == (members@[i].0@, members@[i].1@),
{
}

} // verus!
