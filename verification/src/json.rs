//! The JSON form of the page.
//!
//! The host takes a `null` for a malformed array and rejects the page. So
//! optional texts and arrays are left out where they are absent or empty.

use crate::descriptor;
use crate::descriptor::{Action, Descriptor, Item, Section};
use crate::release;
use vstd::prelude::*;

verus! {

// ----- JSON values ----------------------------------------------------------

/// A JSON value.
pub enum Json {
    Null,
    Number(u64),
    Text(String),
    Array(Vec<Json>),
    /// The members, in the order in which they are written.
    Object(Vec<(String, Json)>),
}

/// What a [`Json`] value says.
pub enum JsonView {
    Null,
    Number(int),
    Text(Seq<char>),
    Array(Seq<JsonView>),
    Object(Seq<(Seq<char>, JsonView)>),
}

impl Json {
    /// What the value says.
    pub open spec fn tree(self) -> JsonView
        decreases self,
    {
        match self {
            Json::Null => JsonView::Null,
            Json::Number(n) => JsonView::Number(n as int),
            Json::Text(text) => JsonView::Text(text@),
            Json::Array(items) => JsonView::Array(
                Seq::new(
                    items@.len(),
                    |i: int|
                        if 0 <= i < items@.len() {
                            items@[i].tree()
                        } else {
                            JsonView::Null
                        },
                ),
            ),
            Json::Object(members) => JsonView::Object(
                Seq::new(
                    members@.len(),
                    |i: int|
                        if 0 <= i < members@.len() {
                            (members@[i].0@, members@[i].1.tree())
                        } else {
                            (seq![], JsonView::Null)
                        },
                ),
            ),
        }
    }
}

impl View for Json {
    type V = JsonView;

    open spec fn view(&self) -> JsonView {
        self.tree()
    }
}

/// Whether no key occurs twice.
pub open spec fn distinct_keys<T>(members: Seq<(Seq<char>, T)>) -> bool {
    forall|i: int, j: int|
        0 <= i < j < members.len() ==> #[trigger] members[i].0 != #[trigger] members[j].0
}

/// Whether the value holds, at any depth, no `null`, no empty array, and no
/// object with a key that occurs twice.
pub open spec fn tidy(value: JsonView) -> bool
    decreases value,
{
    match value {
        JsonView::Null => false,
        JsonView::Number(_) => true,
        JsonView::Text(_) => true,
        JsonView::Array(items) => {
            &&& items.len() > 0
            &&& forall|i: int| 0 <= i < items.len() ==> tidy(#[trigger] items[i])
        },
        JsonView::Object(members) => {
            &&& distinct_keys(members)
            &&& forall|i: int| 0 <= i < members.len() ==> tidy((#[trigger] members[i]).1)
        },
    }
}

/// The value under a key, if there is one.
pub open spec fn value_at(members: Seq<(Seq<char>, JsonView)>, key: Seq<char>) -> Option<JsonView>
    decreases members.len(),
{
    if members.len() == 0 {
        None
    } else if members.last().0 == key {
        Some(members.last().1)
    } else {
        value_at(members.drop_last(), key)
    }
}

impl JsonView {
    /// The member of an object under this key, if there is one.
    pub open spec fn member(self, key: Seq<char>) -> Option<JsonView> {
        match self {
            JsonView::Object(members) => value_at(members, key),
            _ => None,
        }
    }
}

/// What each value of a list says.
spec fn trees(items: Seq<Json>) -> Seq<JsonView> {
    items.map_values(|item: Json| item@)
}

proof fn array_says(items: Vec<Json>)
    ensures
        Json::Array(items)@ == JsonView::Array(trees(items@)),
{
    assert(Json::Array(items).tree()->Array_0 =~= trees(items@));
}

/// What each member of a list says.
spec fn member_views(members: Seq<(String, Json)>) -> Seq<(Seq<char>, JsonView)> {
    members.map_values(|member: (String, Json)| (member.0@, member.1@))
}

proof fn object_says(members: Vec<(String, Json)>)
    ensures
        Json::Object(members)@ == JsonView::Object(member_views(members@)),
{
    assert(Json::Object(members).tree()->Object_0 =~= member_views(members@));
}

// ----- what is left out -----------------------------------------------------

/// The members of the object that has these fields, without those that are
/// absent.
pub open spec fn written(fields: Seq<(Seq<char>, Option<JsonView>)>) -> Seq<(Seq<char>, JsonView)>
    decreases fields.len(),
{
    if fields.len() == 0 {
        seq![]
    } else {
        let before = written(fields.drop_last());
        match fields.last().1 {
            Some(value) => before.push((fields.last().0, value)),
            None => before,
        }
    }
}

/// A text, if there is one.
pub open spec fn text_if_any(text: Option<Seq<char>>) -> Option<JsonView> {
    match text {
        Some(text) => Some(JsonView::Text(text)),
        None => None,
    }
}

/// An array, unless it is empty.
pub open spec fn array_if_any(items: Seq<JsonView>) -> Option<JsonView> {
    if items.len() == 0 {
        None
    } else {
        Some(JsonView::Array(items))
    }
}

/// Of fields with different keys, each that is there is written under its
/// key, each that is absent is left out, and nothing else is written.
pub proof fn absent_fields_are_left_out(fields: Seq<(Seq<char>, Option<JsonView>)>)
    requires
        distinct_keys(fields),
    ensures
        distinct_keys(written(fields)),
        forall|i: int|
            0 <= i < fields.len() ==> value_at(written(fields), (#[trigger] fields[i]).0)
                == fields[i].1,
        forall|m: int|
            0 <= m < written(fields).len() ==> fields.contains(
                ((#[trigger] written(fields)[m]).0, Some(written(fields)[m].1)),
            ),
    decreases fields.len(),
{
    let members = written(fields);
    if fields.len() > 0 {
        let head = fields.drop_last();
        let before = written(head);
        let (key, value) = fields.last();
        assert forall|i: int, j: int| 0 <= i < j < head.len() implies #[trigger] head[i].0
            != #[trigger] head[j].0 by {
            assert(head[i] == fields[i] && head[j] == fields[j]);
        }
        absent_fields_are_left_out(head);
        assert forall|m: int| 0 <= m < before.len() implies (#[trigger] before[m]).0 != key
            && fields.contains((before[m].0, Some(before[m].1))) by {
            let i = choose|i: int|
                0 <= i < head.len() && head[i] == (before[m].0, Some(before[m].1));
            assert(fields[i] == head[i]);
            assert(fields[i].0 != fields[fields.len() - 1].0);
        }
        keys_that_are_not_there(before, key);
        if value is Some {
            assert(members.drop_last() =~= before);
            assert(fields[fields.len() - 1] == (key, Some(value->0)));
        }
        assert forall|i: int| 0 <= i < fields.len() implies value_at(
            members,
            (#[trigger] fields[i]).0,
        ) == fields[i].1 by {
            if i < head.len() {
                assert(fields[i] == head[i]);
                assert(fields[i].0 != fields[fields.len() - 1].0);
            }
        }
    }
}

proof fn keys_that_are_not_there(members: Seq<(Seq<char>, JsonView)>, key: Seq<char>)
    requires
        forall|m: int| 0 <= m < members.len() ==> (#[trigger] members[m]).0 != key,
    ensures
        value_at(members, key) is None,
    decreases members.len(),
{
    if members.len() > 0 {
        let head = members.drop_last();
        assert forall|m: int| 0 <= m < head.len() implies (#[trigger] head[m]).0 != key by {
            assert(head[m] == members[m]);
        }
        keys_that_are_not_there(head, key);
    }
}

/// An object is tidy where its fields have different keys and each field that
/// is there is tidy.
proof fn tidy_fields_make_a_tidy_object(fields: Seq<(Seq<char>, Option<JsonView>)>)
    requires
        distinct_keys(fields),
        forall|i: int|
            0 <= i < fields.len() ==> ((#[trigger] fields[i]).1 matches Some(value) ==> tidy(
                value,
            )),
    ensures
        tidy(JsonView::Object(written(fields))),
{
    absent_fields_are_left_out(fields);
    let members = written(fields);
    assert forall|m: int| 0 <= m < members.len() implies tidy((#[trigger] members[m]).1) by {
        let i = choose|i: int|
            0 <= i < fields.len() && fields[i] == (members[m].0, Some(members[m].1));
        assert(fields[i].1 == Some(members[m].1));
    }
}

// ----- the page as JSON -----------------------------------------------------

/// The fields of a button, with the names by which the host knows them.
pub open spec fn action_fields(a: descriptor::ActionView) -> Seq<(Seq<char>, Option<JsonView>)> {
    seq![
        ("kind"@, Some(JsonView::Text(a.kind))),
        ("label"@, Some(JsonView::Text(a.label))),
        ("event"@, text_if_any(a.event)),
        ("payload"@, text_if_any(a.payload)),
        ("url"@, text_if_any(a.url)),
    ]
}

/// A button as JSON.
pub open spec fn action_tree(a: descriptor::ActionView) -> JsonView {
    JsonView::Object(written(action_fields(a)))
}

/// Buttons as JSON, in their order.
pub open spec fn action_trees(actions: Seq<descriptor::ActionView>) -> Seq<JsonView> {
    actions.map_values(|a: descriptor::ActionView| action_tree(a))
}

/// Texts as JSON, in their order.
pub open spec fn text_trees(texts: Seq<Seq<char>>) -> Seq<JsonView> {
    texts.map_values(|text: Seq<char>| JsonView::Text(text))
}

/// The fields of a card, with the names by which the host knows them.
pub open spec fn item_fields(item: descriptor::ItemView) -> Seq<(Seq<char>, Option<JsonView>)> {
    seq![
        ("id"@, Some(JsonView::Text(item.id))),
        ("title"@, Some(JsonView::Text(item.title))),
        ("subtitle"@, text_if_any(item.subtitle)),
        ("detail"@, text_if_any(item.detail)),
        ("imageUrl"@, text_if_any(item.image_url)),
        ("badges"@, array_if_any(text_trees(item.badges))),
        ("actions"@, array_if_any(action_trees(item.actions))),
    ]
}

/// A card as JSON.
pub open spec fn item_tree(item: descriptor::ItemView) -> JsonView {
    JsonView::Object(written(item_fields(item)))
}

/// Cards as JSON, in their order.
pub open spec fn item_trees(items: Seq<descriptor::ItemView>) -> Seq<JsonView> {
    items.map_values(|item: descriptor::ItemView| item_tree(item))
}

/// The fields of a group of cards, with the names by which the host knows
/// them. The cards are written even where there is none.
pub open spec fn section_fields(section: descriptor::SectionView) -> Seq<
    (Seq<char>, Option<JsonView>),
> {
    seq![
        ("title"@, text_if_any(section.title)),
        ("items"@, Some(JsonView::Array(item_trees(section.items)))),
    ]
}

/// A group of cards as JSON.
pub open spec fn section_tree(section: descriptor::SectionView) -> JsonView {
    JsonView::Object(written(section_fields(section)))
}

/// Groups of cards as JSON, in their order.
pub open spec fn section_trees(sections: Seq<descriptor::SectionView>) -> Seq<JsonView> {
    sections.map_values(|section: descriptor::SectionView| section_tree(section))
}

/// The fields of a page, with the names by which the host knows them.
pub open spec fn page_fields(page: descriptor::DescriptorView) -> Seq<
    (Seq<char>, Option<JsonView>),
> {
    seq![
        ("schemaVersion"@, Some(JsonView::Number(page.schema_version))),
        ("title"@, Some(JsonView::Text(page.title))),
        ("subtitle"@, text_if_any(page.subtitle)),
        ("status"@, text_if_any(page.status)),
        ("actions"@, array_if_any(action_trees(page.actions))),
        ("sections"@, array_if_any(section_trees(page.sections))),
        ("emptyTitle"@, text_if_any(page.empty_title)),
        ("emptyHint"@, text_if_any(page.empty_hint)),
    ]
}

/// A page as JSON.
pub open spec fn page_tree_of(page: descriptor::DescriptorView) -> JsonView {
    JsonView::Object(written(page_fields(page)))
}

/// The members of an object, as its fields are put in.
struct Members {
    list: Vec<(String, Json)>,
    fields: Ghost<Seq<(Seq<char>, Option<JsonView>)>>,
}

impl Members {
    spec fn well_formed(self) -> bool {
        member_views(self.list@) == written(self.fields@)
    }

    fn new() -> (members: Members)
        ensures
            members.well_formed(),
            members.fields@.len() == 0,
    {
        let list: Vec<(String, Json)> = Vec::new();
        assert(member_views(list@) =~= seq![]);
        Members { list, fields: Ghost(Seq::empty()) }
    }

    fn put(&mut self, key: &str, value: Option<Json>)
        requires
            old(self).well_formed(),
        ensures
            final(self).well_formed(),
            final(self).fields@ == old(self).fields@.push((key@, opt_tree(value))),
    {
        let ghost before = self.fields@;
        let ghost said = opt_tree(value);
        match value {
            Some(value) => {
                self.list.push((key.to_owned(), value));
            },
            None => {},
        }
        self.fields = Ghost(before.push((key@, said)));
        assert(self.fields@.drop_last() =~= before);
        assert(member_views(self.list@) =~= written(self.fields@));
    }

    fn object(self) -> (json: Json)
        requires
            self.well_formed(),
        ensures
            json@ == JsonView::Object(written(self.fields@)),
    {
        proof {
            object_says(self.list);
        }
        Json::Object(self.list)
    }
}

/// What an optional value says.
spec fn opt_tree(value: Option<Json>) -> Option<JsonView> {
    match value {
        Some(value) => Some(value@),
        None => None,
    }
}

fn text_json(text: &str) -> (json: Json)
    ensures
        json@ == JsonView::Text(text@),
{
    Json::Text(text.to_owned())
}

fn text_json_if_any(text: &Option<String>) -> (json: Option<Json>)
    ensures
        opt_tree(json) == text_if_any(descriptor::opt_text(*text)),
{
    match text {
        Some(text) => Some(text_json(text.as_str())),
        None => None,
    }
}

fn array_json_if_any(items: Vec<Json>) -> (json: Option<Json>)
    ensures
        opt_tree(json) == array_if_any(trees(items@)),
{
    if items.len() == 0 {
        None
    } else {
        proof {
            array_says(items);
        }
        Some(Json::Array(items))
    }
}

fn action_json(action: &Action) -> (json: Json)
    ensures
        json@ == action_tree(action@),
{
    let mut members = Members::new();
    members.put("kind", Some(text_json(action.kind)));
    members.put("label", Some(text_json(action.label.as_str())));
    members.put("event", text_json_if_any(&action.event));
    members.put("payload", text_json_if_any(&action.payload));
    members.put("url", text_json_if_any(&action.url));
    assert(members.fields@ =~= action_fields(action@));
    members.object()
}

fn action_jsons(actions: &Vec<Action>) -> (list: Vec<Json>)
    ensures
        trees(list@) == action_trees(actions@.map_values(|action: Action| action@)),
{
    let mut list: Vec<Json> = Vec::new();
    let mut i: usize = 0;
    while i < actions.len()
        invariant
            i <= actions@.len(),
            list@.len() == i,
            forall|j: int| 0 <= j < i ==> (#[trigger] list@[j])@ == action_tree(actions@[j]@),
        decreases actions@.len() - i,
    {
        list.push(action_json(&actions[i]));
        i = i + 1;
    }
    assert(trees(list@) =~= action_trees(actions@.map_values(|action: Action| action@)));
    list
}

fn text_jsons(texts: &Vec<String>) -> (list: Vec<Json>)
    ensures
        trees(list@) == text_trees(texts@.map_values(|text: String| text@)),
{
    let mut list: Vec<Json> = Vec::new();
    let mut i: usize = 0;
    while i < texts.len()
        invariant
            i <= texts@.len(),
            list@.len() == i,
            forall|j: int| 0 <= j < i ==> (#[trigger] list@[j])@ == JsonView::Text(texts@[j]@),
        decreases texts@.len() - i,
    {
        list.push(text_json(texts[i].as_str()));
        i = i + 1;
    }
    assert(trees(list@) =~= text_trees(texts@.map_values(|text: String| text@)));
    list
}

fn item_json(item: &Item) -> (json: Json)
    ensures
        json@ == item_tree(item@),
{
    let mut members = Members::new();
    members.put("id", Some(text_json(item.id.as_str())));
    members.put("title", Some(text_json(item.title.as_str())));
    members.put("subtitle", text_json_if_any(&item.subtitle));
    members.put("detail", text_json_if_any(&item.detail));
    members.put("imageUrl", text_json_if_any(&item.image_url));
    members.put("badges", array_json_if_any(text_jsons(&item.badges)));
    members.put("actions", array_json_if_any(action_jsons(&item.actions)));
    assert(item.badges@.map_values(|text: String| text@) =~= item@.badges);
    assert(item.actions@.map_values(|action: Action| action@) =~= item@.actions);
    assert(members.fields@ =~= item_fields(item@));
    members.object()
}

fn item_jsons(items: &Vec<Item>) -> (list: Vec<Json>)
    ensures
        trees(list@) == item_trees(items@.map_values(|item: Item| item@)),
{
    let mut list: Vec<Json> = Vec::new();
    let mut i: usize = 0;
    while i < items.len()
        invariant
            i <= items@.len(),
            list@.len() == i,
            forall|j: int| 0 <= j < i ==> (#[trigger] list@[j])@ == item_tree(items@[j]@),
        decreases items@.len() - i,
    {
        list.push(item_json(&items[i]));
        i = i + 1;
    }
    assert(trees(list@) =~= item_trees(items@.map_values(|item: Item| item@)));
    list
}

fn section_json(section: &Section) -> (json: Json)
    ensures
        json@ == section_tree(section@),
{
    let items = item_jsons(&section.items);
    assert(section.items@.map_values(|item: Item| item@) =~= section@.items);
    proof {
        array_says(items);
    }
    let mut members = Members::new();
    members.put("title", text_json_if_any(&section.title));
    members.put("items", Some(Json::Array(items)));
    assert(members.fields@ =~= section_fields(section@));
    members.object()
}

fn section_jsons(sections: &Vec<Section>) -> (list: Vec<Json>)
    ensures
        trees(list@) == section_trees(sections@.map_values(|section: Section| section@)),
{
    let mut list: Vec<Json> = Vec::new();
    let mut i: usize = 0;
    while i < sections.len()
        invariant
            i <= sections@.len(),
            list@.len() == i,
            forall|j: int| 0 <= j < i ==> (#[trigger] list@[j])@ == section_tree(sections@[j]@),
        decreases sections@.len() - i,
    {
        list.push(section_json(&sections[i]));
        i = i + 1;
    }
    assert(trees(list@) =~= section_trees(sections@.map_values(|section: Section| section@)));
    list
}

/// The page as JSON, with the names by which the host knows its fields, and
/// without what is absent or empty.
pub fn page_tree(page: &Descriptor) -> (json: Json)
    ensures
        json@ == page_tree_of(page@),
{
    let mut members = Members::new();
    members.put("schemaVersion", Some(Json::Number(page.schema_version as u64)));
    members.put("title", Some(text_json(page.title.as_str())));
    members.put("subtitle", text_json_if_any(&page.subtitle));
    members.put("status", text_json_if_any(&page.status));
    members.put("actions", array_json_if_any(action_jsons(&page.actions)));
    members.put("sections", array_json_if_any(section_jsons(&page.sections)));
    members.put("emptyTitle", text_json_if_any(&page.empty_title));
    members.put("emptyHint", text_json_if_any(&page.empty_hint));
    assert(page.actions@.map_values(|action: Action| action@) =~= page@.actions);
    assert(page.sections@.map_values(|section: Section| section@) =~= page@.sections);
    assert(members.fields@ =~= page_fields(page@));
    members.object()
}

// ----- what holds of pages as JSON ------------------------------------------

pub(crate) proof fn action_keys_differ(a: descriptor::ActionView)
    ensures
        distinct_keys(action_fields(a)),
{
    reveal_strlit("kind");
    assert("kind"@.len() == 4);
    reveal_strlit("label");
    assert("label"@.len() == 5);
    reveal_strlit("event");
    assert("event"@.len() == 5);
    reveal_strlit("payload");
    assert("payload"@.len() == 7);
    reveal_strlit("url");
    assert("url"@.len() == 3);
    assert("label"@[0] != "event"@[0]);
}

pub(crate) proof fn item_keys_differ(item: descriptor::ItemView)
    ensures
        distinct_keys(item_fields(item)),
{
    reveal_strlit("id");
    assert("id"@.len() == 2);
    reveal_strlit("title");
    assert("title"@.len() == 5);
    reveal_strlit("subtitle");
    assert("subtitle"@.len() == 8);
    reveal_strlit("detail");
    assert("detail"@.len() == 6);
    reveal_strlit("imageUrl");
    assert("imageUrl"@.len() == 8);
    reveal_strlit("badges");
    assert("badges"@.len() == 6);
    reveal_strlit("actions");
    assert("actions"@.len() == 7);
    assert("subtitle"@[0] != "imageUrl"@[0]);
    assert("detail"@[0] != "badges"@[0]);
}

pub(crate) proof fn section_keys_differ(section: descriptor::SectionView)
    ensures
        distinct_keys(section_fields(section)),
{
    reveal_strlit("title");
    assert("title"@.len() == 5);
    reveal_strlit("items");
    assert("items"@.len() == 5);
    assert("title"@[0] != "items"@[0]);
}

pub(crate) proof fn page_keys_differ(page: descriptor::DescriptorView)
    ensures
        distinct_keys(page_fields(page)),
{
    reveal_strlit("schemaVersion");
    assert("schemaVersion"@.len() == 13);
    reveal_strlit("title");
    assert("title"@.len() == 5);
    reveal_strlit("subtitle");
    assert("subtitle"@.len() == 8);
    reveal_strlit("status");
    assert("status"@.len() == 6);
    reveal_strlit("actions");
    assert("actions"@.len() == 7);
    reveal_strlit("sections");
    assert("sections"@.len() == 8);
    reveal_strlit("emptyTitle");
    assert("emptyTitle"@.len() == 10);
    reveal_strlit("emptyHint");
    assert("emptyHint"@.len() == 9);
    assert("subtitle"@[1] != "sections"@[1]);
}

/// What a button as JSON says under each key: what the button says, and
/// nothing where the button says nothing.
pub proof fn button_members(a: descriptor::ActionView)
    ensures
        action_tree(a).member("kind"@) == Some(JsonView::Text(a.kind)),
        action_tree(a).member("label"@) == Some(JsonView::Text(a.label)),
        action_tree(a).member("event"@) == text_if_any(a.event),
        action_tree(a).member("payload"@) == text_if_any(a.payload),
        action_tree(a).member("url"@) == text_if_any(a.url),
{
    let fields = action_fields(a);
    action_keys_differ(a);
    absent_fields_are_left_out(fields);
    assert(fields[0].0 == "kind"@);
    assert(fields[1].0 == "label"@);
    assert(fields[2].0 == "event"@);
    assert(fields[3].0 == "payload"@);
    assert(fields[4].0 == "url"@);
}

/// What a card as JSON says under each key: what the card says, and nothing
/// where the card says nothing or lists nothing.
pub proof fn card_members(item: descriptor::ItemView)
    ensures
        item_tree(item).member("id"@) == Some(JsonView::Text(item.id)),
        item_tree(item).member("title"@) == Some(JsonView::Text(item.title)),
        item_tree(item).member("subtitle"@) == text_if_any(item.subtitle),
        item_tree(item).member("detail"@) == text_if_any(item.detail),
        item_tree(item).member("imageUrl"@) == text_if_any(item.image_url),
        item_tree(item).member("badges"@) == array_if_any(text_trees(item.badges)),
        item_tree(item).member("actions"@) == array_if_any(action_trees(item.actions)),
{
    let fields = item_fields(item);
    item_keys_differ(item);
    absent_fields_are_left_out(fields);
    assert(fields[0].0 == "id"@);
    assert(fields[1].0 == "title"@);
    assert(fields[2].0 == "subtitle"@);
    assert(fields[3].0 == "detail"@);
    assert(fields[4].0 == "imageUrl"@);
    assert(fields[5].0 == "badges"@);
    assert(fields[6].0 == "actions"@);
}

/// What a group of cards as JSON says under each key: its cards, and its
/// title if it has one.
pub proof fn section_members(section: descriptor::SectionView)
    ensures
        section_tree(section).member("title"@) == text_if_any(section.title),
        section_tree(section).member("items"@) == Some(
            JsonView::Array(item_trees(section.items)),
        ),
{
    let fields = section_fields(section);
    section_keys_differ(section);
    absent_fields_are_left_out(fields);
    assert(fields[0].0 == "title"@);
    assert(fields[1].0 == "items"@);
}

/// What a page as JSON says under each key: what the page says, and nothing
/// where the page says nothing or lists nothing.
pub proof fn page_members(page: descriptor::DescriptorView)
    ensures
        page_tree_of(page).member("schemaVersion"@) == Some(JsonView::Number(page.schema_version)),
        page_tree_of(page).member("title"@) == Some(JsonView::Text(page.title)),
        page_tree_of(page).member("subtitle"@) == text_if_any(page.subtitle),
        page_tree_of(page).member("status"@) == text_if_any(page.status),
        page_tree_of(page).member("actions"@) == array_if_any(action_trees(page.actions)),
        page_tree_of(page).member("sections"@) == array_if_any(section_trees(page.sections)),
        page_tree_of(page).member("emptyTitle"@) == text_if_any(page.empty_title),
        page_tree_of(page).member("emptyHint"@) == text_if_any(page.empty_hint),
{
    let fields = page_fields(page);
    page_keys_differ(page);
    absent_fields_are_left_out(fields);
    assert(fields[0].0 == "schemaVersion"@);
    assert(fields[1].0 == "title"@);
    assert(fields[2].0 == "subtitle"@);
    assert(fields[3].0 == "status"@);
    assert(fields[4].0 == "actions"@);
    assert(fields[5].0 == "sections"@);
    assert(fields[6].0 == "emptyTitle"@);
    assert(fields[7].0 == "emptyHint"@);
}

proof fn buttons_are_tidy(actions: Seq<descriptor::ActionView>)
    ensures
        array_if_any(action_trees(actions)) matches Some(array) ==> tidy(array),
{
    assert forall|i: int| 0 <= i < action_trees(actions).len() implies tidy(
        #[trigger] action_trees(actions)[i],
    ) by {
        action_keys_differ(actions[i]);
        tidy_fields_make_a_tidy_object(action_fields(actions[i]));
    }
}

proof fn card_is_tidy(item: descriptor::ItemView)
    ensures
        tidy(item_tree(item)),
{
    item_keys_differ(item);
    buttons_are_tidy(item.actions);
    let badges = text_trees(item.badges);
    assert forall|i: int| 0 <= i < badges.len() implies tidy(#[trigger] badges[i]) by {}
    assert(array_if_any(badges) matches Some(array) ==> tidy(array));
    tidy_fields_make_a_tidy_object(item_fields(item));
}

proof fn section_is_tidy(section: descriptor::SectionView)
    requires
        section.items.len() > 0,
    ensures
        tidy(section_tree(section)),
{
    let items = item_trees(section.items);
    assert forall|i: int| 0 <= i < items.len() implies tidy(#[trigger] items[i]) by {
        card_is_tidy(section.items[i]);
    }
    assert(tidy(JsonView::Array(items)));
    section_keys_differ(section);
    tidy_fields_make_a_tidy_object(section_fields(section));
}

/// A page whose groups all have cards holds as JSON, at any depth, no `null`,
/// no empty array, and no object with a key that occurs twice.
pub proof fn pages_with_cards_in_each_group_are_tidy(page: descriptor::DescriptorView)
    requires
        forall|i: int|
            0 <= i < page.sections.len() ==> (#[trigger] page.sections[i]).items.len() > 0,
    ensures
        tidy(page_tree_of(page)),
{
    let sections = section_trees(page.sections);
    assert forall|i: int| 0 <= i < sections.len() implies tidy(#[trigger] sections[i]) by {
        section_is_tidy(page.sections[i]);
    }
    assert(array_if_any(sections) matches Some(array) ==> tidy(array));
    buttons_are_tidy(page.actions);
    page_keys_differ(page);
    tidy_fields_make_a_tidy_object(page_fields(page));
}

/// Whatever is remembered and whatever the status, the page as JSON is one
/// object that holds, at any depth, no `null`, no empty array, and no object
/// with a key that occurs twice. It is of schema version 1, has the plugin's
/// title, and tells the status as it is.
pub proof fn shown_pages_are_tidy(cache: release::CacheView, status: Seq<char>)
    ensures
        ({
            let tree = page_tree_of(descriptor::page(cache, status));
            &&& tree is Object
            &&& tidy(tree)
            &&& tree.member("schemaVersion"@) == Some(JsonView::Number(1))
            &&& tree.member("title"@) == Some(JsonView::Text("Release Radar"@))
            &&& tree.member("status"@) == Some(JsonView::Text(status))
        }),
{
    let page = descriptor::page(cache, status);
    page_members(page);
    pages_with_cards_in_each_group_are_tidy(page);
}

} // verus!
