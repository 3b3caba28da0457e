use release_radar::descriptor::{render_view, Action, Descriptor, Item, Section};
use release_radar::json::{page_tree, Json};
use release_radar::release::{Cache, Release};
use serde::{Serialize, Serializer};

struct Tree<'a>(&'a Json);

impl Serialize for Tree<'_> {
    fn serialize<S: Serializer>(&self, serializer: S) -> Result<S::Ok, S::Error> {
        match self.0 {
            Json::Null => serializer.serialize_unit(),
            Json::Number(n) => serializer.serialize_u64(*n),
            Json::Text(text) => serializer.serialize_str(text),
            Json::Array(items) => serializer.collect_seq(items.iter().map(Tree)),
            Json::Object(members) => {
                serializer.collect_map(members.iter().map(|(key, value)| (key, Tree(value))))
            }
        }
    }
}

fn encoded(page: &Descriptor) -> String {
    serde_json::to_string(&Tree(&page_tree(page))).unwrap()
}

fn tidy(value: &Json) -> bool {
    match value {
        Json::Null => false,
        Json::Number(_) | Json::Text(_) => true,
        Json::Array(items) => !items.is_empty() && items.iter().all(tidy),
        Json::Object(members) => members.iter().enumerate().all(|(i, (key, value))| {
            tidy(value) && members.iter().skip(i + 1).all(|(other, _)| other != key)
        }),
    }
}

fn release(id: &str, primary_type: &str) -> Release {
    Release {
        id: id.to_string(),
        title: "T".to_string(),
        artist: "A".to_string(),
        date: "2024-05".to_string(),
        primary_type: primary_type.to_string(),
    }
}

#[test]
fn first_page_as_json() {
    assert_eq!(
        encoded(&render_view(&Cache::default(), "fresh")),
        [
            r#"{"schemaVersion":1,"title":"Release Radar","#,
            r#""subtitle":"Découvrez les dernières sorties de vos artistes","status":"fresh","#,
            r#""actions":[{"kind":"event","label":"Rechercher les nouveautés","event":"scan"}],"#,
            r#""emptyTitle":"Bienvenue dans Release Radar","#,
            r#""emptyHint":"Lancez une recherche pour découvrir les sorties récentes de vos artistes suivis."}"#,
        ].concat()
    );
}

#[test]
fn page_with_cards_as_json() {
    let cache = Cache {
        releases: vec![release("x", "Album"), release("y", "")],
        next_index: 4,
        total: 4,
        updated_at: 9,
    };
    assert_eq!(
        encoded(&render_view(&cache, "cached")),
        [
            r#"{"schemaVersion":1,"title":"Release Radar","#,
            r#""subtitle":"2 nouveauté(s) · 4/4 artistes","status":"cached","#,
            r#""actions":[{"kind":"event","label":"Rescanner","event":"rescan"}],"#,
            r#""sections":[{"title":"Sorties récentes","items":["#,
            r#"{"id":"x","title":"T","subtitle":"A","detail":"2024-05","#,
            r#""imageUrl":"https://coverartarchive.org/release-group/x/front-250","badges":["Album"],"#,
            r#""actions":[{"kind":"open-url","label":"MusicBrainz","url":"https://musicbrainz.org/release-group/x"}]},"#,
            r#"{"id":"y","title":"T","subtitle":"A","detail":"2024-05","#,
            r#""imageUrl":"https://coverartarchive.org/release-group/y/front-250","#,
            r#""actions":[{"kind":"open-url","label":"MusicBrainz","url":"https://musicbrainz.org/release-group/y"}]}"#,
            r#"]}]}"#,
        ].concat()
    );
}

#[test]
fn shown_pages_hold_no_null_and_no_empty_array() {
    for releases in 0..3 {
        for next_index in [0, 3, 20] {
            for updated_at in [0, 5] {
                let cache = Cache {
                    releases: (0..releases).map(|i| release(&format!("r{i}"), "")).collect(),
                    next_index,
                    total: 10,
                    updated_at,
                };
                assert!(tidy(&page_tree(&render_view(&cache, ""))));
            }
        }
    }
}

#[test]
fn absent_and_empty_fields_are_left_out() {
    let page = Descriptor {
        schema_version: 7,
        title: String::new(),
        subtitle: None,
        status: None,
        actions: Vec::new(),
        sections: Vec::new(),
        empty_title: None,
        empty_hint: None,
    };
    assert_eq!(encoded(&page), r#"{"schemaVersion":7,"title":""}"#);
}

#[test]
fn cards_of_a_group_are_always_written() {
    let mut page = Descriptor {
        schema_version: 1,
        title: "t".to_string(),
        subtitle: None,
        status: None,
        actions: vec![Action {
            kind: "event",
            label: "l".to_string(),
            event: None,
            payload: Some("p".to_string()),
            url: None,
        }],
        sections: vec![Section { title: None, items: Vec::new() }],
        empty_title: None,
        empty_hint: None,
    };
    assert_eq!(
        encoded(&page),
        [
            r#"{"schemaVersion":1,"title":"t","#,
            r#""actions":[{"kind":"event","label":"l","payload":"p"}],"#,
            r#""sections":[{"items":[]}]}"#,
        ].concat()
    );
    assert!(!tidy(&page_tree(&page)));
    page.sections[0].items.push(Item {
        id: "i".to_string(),
        title: "c".to_string(),
        subtitle: None,
        detail: None,
        image_url: None,
        badges: Vec::new(),
        actions: Vec::new(),
    });
    assert!(tidy(&page_tree(&page)));
    assert!(encoded(&page).ends_with(r#""sections":[{"items":[{"id":"i","title":"c"}]}]}"#));
}
