use release_radar::descriptor::{page_json, render_view, Action};
use release_radar::plugin::{ReleaseRadar, Response, CACHE_KEY};
use release_radar::release::{Cache, Release};
use release_radar::scan::{ScanAction, ScanState};

fn cache(releases: usize, next_index: usize, total: usize, updated_at: i64) -> Cache {
    let mut list: Vec<Release> = Vec::new();
    for i in 0..releases {
        list.push(Release {
            id: format!("id{i}"),
            title: format!("t{i}"),
            artist: format!("a{i}"),
            date: "2024-05".to_string(),
            primary_type: if i % 2 == 0 { "Album".to_string() } else { String::new() },
        });
    }
    Cache { releases: list, next_index, total, updated_at }
}

#[test]
fn event_buttons() {
    let action = Action::event("Go", "scan");
    assert_eq!(action.kind, "event");
    assert_eq!(action.label, "Go");
    assert_eq!(action.event.as_deref(), Some("scan"));
    assert!(action.payload.is_none());
    assert!(action.url.is_none());
}

#[test]
fn link_buttons() {
    let action = Action::open_url("See", "https://x".to_string());
    assert_eq!(action.kind, "open-url");
    assert_eq!(action.label, "See");
    assert!(action.event.is_none());
    assert!(action.payload.is_none());
    assert_eq!(action.url.as_deref(), Some("https://x"));
}

#[test]
fn page_before_the_first_scan() {
    let page = render_view(&Cache::default(), "fresh");
    assert_eq!(page.schema_version, 1);
    assert_eq!(page.title, "Release Radar");
    assert_eq!(
        page.subtitle.as_deref(),
        Some("Découvrez les dernières sorties de vos artistes")
    );
    assert_eq!(page.status.as_deref(), Some("fresh"));
    assert_eq!(page.actions.len(), 1);
    assert_eq!(page.actions[0].label, "Rechercher les nouveautés");
    assert_eq!(page.actions[0].event.as_deref(), Some("scan"));
    assert!(page.sections.is_empty());
    assert_eq!(page.empty_title.as_deref(), Some("Bienvenue dans Release Radar"));
    assert_eq!(
        page.empty_hint.as_deref(),
        Some("Lancez une recherche pour découvrir les sorties récentes de vos artistes suivis.")
    );
}

#[test]
fn page_in_the_middle_of_a_sweep() {
    let page = render_view(&cache(2, 8, 20, 5), "fresh");
    assert_eq!(page.subtitle.as_deref(), Some("2 nouveauté(s) · 8/20 artistes"));
    assert_eq!(page.actions.len(), 2);
    assert_eq!(page.actions[0].label, "Continuer (12 restants)");
    assert_eq!(page.actions[0].event.as_deref(), Some("scan"));
    assert_eq!(page.actions[1].label, "Tout rescanner");
    assert_eq!(page.actions[1].event.as_deref(), Some("rescan"));
    assert!(page.empty_title.is_none());
    assert!(page.empty_hint.is_none());
    assert_eq!(page.sections.len(), 1);
    assert_eq!(page.sections[0].title.as_deref(), Some("Sorties récentes"));
    let items = &page.sections[0].items;
    assert_eq!(items.len(), 2);
    assert_eq!(items[0].id, "id0");
    assert_eq!(items[0].title, "t0");
    assert_eq!(items[0].subtitle.as_deref(), Some("a0"));
    assert_eq!(items[0].detail.as_deref(), Some("2024-05"));
    assert_eq!(
        items[0].image_url.as_deref(),
        Some("https://coverartarchive.org/release-group/id0/front-250")
    );
    assert_eq!(items[0].badges, ["Album"]);
    assert_eq!(items[0].actions.len(), 1);
    assert_eq!(items[0].actions[0].label, "MusicBrainz");
    assert_eq!(
        items[0].actions[0].url.as_deref(),
        Some("https://musicbrainz.org/release-group/id0")
    );
    assert!(items[1].badges.is_empty());
}

#[test]
fn page_after_a_sweep_without_releases() {
    let page = render_view(&cache(0, 25, 20, 5), "cached");
    assert_eq!(page.subtitle.as_deref(), Some("0 nouveauté(s) · 20/20 artistes"));
    assert_eq!(page.actions.len(), 1);
    assert_eq!(page.actions[0].label, "Rescanner");
    assert_eq!(page.actions[0].event.as_deref(), Some("rescan"));
    assert_eq!(page.empty_title.as_deref(), Some("Aucune nouveauté"));
    assert_eq!(
        page.empty_hint.as_deref(),
        Some("Aucune sortie récente trouvée pour vos artistes sur MusicBrainz.")
    );
}

#[test]
fn encoding_failure_shows_a_minimal_page() {
    assert_eq!(page_json(Some("{}".to_string())), "{}");
    assert_eq!(
        page_json(None),
        r#"{"schemaVersion":1,"title":"Release Radar","status":"error","emptyTitle":"Erreur"}"#
    );
}

#[test]
fn sidebar_entry() {
    let mount = ReleaseRadar::manifest();
    assert_eq!(mount.sidebar_label, "Release Radar");
    assert_eq!(mount.sidebar_icon.as_deref(), Some("radar"));
    assert_eq!(mount.initial_path, "/");
    assert_eq!(CACHE_KEY, "release-radar/cache/v1");
}

#[test]
fn opening_the_view_shows_what_is_remembered() {
    assert_eq!(ReleaseRadar::render(&Cache::default()).status.as_deref(), Some("fresh"));
    assert_eq!(ReleaseRadar::render(&cache(1, 8, 8, 5)).status.as_deref(), Some("cached"));
}

#[test]
fn scan_event_begins_a_scan() {
    match ReleaseRadar::on_event("scan", cache(2, 8, 20, 5)) {
        Response::Scan { state: ScanState::Listing { cache }, action: ScanAction::ListArtists { limit } } => {
            assert_eq!(cache.releases.len(), 2);
            assert_eq!(cache.next_index, 8);
            assert_eq!(limit, 60);
        }
        _ => panic!("no scan"),
    }
}

#[test]
fn rescan_event_starts_over() {
    match ReleaseRadar::on_event("rescan", cache(2, 8, 20, 5)) {
        Response::Scan { state: ScanState::Listing { cache }, .. } => {
            assert!(cache.releases.is_empty());
            assert_eq!((cache.next_index, cache.total, cache.updated_at), (0, 20, 5));
        }
        _ => panic!("no scan"),
    }
}

#[test]
fn other_events_show_what_is_remembered() {
    match ReleaseRadar::on_event("scans", cache(1, 8, 20, 5)) {
        Response::Page { page } => assert_eq!(page.status.as_deref(), Some("cached")),
        _ => panic!("no page"),
    }
}
