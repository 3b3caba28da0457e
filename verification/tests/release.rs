use release_radar::release::{
    any_name_is, encode_warning, merge_releases, parse_release_groups, read_cache,
    release_from_group, sort_and_cap, write_warning, AcRaw, Cache, MbResp, Release, RgRaw,
    MAX_RELEASES,
};

fn release(id: &str, date: &str) -> Release {
    Release {
        id: id.to_string(),
        title: format!("title {id}"),
        artist: "Someone".to_string(),
        date: date.to_string(),
        primary_type: "Album".to_string(),
    }
}

fn group(id: &str, date: &str, credits: &[&str]) -> RgRaw {
    RgRaw {
        id: id.to_string(),
        title: format!("title {id}"),
        first_release_date: date.to_string(),
        primary_type: None,
        artist_credit: credits.iter().map(|name| AcRaw { name: name.to_string() }).collect(),
    }
}

fn ids(releases: &[Release]) -> Vec<String> {
    releases.iter().map(|r| r.id.clone()).collect()
}

#[test]
fn default_cache_is_empty() {
    let cache = Cache::default();
    assert!(cache.releases.is_empty());
    assert_eq!((cache.next_index, cache.total, cache.updated_at), (0, 0, 0));
}

#[test]
fn stored_cache_is_taken_as_it_is() {
    let stored = Cache { releases: vec![release("a", "2024")], next_index: 3, total: 9, updated_at: 7 };
    let cache = read_cache(Some(stored));
    assert_eq!(ids(&cache.releases), ["a"]);
    assert_eq!((cache.next_index, cache.total, cache.updated_at), (3, 9, 7));
    let fresh = read_cache(None);
    assert!(fresh.releases.is_empty());
    assert_eq!((fresh.next_index, fresh.total, fresh.updated_at), (0, 0, 0));
}

#[test]
fn unreadable_response_yields_nothing() {
    assert!(parse_release_groups(None, "Air", "2024-01-01").is_empty());
}

#[test]
fn response_is_filtered() {
    let resp = MbResp {
        release_groups: vec![
            group("undated", "", &["Air"]),
            group("old", "2023-12-31", &["Air"]),
            group("first", "2024-01-01", &[" AIR "]),
            group("homonym", "2024-02-02", &["Airs"]),
            group("year", "2024", &["Other", "air"]),
            group("uncredited", "2024-03", &[]),
            group("second", "2024-03", &["", "Air"]),
        ],
    };
    let found = parse_release_groups(Some(resp), "Air", "2024-01-01");
    assert_eq!(ids(&found), ["first", "year", "second"]);
    assert_eq!(found[0].artist, " AIR ");
    assert_eq!(found[0].title, "title first");
    assert_eq!(found[0].date, "2024-01-01");
    assert_eq!(found[0].primary_type, "");
    assert_eq!(found[1].artist, "Other");
    assert_eq!(found[2].artist, "Air");
}

#[test]
fn group_becomes_a_release() {
    let mut rg = group("x", "2024-05-06", &["Björk"]);
    rg.primary_type = Some("EP".to_string());
    let made = release_from_group(rg, true, "björk", "2024-05-06").unwrap();
    assert_eq!(made.artist, "Björk");
    assert_eq!(made.primary_type, "EP");
    assert!(release_from_group(group("x", "2024-05-06", &["Björk"]), false, "björk", "2024").is_none());
    assert!(release_from_group(group("x", "2024-05-05", &["a"]), true, "a", "2024-05-06").is_none());
    assert!(release_from_group(group("x", "", &["a"]), true, "a", "").is_none());
    let own = release_from_group(group("x", "2024", &[]), true, "Me", "2024-01-01").unwrap();
    assert_eq!(own.artist, "Me");
}

#[test]
fn credit_names_are_searched() {
    let names = vec!["a".to_string(), "b".to_string()];
    assert!(any_name_is("b", &names));
    assert!(!any_name_is("c", &names));
    assert!(!any_name_is("a", &Vec::new()));
}

#[test]
fn merging_skips_known_ids() {
    let mut list = vec![release("a", "2024"), release("b", "2023")];
    merge_releases(&mut list, vec![release("b", "1999"), release("c", "2022"), release("c", "2021")]);
    assert_eq!(ids(&list), ["a", "b", "c"]);
    assert_eq!(list[1].date, "2023");
    assert_eq!(list[2].date, "2022");
    merge_releases(&mut list, vec![release("c", "2022"), release("a", "2024")]);
    assert_eq!(ids(&list), ["a", "b", "c"]);
}

#[test]
fn ordering_is_newest_first_and_stable() {
    let mut list = vec![
        release("a", "2024-01-01"),
        release("b", "2024"),
        release("c", "2024-06"),
        release("d", "2023-12-31"),
        release("e", "2024-06-01"),
        release("f", "2025"),
    ];
    sort_and_cap(&mut list);
    assert_eq!(ids(&list), ["f", "c", "e", "a", "b", "d"]);
    sort_and_cap(&mut list);
    assert_eq!(ids(&list), ["f", "c", "e", "a", "b", "d"]);
}

#[test]
fn only_the_newest_are_kept() {
    let mut list: Vec<Release> = Vec::new();
    for i in 0..200 {
        list.push(release(&format!("r{i}"), &format!("{}", 1000 + i)));
    }
    sort_and_cap(&mut list);
    assert_eq!(list.len(), MAX_RELEASES);
    assert_eq!(list[0].id, "r199");
    assert_eq!(list[149].id, "r50");
}

#[test]
fn ordering_agrees_with_a_stable_sort() {
    let mut list: Vec<Release> = Vec::new();
    let mut seed: u32 = 12345;
    for i in 0..140 {
        seed = seed.wrapping_mul(1_103_515_245).wrapping_add(12_345);
        let year = 2000 + (seed >> 16) % 5;
        let month = 1 + (seed >> 8) % 12;
        let date = if seed % 3 == 0 { format!("{year}") } else { format!("{year}-{month:02}") };
        list.push(release(&format!("r{i}"), &date));
    }
    let mut expected: Vec<(String, String)> = list
        .iter()
        .map(|r| {
            let key = if r.date.len() == 4 { format!("{}-01-01", r.date) } else { format!("{}-01", r.date) };
            (r.id.clone(), key)
        })
        .collect();
    expected.sort_by(|a, b| b.1.cmp(&a.1));
    sort_and_cap(&mut list);
    let expected: Vec<String> = expected.into_iter().map(|e| e.0).collect();
    assert_eq!(ids(&list), expected);
}

#[test]
fn store_failures_are_logged() {
    assert_eq!(write_warning("disk full"), "release-radar: cache write failed: disk full");
    assert_eq!(encode_warning("bad"), "release-radar: cache encode failed: bad");
}
