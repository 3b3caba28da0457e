use release_radar::query::{
    build_mb_url, caa_url, encode_query, escape_lucene_phrase, mb_get, mb_rg_url, normalize,
};

#[test]
fn names_are_trimmed_and_lowercased() {
    assert_eq!(normalize("  Daft Punk\t"), "daft punk");
    assert_eq!(normalize("\u{a0}ÉTOILE\u{3000}"), "étoile");
    assert_eq!(normalize("\u{200b}A\u{200b}"), "\u{200b}a\u{200b}");
    assert_eq!(normalize(" \u{85}\u{2028} "), "");
    assert_eq!(normalize("ΟΔΟΣ"), "οδος");
}

#[test]
fn unreserved_bytes_stand_for_themselves() {
    assert_eq!(encode_query("AZaz09-_.~"), "AZaz09-_.~");
}

#[test]
fn other_bytes_are_percent_encoded() {
    assert_eq!(encode_query("a b"), "a%20b");
    assert_eq!(encode_query("\"é\"&/"), "%22%C3%A9%22%26%2F");
    assert_eq!(encode_query("\u{7f}\u{0}"), "%7F%00");
    assert_eq!(encode_query("@[`{"), "%40%5B%60%7B");
    assert_eq!(encode_query(""), "");
}

#[test]
fn encoded_text_decodes_back() {
    let text = "artist:\"Sigur Rós\\\" AND 100% [2024-01-01 TO *] ~ é";
    let encoded = encode_query(text);
    let bytes = encoded.as_bytes();
    let mut decoded: Vec<u8> = Vec::new();
    let mut i = 0;
    while i < bytes.len() {
        if bytes[i] == b'%' {
            decoded.push(u8::from_str_radix(&encoded[i + 1..i + 3], 16).unwrap());
            i += 3;
        } else {
            decoded.push(bytes[i]);
            i += 1;
        }
    }
    assert_eq!(decoded, text.as_bytes());
}

#[test]
fn phrases_escape_quotes_and_backslashes() {
    assert_eq!(escape_lucene_phrase("plain é"), "plain é");
    assert_eq!(escape_lucene_phrase("a\"b"), "a\\\"b");
    assert_eq!(escape_lucene_phrase("a\\b"), "a\\\\b");
    assert_eq!(escape_lucene_phrase("\\\""), "\\\\\\\"");
    let wild = "\\\\\"x\"\\";
    assert_eq!(
        escape_lucene_phrase(wild),
        wild.replace('\\', "\\\\").replace('"', "\\\"")
    );
}

#[test]
fn search_address_of_an_artist() {
    assert_eq!(
        build_mb_url("AC\"DC", "2024-04-07"),
        "https://musicbrainz.org/ws/2/release-group?query=artist%3A%22AC%5C%22DC%22%20AND%20\
         firstreleasedate%3A%5B2024-04-07%20TO%20%2A%5D&fmt=json&limit=25"
    );
}

#[test]
fn addresses_of_a_release_group() {
    assert_eq!(caa_url("x-1"), "https://coverartarchive.org/release-group/x-1/front-250");
    assert_eq!(mb_rg_url("x-1"), "https://musicbrainz.org/release-group/x-1");
}

#[test]
fn request_names_the_app() {
    let request = mb_get("https://musicbrainz.org/x");
    assert_eq!(request.method, "GET");
    assert_eq!(request.url, "https://musicbrainz.org/x");
    assert_eq!(
        request.headers,
        vec![
            (
                "User-Agent".to_string(),
                "WaveFlow-ReleaseRadar/0.1.0 ( https://github.com/InstaZDLL/waveflow-plugin-release-radar )"
                    .to_string()
            ),
            ("Accept".to_string(), "application/json".to_string()),
        ]
    );
    assert!(request.body.is_none());
}
