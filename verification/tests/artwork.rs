use soundsync::artwork::{artwork_from, itunes_query_url, lookup_url, parse_itunes_artwork, percent_encode, upscale_artwork_url};

#[test]
fn query_url_artist_and_album() {
    let url = itunes_query_url("Pink Floyd", "The Wall", "Another Brick").unwrap();
    assert!(url.starts_with("https://itunes.apple.com/search?term="));
    assert!(url.contains("Pink+Floyd+The+Wall"));
    assert!(url.contains("entity=album"));
    assert!(url.contains("limit=1"));
}

#[test]
fn query_url_falls_back_to_title_when_no_album() {
    let url = itunes_query_url("Radiohead", "", "Creep").unwrap();
    assert!(url.contains("Radiohead+Creep"));
}

#[test]
fn query_url_uses_only_title_when_artist_also_empty() {
    let url = itunes_query_url("", "", "Bohemian Rhapsody").unwrap();
    assert!(url.contains("Bohemian+Rhapsody"));
}

#[test]
fn query_url_returns_none_when_all_empty() {
    assert_eq!(itunes_query_url("", "", ""), None);
    assert_eq!(itunes_query_url("   ", "  ", " "), None);
}

#[test]
fn query_url_percent_encodes_special_chars() {
    let url = itunes_query_url("AC/DC", "Back in Black", "").unwrap();
    assert!(url.contains("AC%2FDC"));
}

#[test]
fn query_url_encodes_ampersand_and_equals() {
    let url = itunes_query_url("Jay-Z & Kanye", "Watch the Throne", "").unwrap();
    assert!(url.contains("%26"));
}

#[test]
fn query_url_prefers_album_over_title() {
    let url = itunes_query_url("Artist", "Album Name", "Track Title").unwrap();
    assert!(url.contains("Album+Name"));
    assert!(!url.contains("Track+Title"));
}

#[test]
fn query_url_no_leading_space_when_artist_empty_album_present() {
    let url = itunes_query_url("", "Abbey Road", "Come Together").unwrap();
    assert!(url.contains("Abbey+Road"));
    assert!(!url.contains("+Abbey+Road"));
    assert!(!url.contains("%20Abbey"));
    assert!(!url.contains("Come+Together"));
}

#[test]
fn query_url_artist_only_no_album_no_title() {
    let url = itunes_query_url("Massive Attack", "", "").unwrap();
    assert!(url.contains("Massive+Attack"));
    let decoded_term = url
        .split("term=")
        .nth(1)
        .and_then(|s| s.split('&').next())
        .unwrap_or("");
    assert_eq!(decoded_term, "Massive+Attack");
}

#[test]
fn parse_returns_artwork_url() {
    let json = r#"{
            "resultCount": 1,
            "results": [{
                "collectionName": "The Wall",
                "artworkUrl100": "https://is1-ssl.mzstatic.com/image/thumb/Music/v4/abc/100x100bb.jpg",
                "artworkUrl60": "https://is1-ssl.mzstatic.com/image/thumb/Music/v4/abc/60x60bb.jpg"
            }]
        }"#;
    let url = parse_itunes_artwork(json).unwrap();
    assert_eq!(
        url,
        "https://is1-ssl.mzstatic.com/image/thumb/Music/v4/abc/100x100bb.jpg"
    );
}

#[test]
fn parse_falls_back_to_artwork_url_60() {
    let json = r#"{
            "resultCount": 1,
            "results": [{
                "collectionName": "Some Album",
                "artworkUrl60": "https://example.com/60x60bb.jpg"
            }]
        }"#;
    let url = parse_itunes_artwork(json).unwrap();
    assert_eq!(url, "https://example.com/60x60bb.jpg");
}

#[test]
fn parse_returns_none_for_empty_results() {
    let json = r#"{"resultCount": 0, "results": []}"#;
    assert_eq!(parse_itunes_artwork(json), None);
}

#[test]
fn parse_returns_none_for_malformed_json() {
    assert_eq!(parse_itunes_artwork("not json at all"), None);
    assert_eq!(parse_itunes_artwork("{"), None);
    assert_eq!(parse_itunes_artwork("null"), None);
}

#[test]
fn parse_returns_none_when_artwork_field_missing() {
    let json = r#"{"resultCount": 1, "results": [{"collectionName": "X"}]}"#;
    assert_eq!(parse_itunes_artwork(json), None);
}

#[test]
fn upscale_replaces_100x100bb() {
    let input = "https://is1-ssl.mzstatic.com/image/thumb/Music/v4/abc/100x100bb.jpg";
    let output = upscale_artwork_url(input);
    assert_eq!(
        output,
        "https://is1-ssl.mzstatic.com/image/thumb/Music/v4/abc/600x600bb.jpg"
    );
}

#[test]
fn upscale_replaces_100x100_without_bb() {
    let input = "https://example.com/art/100x100.jpg";
    let output = upscale_artwork_url(input);
    assert_eq!(output, "https://example.com/art/600x600bb.jpg");
}

#[test]
fn upscale_replaces_60x60bb() {
    let input = "https://is1-ssl.mzstatic.com/image/thumb/Music/abc/60x60bb.jpg";
    let output = upscale_artwork_url(input);
    assert_eq!(
        output,
        "https://is1-ssl.mzstatic.com/image/thumb/Music/abc/600x600bb.jpg"
    );
}

#[test]
fn upscale_leaves_url_unchanged_when_no_match() {
    let input = "https://example.com/art/original.jpg";
    let output = upscale_artwork_url(input);
    assert_eq!(output, input);
}

#[test]
fn upscale_does_not_double_substitute() {
    let input = "https://example.com/100x100bb/100x100bb.jpg";
    let output = upscale_artwork_url(input);
    assert!(output.starts_with("https://example.com/600x600bb/"));
    assert!(output.ends_with("/100x100bb.jpg"));
}

#[test]
fn percent_encode_unreserved_chars_pass_through() {
    assert_eq!(percent_encode("abc-_.~ABC"), "abc-_.~ABC");
}

#[test]
fn percent_encode_space_becomes_plus() {
    assert_eq!(percent_encode("hello world"), "hello+world");
}

#[test]
fn percent_encode_slash_becomes_percent_2f() {
    assert_eq!(percent_encode("a/b"), "a%2Fb");
}

#[test]
fn percent_encoding_of_each_class_of_byte() {
    assert_eq!(percent_encode("AZaz09-_.~"), "AZaz09-_.~");
    assert_eq!(percent_encode("a b"), "a+b");
    assert_eq!(percent_encode("100%&=+"), "100%25%26%3D%2B");
    assert_eq!(percent_encode("\u{e9}\u{1f3b5}"), "%C3%A9%F0%9F%8E%B5");
}

#[test]
fn lookups_can_be_switched_off() {
    assert_eq!(lookup_url(Some("off"), "A", "B", "C"), None);
    assert_eq!(
        lookup_url(Some("on"), "A", "B", "C").as_deref(),
        Some("https://itunes.apple.com/search?term=A+B&entity=album&limit=1")
    );
    assert_eq!(lookup_url(None, " ", "", "\t"), None);
}

#[test]
fn a_response_gives_the_large_image() {
    let body = r#"{"results":[{"artworkUrl100":"https://e.org/a/100x100bb.jpg"}]}"#;
    assert_eq!(artwork_from(body).as_deref(), Some("https://e.org/a/600x600bb.jpg"));
    assert_eq!(artwork_from(r#"{"results":[{"artworkUrl100":7,"artworkUrl60":"x"}]}"#), None);
}
