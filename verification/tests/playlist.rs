use cartoon_download::playlist::{get_base_url, hls_segment_urls, parse_m3u8_segments};

#[test]
fn base_url_keeps_everything_up_to_the_last_slash() {
    assert_eq!(get_base_url("https://cdn.example.com/v/1/index.m3u8"), "https://cdn.example.com/v/1/");
    assert_eq!(get_base_url("https://cdn.example.com/"), "https://cdn.example.com/");
}

#[test]
fn base_url_without_slash_is_empty() {
    assert_eq!(get_base_url("index.m3u8"), "");
    assert_eq!(get_base_url(""), "");
}

#[test]
fn playlist_resolves_relative_and_keeps_absolute_segments() {
    let content = "#EXTM3U\n#EXT-X-VERSION:3\n#EXTINF:10.0,\nseg0.ts\n#EXTINF:10.0,\nhttps://other.host/seg1.ts\n\n#EXT-X-ENDLIST\n";
    let segments = parse_m3u8_segments(content, "https://cdn.example.com/v/").unwrap();
    assert_eq!(
        segments,
        vec!["https://cdn.example.com/v/seg0.ts".to_string(), "https://other.host/seg1.ts".to_string()]
    );
}

#[test]
fn playlist_lines_are_trimmed_and_crlf_is_accepted() {
    let content = "#EXTM3U\r\n  a.ts  \r\n\t\r\n   #comment\r\nhttp://x/b.ts\r\nlast.ts";
    let segments = parse_m3u8_segments(content, "base/").unwrap();
    assert_eq!(
        segments,
        vec!["base/a.ts".to_string(), "http://x/b.ts".to_string(), "base/last.ts".to_string()]
    );
}

#[test]
fn playlist_without_segments_is_empty_but_ok() {
    assert_eq!(parse_m3u8_segments("", "b/").unwrap(), Vec::<String>::new());
    assert_eq!(parse_m3u8_segments("#EXTM3U\n\n#EXT-X-ENDLIST", "b/").unwrap(), Vec::<String>::new());
}

#[test]
fn playlist_prefix_http_is_literal() {
    // A relative name that merely starts with "http" counts as absolute.
    let segments = parse_m3u8_segments("httpish.ts\nhtt.ts\n", "b/").unwrap();
    assert_eq!(segments, vec!["httpish.ts".to_string(), "b/htt.ts".to_string()]);
}

#[test]
fn hls_urls_are_resolved_against_the_playlist_url() {
    let urls = hls_segment_urls("https://h/v/index.m3u8", "#EXTM3U\ns1.ts\ns2.ts\n").unwrap();
    assert_eq!(urls, vec!["https://h/v/s1.ts".to_string(), "https://h/v/s2.ts".to_string()]);
    assert_eq!(hls_segment_urls("https://h/v/index.m3u8", "#EXTM3U\n"), Err("未找到视频片段".to_string()));
}

#[test]
fn joined_playlists_name_both_segment_lists() {
    let a = "#EXTM3U\na.ts\n  \nhttp://x/b.ts";
    let b = "#c\nc.ts\n\n";
    let joined = format!("{}\n{}", a, b);
    let mut both = parse_m3u8_segments(a, "u/").unwrap();
    both.extend(parse_m3u8_segments(b, "u/").unwrap());
    assert_eq!(parse_m3u8_segments(&joined, "u/").unwrap(), both);
}
