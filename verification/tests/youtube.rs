use fallen_world_launcher::services::youtube::{YouTube, DEFAULT_CHANNEL_ID};

const FEED: &str = "<feed><title>Channel</title>\
<entry><yt:videoId>abc123</yt:videoId><title>Fish &amp; Chips &lt;3</title><published>2026-01-02</published></entry>\
<entry><title>No id here</title></entry>\
<entry><yt:videoId>def456</yt:videoId><title>Second</title></entry></feed>";

#[test]
fn feed_entries_become_videos() {
    let v = YouTube::parse_feed(FEED);
    assert_eq!(v.len(), 2);
    assert_eq!(v[0].id, "abc123");
    assert_eq!(v[0].title, "Fish & Chips <3");
    assert_eq!(v[0].published, "2026-01-02");
    assert_eq!(v[0].url, "https://www.youtube.com/watch?v=abc123");
    assert_eq!(v[0].embed_url, "https://www.youtube.com/embed/abc123");
    assert_eq!(v[0].thumbnail, "https://i.ytimg.com/vi/abc123/mqdefault.jpg");
    assert_eq!(v[1].id, "def456");
    assert_eq!(v[1].published, "");
}

#[test]
fn recent_videos_truncates_and_rejects_empty() {
    let v = YouTube::recent_videos(FEED, 1).unwrap();
    assert_eq!(v.len(), 1);
    assert_eq!(v[0].id, "abc123");
    assert_eq!(YouTube::recent_videos(FEED, 0).unwrap_err(), "No videos found in channel feed");
    assert_eq!(YouTube::recent_videos("<feed></feed>", 5).unwrap_err(), "No videos found in channel feed");
}

#[test]
fn decode_entities_in_order() {
    let s: Vec<char> = "&amp;lt; &quot;a&quot; &#39;b&apos;".chars().collect();
    let d: String = YouTube::decode_xml(&s).into_iter().collect();
    assert_eq!(d, "< \"a\" 'b'");
}

#[test]
fn channel_id_scraping() {
    let page = "x \"channelId\":\"UCowoMPzQU_WfQcNp6bMj1zg\" y";
    assert_eq!(YouTube::scrape_channel_id(page), Some("UCowoMPzQU_WfQcNp6bMj1zg".to_string()));
    let page2 = "\"channelId\":\"short\" channel_id=UCabcdefghijklmnopqrstuv&x";
    assert_eq!(YouTube::scrape_channel_id(page2), Some("UCabcdefghijklmnopqrstuv".to_string()));
    assert_eq!(YouTube::scrape_channel_id("nothing"), None);
    assert_eq!(YouTube::resolve_channel_id(None, Some("nothing")), DEFAULT_CHANNEL_ID);
    assert_eq!(YouTube::resolve_channel_id(Some("UCx".to_string()), Some(page2)), "UCx");
    assert_eq!(
        YouTube::feed_url("UC1"),
        "https://www.youtube.com/feeds/videos.xml?channel_id=UC1"
    );
}
