use amongus_timeline::{embedded_value, video_id};

#[test]
fn video_id_stops_at_ampersand() {
    assert_eq!(
        video_id("https://www.youtube.com/watch?v=kofC4k2tm68&ab_channel=DomingoReplay"),
        Some("kofC4k2tm68".to_string())
    );
}

#[test]
fn video_id_runs_to_the_end() {
    assert_eq!(video_id("https://www.youtube.com/watch?v=j370EOXd2RY"), Some("j370EOXd2RY".to_string()));
    assert_eq!(video_id("https://www.youtube.com/watch?v="), Some(String::new()));
}

#[test]
fn video_id_needs_the_marker() {
    assert_eq!(video_id("https://www.youtube.com/feed"), None);
}

#[test]
fn embedded_value_keeps_the_opening_brace() {
    let html = "<script>var ytInitialData = {\"a\":1};</script><script nonce=\"x\">var ytInitialData = {\"b\":2}";
    assert_eq!(
        embedded_value(html, "var ytInitialData = {", ";</script><script nonce=\""),
        Some("{\"a\":1}".to_string())
    );
}

#[test]
fn embedded_value_needs_both_markers() {
    assert_eq!(embedded_value("var x = {1}", "var y = {", ";"), None);
    assert_eq!(embedded_value("var x = {1}", "var x = {", ";"), None);
}
