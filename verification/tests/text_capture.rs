use knob::capture::{find_app, AppInfo};
use knob::text::{chars_of, contains_chars, lowercase_contains};

fn app(bundle: &str, pid: i32) -> AppInfo {
    AppInfo { bundle_id: bundle.to_string(), name: bundle.to_string(), pid }
}

#[test]
fn find_app_takes_first_match() {
    let apps = vec![app("com.apple.Safari", 10), app("com.spotify.client", 20), app("com.spotify.client", 30)];
    assert_eq!(find_app(&apps, &"com.spotify.client".to_string()), Some(1));
    assert_eq!(apps[find_app(&apps, &"com.spotify.client".to_string()).unwrap()].pid, 20);
    assert_eq!(find_app(&apps, &"org.mozilla.firefox".to_string()), None);
    assert_eq!(find_app(&Vec::new(), &"x".to_string()), None);
}

#[test]
fn chars_of_keeps_characters() {
    assert_eq!(chars_of("aé😀"), vec!['a', 'é', '😀']);
    assert!(chars_of("").is_empty());
}

#[test]
fn substring_search() {
    let hay = chars_of("blackhole 16ch");
    assert!(contains_chars(&hay, &chars_of("blackhole")));
    assert!(contains_chars(&hay, &chars_of("16ch")));
    assert!(contains_chars(&hay, &Vec::new()));
    assert!(!contains_chars(&hay, &chars_of("blackholes")));
    assert!(!contains_chars(&chars_of("hole"), &chars_of("blackhole")));
}

#[test]
fn lowercase_before_search() {
    let needle = chars_of("blackhole");
    assert!(lowercase_contains("BlackHole 16ch", &needle));
    assert!(lowercase_contains("BLACKHOLE", &needle));
    assert!(!lowercase_contains("Black Hole", &needle));
    assert!(!lowercase_contains("BlackHol", &needle));
}
