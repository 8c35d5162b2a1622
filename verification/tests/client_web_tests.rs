use gaia::client::{
    capture_urls_from, processed_key, recording_url, recordings_url, urls_changed, ProcessedSet,
};
use gaia::web::{new_cache, urlencoded, SpeciesPhoto, WebDetection};

#[test]
fn test_processed_set_dedup_and_cap() {
    let mut seen = ProcessedSet::new();
    let key = processed_key("http://capture:8089", "2024-02-24-birdnet-16:19:37.wav");
    assert_eq!(key, "http://capture:8089:2024-02-24-birdnet-16:19:37.wav");
    assert!(!seen.contains(&key));
    seen.note(key.clone());
    assert!(seen.contains(&key));
    seen.note(key.clone());
    assert_eq!(seen.len(), 1);

    // The set clears wholesale once it passes the cap.
    for i in 0..10_001 {
        seen.note(format!("u:{i}"));
    }
    assert!(seen.len() > 10_000);
    seen.prune();
    assert_eq!(seen.len(), 0);
}

#[test]
fn test_request_urls() {
    assert_eq!(recordings_url("http://host:1"), "http://host:1/api/recordings");
    assert_eq!(
        recording_url("http://host:1", "a.wav"),
        "http://host:1/api/recordings/a.wav"
    );
}

#[test]
fn test_capture_urls_fallback() {
    let urls = capture_urls_from(Vec::new(), "http://capture:8089");
    assert_eq!(urls.len(), 1);
    assert_eq!(urls[0], "http://capture:8089");

    let found = capture_urls_from(vec![String::from("http://a"), String::from("http://b")], "x");
    assert_eq!(found.len(), 2);

    let a = vec![String::from("http://a")];
    let b = vec![String::from("http://b")];
    assert!(urls_changed(&a, &b));
    assert!(!urls_changed(&a, &a.clone()));
}

#[test]
fn test_web_detection_urls() {
    let d = WebDetection {
        id: 1,
        domain: String::from("birds"),
        scientific_name: String::from("Turdus merula"),
        common_name: String::from("Eurasian Blackbird"),
        confidence_micro: 930_000,
        date: String::from("2024-06-15"),
        time: String::from("10:30:03"),
        file_name: String::from("clip.wav"),
        source_node: String::from("http://10.0.0.2:8089/"),
    };
    assert_eq!(
        d.clip_url().unwrap(),
        "/extracted/By_Date/2024-06-15/Eurasian_Blackbird/clip.wav"
    );
    assert_eq!(
        d.spectrogram_url().unwrap(),
        "/extracted/By_Date/2024-06-15/Eurasian_Blackbird/clip.wav.png"
    );
    assert_eq!(d.source_label(), "10.0.0.2:8089");

    let local = WebDetection { file_name: String::new(), source_node: String::new(), ..d };
    assert!(local.clip_url().is_none());
    assert_eq!(local.source_label(), "local");
}

#[test]
fn test_urlencoded() {
    assert_eq!(urlencoded("Turdus merula"), "Turdus+merula");
    assert_eq!(urlencoded("a&b=c"), "a%26b%3Dc");
}

#[test]
fn test_photo_cache() {
    let mut cache = new_cache();
    assert!(cache.lookup("Turdus merula").is_none());
    cache.store(
        String::from("Turdus merula"),
        Some(SpeciesPhoto {
            medium_url: String::from("http://img/1.jpg"),
            attribution: String::from("someone"),
            wikipedia_url: None,
        }),
    );
    // A failed lookup is cached too, as None.
    cache.store(String::from("Corvus corax"), None);
    let hit = cache.lookup("Turdus merula").unwrap();
    assert_eq!(hit.as_ref().unwrap().medium_url, "http://img/1.jpg");
    assert!(cache.lookup("Corvus corax").unwrap().is_none());
}
