use lrclib_core::metadata_cache::{
    build_get_metadata_cache_key, get_cached_metadata_response, ProbeStep,
};
use std::collections::HashMap;

/// Carries a whole search out on `cache`; gives the result and the keys that
/// were tried.
fn search(
    cache: &HashMap<String, u32>,
    album: Option<&str>,
    bucket: i64,
) -> (Option<u32>, Vec<String>) {
    let mut tried = Vec::new();
    let mut reply = None;
    loop {
        match get_cached_metadata_response(
            "track",
            "artist",
            album,
            bucket,
            tried.len() as u8,
            reply,
        ) {
            ProbeStep::Found(response) => return (Some(response), tried),
            ProbeStep::Missing => return (None, tried),
            ProbeStep::Lookup(key) => {
                reply = cache.get(&key).copied();
                tried.push(key);
            },
        }
    }
}

#[test]
fn keys_have_four_fields() {
    assert_eq!(
        build_get_metadata_cache_key("song", "band", Some("disc"), Some(233)),
        "get:v2:song:band:disc:233"
    );
    assert_eq!(build_get_metadata_cache_key("song", "band", None, None), "get:v2:song:band::");
    assert_eq!(build_get_metadata_cache_key("", "", Some(""), Some(0)), "get:v2::::0");
}

#[test]
fn numbers_are_written_in_full() {
    for n in [0i64, 9, 10, 99, 100, -1, -10, 1234567890, i64::MAX, i64::MIN] {
        assert_eq!(
            build_get_metadata_cache_key("s", "b", None, Some(n)),
            format!("get:v2:s:b::{}", n)
        );
    }
}

#[test]
fn different_requests_have_different_keys() {
    let key = build_get_metadata_cache_key("a", "b", Some("c"), Some(1));
    assert_ne!(key, build_get_metadata_cache_key("a", "b", Some("c"), Some(2)));
    assert_ne!(key, build_get_metadata_cache_key("a", "b", Some("d"), Some(1)));
    assert_ne!(key, build_get_metadata_cache_key("a", "b", None, Some(1)));
    assert_ne!(key, build_get_metadata_cache_key("a", "c", Some("b"), Some(1)));
    assert_ne!(key, build_get_metadata_cache_key("a", "b", Some("c"), None));
}

#[test]
fn tracks_with_colons_can_share_a_key() {
    assert_eq!(
        build_get_metadata_cache_key("a:b", "c", None, None),
        build_get_metadata_cache_key("a", "b", Some("c:"), None)
    );
}

#[test]
fn colons_in_albums_share_no_key() {
    let key = build_get_metadata_cache_key("a", "b", Some("c:1"), None);
    assert_ne!(key, build_get_metadata_cache_key("a", "b", Some("c"), Some(1)));
    assert_ne!(key, build_get_metadata_cache_key("a", "b", Some("c"), None));
}

#[test]
fn a_search_tries_two_seconds_to_either_side() {
    let (found, tried) = search(&HashMap::new(), None, 10);
    assert_eq!(found, None);
    assert_eq!(
        tried,
        vec![
            "get:v2:track:artist::8",
            "get:v2:track:artist::9",
            "get:v2:track:artist::10",
            "get:v2:track:artist::11",
            "get:v2:track:artist::12",
        ]
    );
}

#[test]
fn a_search_takes_the_least_duration() {
    let mut cache = HashMap::new();
    for bucket in [7i64, 9, 10, 12] {
        let key = build_get_metadata_cache_key("track", "artist", Some("album"), Some(bucket));
        cache.insert(key, bucket as u32);
    }
    let (found, tried) = search(&cache, Some("album"), 10);
    assert_eq!(found, Some(9));
    assert_eq!(tried.len(), 2);
    assert_eq!(search(&cache, Some("album"), 14).0, Some(12));
    assert_eq!(search(&cache, Some("album"), 15).0, None);
    assert_eq!(search(&cache, Some("album"), 4).0, None);
    assert_eq!(search(&cache, None, 10).0, None);
}

#[test]
fn a_search_can_stay_within_the_range_of_durations() {
    match get_cached_metadata_response::<u32>("t", "a", None, i64::MAX, 2, None) {
        ProbeStep::Lookup(key) => assert_eq!(key, format!("get:v2:t:a::{}", i64::MAX)),
        _ => panic!("the key is looked up"),
    }
}
