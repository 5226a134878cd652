use lrclib_core::caches::{cache_limits, CacheKind, CacheLimits};
use lrclib_core::http::{
    allowed_headers, client_agent, is_slow, listen_address, read_header, Endpoint, Method,
};
use lrclib_core::queue::{start_queue, QueueStep, ScrapedData};
use lrclib_core::routes::manage::set_config::{finish_route, route, ApiError, SetConfigRequest};
use lrclib_core::state::{
    add_get_metadata_cache_index, build_app_state, invalidate_get_metadata_cache_for_track_id,
    record_recent_lyrics,
};

#[test]
fn missing_tracks_leave_in_order() {
    let mut state = build_app_state();
    assert_eq!(state.missing_tracks_len(), 0);
    assert_eq!(state.dequeue_missing_track(), None);
    for ticket in [5u64, 3, 9] {
        assert_eq!(state.enqueue_missing_track(ticket), Ok(()));
    }
    assert_eq!(state.missing_tracks_len(), 3);
    assert_eq!(state.dequeue_missing_track(), Some(5));
    assert_eq!(state.enqueue_missing_track(1), Ok(()));
    assert_eq!(state.dequeue_missing_track(), Some(3));
    assert_eq!(state.dequeue_missing_track(), Some(9));
    assert_eq!(state.dequeue_missing_track(), Some(1));
    assert_eq!(state.dequeue_missing_track(), None);
}

#[test]
fn a_full_queue_hands_tracks_back() {
    let mut state = build_app_state();
    for ticket in 0..600000u64 {
        assert_eq!(state.enqueue_missing_track(ticket), Ok(()));
    }
    assert_eq!(state.enqueue_missing_track(7), Err(7));
    assert_eq!(state.missing_tracks_len(), 600000);
    assert_eq!(state.dequeue_missing_track(), Some(0));
    assert_eq!(state.enqueue_missing_track(7), Ok(()));
}

#[test]
fn remembered_keys_are_handed_over_once() {
    let mut state = build_app_state();
    add_get_metadata_cache_index(&mut state, 1, "a");
    add_get_metadata_cache_index(&mut state, 1, "b");
    add_get_metadata_cache_index(&mut state, 1, "a");
    add_get_metadata_cache_index(&mut state, 2, "c");
    let mut keys = invalidate_get_metadata_cache_for_track_id(&mut state, 1);
    keys.sort();
    assert_eq!(keys, vec!["a", "b"]);
    assert!(invalidate_get_metadata_cache_for_track_id(&mut state, 1).is_empty());
    assert_eq!(invalidate_get_metadata_cache_for_track_id(&mut state, 2), vec!["c"]);
    assert!(invalidate_get_metadata_cache_for_track_id(&mut state, 3).is_empty());
}

#[test]
fn a_track_has_at_most_64_keys() {
    let mut state = build_app_state();
    for i in 0..70 {
        add_get_metadata_cache_index(&mut state, 1, &format!("key {}", i));
    }
    let keys = invalidate_get_metadata_cache_for_track_id(&mut state, 1);
    assert_eq!(keys.len(), 64);
    assert!(keys.contains(&"key 63".to_string()));
    assert!(!keys.contains(&"key 64".to_string()));
}

#[test]
fn requests_are_counted_between_reports() {
    let mut state = build_app_state();
    for _ in 0..3 {
        state.count_request();
    }
    assert_eq!(state.take_request_count(), 3);
    assert_eq!(state.take_request_count(), 0);
}

#[test]
fn reports_and_counter_lose_no_request() {
    let mut state = build_app_state();
    let mut reported = 0;
    for i in 0..100 {
        state.count_request();
        if i % 7 == 3 {
            reported += state.take_request_count();
        }
    }
    assert_eq!(reported + state.take_request_count(), 100);
}

#[test]
fn keys_outlive_what_happens_to_other_tracks() {
    let mut state = build_app_state();
    add_get_metadata_cache_index(&mut state, 1, "a");
    state.count_request();
    add_get_metadata_cache_index(&mut state, 2, "b");
    assert_eq!(invalidate_get_metadata_cache_for_track_id(&mut state, 2), vec!["b"]);
    assert_eq!(invalidate_get_metadata_cache_for_track_id(&mut state, 1), vec!["a"]);
}

#[test]
fn the_recent_lyrics_count_is_recorded() {
    let mut state = build_app_state();
    assert_eq!(state.recent_lyrics_count(), 0);
    state.set_recent_lyrics_count(12);
    assert_eq!(state.recent_lyrics_count(), 12);
}

#[test]
fn config_is_changed_with_the_token() {
    let mut state = build_app_state();
    state.start_supervision(2);
    let request = SetConfigRequest { workers_count: 9 };
    let res = route(&mut state, Some(b"Bearer s3cret"), "s3cret", request);
    assert!(matches!(res, Ok(9)));
    assert_eq!(state.workers_count(), 9);
    let request = SetConfigRequest { workers_count: 0 };
    let res = route(&mut state, Some(b"s3cret \t"), "s3cret", request);
    assert!(matches!(res, Ok(0)));
}

#[test]
fn config_is_not_changed_without_the_token() {
    let values: [Option<&[u8]>; 9] = [
        None,
        Some(b""),
        Some(b"  "),
        Some(b"Bearer"),
        Some(b"Bearer wrong!"),
        Some(b"Bearer s3cre"),
        Some(b"Bearer s3cret x"),
        Some(b"Bearers3cret"),
        Some(b"\xff s3cret"),
    ];
    for value in values {
        let mut state = build_app_state();
        state.start_supervision(2);
        let res = route(&mut state, value, "s3cret", SetConfigRequest { workers_count: 9 });
        assert!(matches!(res, Err(ApiError::InvalidManageTokenError)));
        assert_eq!(state.workers_count(), 2);
    }
}

#[test]
fn an_unset_token_allows_nothing() {
    let values: [Option<&[u8]>; 3] = [None, Some(b""), Some(b" ")];
    for value in values {
        let mut state = build_app_state();
        state.start_supervision(2);
        let res = route(&mut state, value, "", SetConfigRequest { workers_count: 9 });
        assert!(matches!(res, Err(ApiError::InvalidManageTokenError)));
    }
}

#[test]
fn without_a_supervisor_the_change_is_reported_as_failed() {
    let mut state = build_app_state();
    let res = route(&mut state, Some(b"t"), "t", SetConfigRequest { workers_count: 9 });
    match res {
        Err(ApiError::UnknownError(message)) => {
            assert_eq!(message, "Worker supervisor channel not initialized")
        },
        _ => panic!("the change fails"),
    }
    assert_eq!(state.workers_count(), 9);
    assert!(!state.set_workers_count(1));
}

#[test]
fn a_sent_change_is_accepted() {
    assert!(matches!(finish_route(true), Ok(202)));
    match finish_route(false) {
        Err(ApiError::UnknownError(message)) => {
            assert_eq!(message, "Failed to update workers count")
        },
        _ => panic!("the change fails"),
    }
}

#[test]
fn headers_are_read_as_visible_ascii() {
    assert_eq!(read_header(None), None);
    assert_eq!(read_header(Some(b"a\tb ~")), Some(&b"a\tb ~"[..]));
    assert_eq!(read_header(Some(b"a\x7f")), None);
    assert_eq!(read_header(Some(b"\x1f")), None);
    assert_eq!(read_header(Some("\u{e9}".as_bytes())), None);
    assert_eq!(read_header(Some(b"")), Some(&b""[..]));
}

#[test]
fn clients_are_named_by_the_first_readable_header() {
    assert_eq!(client_agent(Some(b"a"), Some(b"b"), Some(b"c")), b"a".to_vec());
    assert_eq!(client_agent(Some(b"\x01"), Some(b"b"), Some(b"c")), b"b".to_vec());
    assert_eq!(client_agent(None, None, Some(b"c")), b"c".to_vec());
    assert_eq!(client_agent(Some(b""), Some(b"b"), None), b"".to_vec());
    assert_eq!(client_agent(None, Some(b"\xff"), None), b"".to_vec());
}

#[test]
fn slow_is_above_half_a_second() {
    assert!(!is_slow(500));
    assert!(is_slow(501));
}

#[test]
fn servers_listen_on_every_interface() {
    assert_eq!(listen_address(3300), "0.0.0.0:3300");
    assert_eq!(listen_address(0), "0.0.0.0:0");
    assert_eq!(listen_address(65535), "0.0.0.0:65535");
}

#[test]
fn endpoints_have_their_paths() {
    let table = [
        (Endpoint::GetLyricsByMetadata, Method::Get, "/api/get"),
        (Endpoint::GetLyricsByTrackId, Method::Get, "/api/get/:track_id"),
        (Endpoint::SearchLyrics, Method::Get, "/api/search"),
        (Endpoint::RequestChallenge, Method::Post, "/api/request-challenge"),
        (Endpoint::PublishLyrics, Method::Post, "/api/publish"),
        (Endpoint::FlagLyrics, Method::Post, "/api/flag"),
        (Endpoint::SetConfig, Method::Post, "/api/manage/set-config"),
    ];
    for (endpoint, method, path) in table {
        assert_eq!(endpoint.method(), method);
        assert_eq!(endpoint.path(), path);
    }
}

#[test]
fn caches_have_their_limits() {
    let limits = |live: Option<u64>, idle: Option<u64>, capacity: u64| CacheLimits {
        time_to_live: live,
        time_to_idle: idle,
        max_capacity: capacity,
    };
    assert_eq!(cache_limits(CacheKind::Challenge), limits(Some(300), None, 500000));
    assert_eq!(cache_limits(CacheKind::Get), limits(Some(604800), None, 10000000));
    assert_eq!(cache_limits(CacheKind::GetMetadata), limits(None, None, 5000000));
    assert_eq!(cache_limits(CacheKind::Search), limits(Some(86400), Some(14400), 5000000));
}

#[test]
fn the_stand_in_ignores_updates_until_they_end() {
    assert_eq!(start_queue(Some(4)), QueueStep::Ignore(4));
    assert_eq!(start_queue(None), QueueStep::Stop);
    let data = ScrapedData { plain_lyrics: None, synced_lyrics: None, instrumental: true };
    assert!(data.instrumental);
}

#[test]
fn counts_of_recent_lyrics_take_each_others_place() {
    let mut state = build_app_state();
    assert!(record_recent_lyrics(&mut state, Some(12)));
    assert!(record_recent_lyrics(&mut state, Some(5)));
    assert_eq!(state.recent_lyrics_count(), 5);
    assert!(!record_recent_lyrics(&mut state, None));
    assert_eq!(state.recent_lyrics_count(), 5);
}

#[test]
fn three_headers_are_allowed_from_other_origins() {
    assert_eq!(allowed_headers(), vec!["content-type", "x-user-agent", "lrclib-client"]);
}
