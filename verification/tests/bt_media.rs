use soundsync::bluetooth::avrcp::{PlaybackStatus, TrackMetadata};
use soundsync::bluetooth::media::{candidates_of, device_prefix, find_active_player, media_info_from, select_player, with_art, ArtCache, BusObject, ManagerAction, ManagerEvent, MediaManager, MediaSession, PlayerCandidate, SessionNext, TrackKey, PLAYER_POLL_SECS, RECONNECT_BACKOFF_SECS};

fn p(s: &str) -> String {
    s.to_string()
}

fn cand(path: &str, device_active: bool, playing: bool) -> PlayerCandidate {
    PlayerCandidate {
        path: p(path),
        device_active,
        playing,
    }
}

const DEV_A: &str = "/org/bluez/hci0/dev_44_4A_DB_B4_E7_0D/player0";

const DEV_B: &str = "/org/bluez/hci0/dev_80_49_71_15_3C_00/player0";

#[test]
fn select_player_is_deterministic_when_two_devices_are_active() {
    let forward = select_player(vec![cand(DEV_A, true, true), cand(DEV_B, true, true)], None);
    let reversed = select_player(vec![cand(DEV_B, true, true), cand(DEV_A, true, true)], None);
    assert_eq!(forward, Some(p(DEV_A)));
    assert_eq!(reversed, Some(p(DEV_A)));
}

#[test]
fn select_player_sticks_to_current_when_it_still_qualifies() {
    let current = p(DEV_B);
    let chosen = select_player(
        vec![cand(DEV_A, true, true), cand(DEV_B, true, true)],
        Some(&current),
    );
    assert_eq!(chosen, Some(p(DEV_B)));
}

#[test]
fn select_player_switches_when_current_drops_out_of_the_pool() {
    let current = p(DEV_B);
    let chosen = select_player(
        vec![cand(DEV_A, true, false), cand(DEV_B, false, false)],
        Some(&current),
    );
    assert_eq!(chosen, Some(p(DEV_A)));
}

#[test]
fn select_player_prefers_active_device_over_merely_playing() {
    let chosen = select_player(
        vec![cand(DEV_A, false, true), cand(DEV_B, true, false)],
        None,
    );
    assert_eq!(chosen, Some(p(DEV_B)));
}

#[test]
fn select_player_falls_back_to_first_when_none_active_or_playing() {
    let chosen = select_player(
        vec![cand(DEV_B, false, false), cand(DEV_A, false, false)],
        None,
    );
    assert_eq!(chosen, Some(p(DEV_A)));
}

#[test]
fn select_player_returns_none_with_no_candidates() {
    assert_eq!(select_player(vec![], None), None);
}

#[test]
fn device_prefix_extracts_from_player_path() {
    assert_eq!(
        device_prefix("/org/bluez/hci0/dev_44_4A_DB_B4_E7_0D/player0"),
        Some("/org/bluez/hci0/dev_44_4A_DB_B4_E7_0D".to_string())
    );
}

#[test]
fn device_prefix_extracts_from_transport_path() {
    assert_eq!(
        device_prefix("/org/bluez/hci0/dev_44_4A_DB_B4_E7_0D/sep1/fd2"),
        Some("/org/bluez/hci0/dev_44_4A_DB_B4_E7_0D".to_string())
    );
}

#[test]
fn device_prefix_same_device_for_player_and_transport() {
    let player = device_prefix("/org/bluez/hci0/dev_44_4A_DB_B4_E7_0D/player0").unwrap();
    let transport = device_prefix("/org/bluez/hci0/dev_44_4A_DB_B4_E7_0D/sep1/fd2").unwrap();
    assert_eq!(player, transport);
}

#[test]
fn device_prefix_returns_none_for_path_without_dev() {
    assert_eq!(device_prefix("/org/bluez/hci0"), None);
    assert_eq!(device_prefix("/"), None);
}

#[test]
fn builds_media_info_from_model() {
    let track = TrackMetadata {
        title: Some("Song".into()),
        artist: Some("Artist".into()),
        album: Some("Album".into()),
        duration_ms: Some(210_000),
    };
    let info = media_info_from(PlaybackStatus::Playing, &track, Some(1500));
    assert_eq!(info.status, "playing");
    assert_eq!(info.title.as_deref(), Some("Song"));
    assert_eq!(info.artist.as_deref(), Some("Artist"));
    assert_eq!(info.album.as_deref(), Some("Album"));
    assert_eq!(info.duration_ms, Some(210_000));
    assert_eq!(info.position_ms, Some(1500));
}

#[test]
fn empty_track_paused_has_no_fields() {
    let info = media_info_from(PlaybackStatus::Paused, &TrackMetadata::default(), None);
    assert_eq!(info.status, "paused");
    assert_eq!(info.title, None);
    assert_eq!(info.duration_ms, None);
    assert_eq!(info.position_ms, None);
}

#[test]
fn art_is_looked_up_once_for_each_track() {
    let track = |title: &str| TrackMetadata {
        title: Some(title.to_string()),
        artist: Some("Artist".to_string()),
        album: Some("Album".to_string()),
        duration_ms: None,
    };
    let report = |title: &str| media_info_from(PlaybackStatus::Playing, &track(title), None);
    let mut cache = ArtCache::new();
    let (shown, lookup) = cache.report(report("One"));
    assert_eq!(shown.artwork_url, None);
    let lookup = lookup.expect("a new track is looked up");
    assert_eq!(lookup.album, "Album");
    let url = "https://e.org/a.jpg".to_string();
    assert!(cache.found(&lookup.key, &url));
    let (shown, again) = cache.report(report("One"));
    assert_eq!(shown.artwork_url.as_deref(), Some("https://e.org/a.jpg"));
    assert!(again.is_none());
    assert_eq!(
        with_art(&Some(report("One")), &lookup.key, &url).unwrap().artwork_url,
        Some(url.clone())
    );
    assert!(with_art(&Some(report("Two")), &lookup.key, &url).is_none());
    let (_, other) = cache.report(report("Two"));
    assert!(other.is_some());
    assert!(!cache.found(&lookup.key, &url));
    let key = TrackKey { title: "Two".to_string(), artist: "Artist".to_string() };
    assert!(cache.found(&key, &url));
}

#[test]
fn a_session_ends_after_five_failures_in_a_row() {
    let mut s = MediaSession::new("/p".to_string());
    for _ in 0..4 {
        assert_eq!(s.called(false), SessionNext::Stay);
    }
    assert_eq!(s.called(true), SessionNext::Stay);
    for _ in 0..4 {
        assert_eq!(s.called(false), SessionNext::Stay);
    }
    assert_eq!(s.called(false), SessionNext::Reconnect);
    assert_eq!(s.signalled("org.bluez.MediaPlayer1"), SessionNext::Read);
    assert_eq!(s.signalled("org.bluez.Device1"), SessionNext::Stay);
}

#[test]
fn no_objects_offer_no_player() {
    let none: Vec<BusObject> = Vec::new();
    assert!(candidates_of(&none).is_empty());
    assert_eq!(find_active_player(&none, None), None);
}

#[test]
fn a_new_track_is_published_without_art() {
    let track = TrackMetadata { title: Some(p("One")), ..TrackMetadata::default() };
    let mut info = media_info_from(PlaybackStatus::Playing, &track, None);
    info.artwork_url = Some(p("https://art/of/another"));
    let (shown, lookup) = ArtCache::new().report(info);
    assert_eq!(shown.artwork_url, None);
    assert!(lookup.is_some());
}

fn following() -> MediaManager {
    let mut m = MediaManager::new();
    assert_eq!(m.on_event(ManagerEvent::Done), ManagerAction::Connect { unmatch: false });
    assert_eq!(m.on_event(ManagerEvent::Done), ManagerAction::Look);
    assert_eq!(m.on_event(ManagerEvent::Done), ManagerAction::Match);
    assert_eq!(m.on_event(ManagerEvent::Done), ManagerAction::Read);
    m
}

#[test]
fn what_failed_is_tried_again_after_a_while() {
    let backoff = ManagerAction::Pause { clear: false, secs: RECONNECT_BACKOFF_SECS };
    let mut m = MediaManager::new();
    m.on_event(ManagerEvent::Done);
    assert_eq!(m.on_event(ManagerEvent::Failed), backoff);
    assert_eq!(m.on_event(ManagerEvent::Done), ManagerAction::Connect { unmatch: false });
    assert_eq!(m.on_event(ManagerEvent::Done), ManagerAction::Look);
    let poll = ManagerAction::Pause { clear: true, secs: PLAYER_POLL_SECS };
    assert_eq!(m.on_event(ManagerEvent::Failed), poll);
    assert_eq!(m.on_event(ManagerEvent::Done), ManagerAction::Look);
    assert_eq!(m.on_event(ManagerEvent::Done), ManagerAction::Match);
    assert_eq!(m.on_event(ManagerEvent::Failed), backoff);
    assert_eq!(m.on_event(ManagerEvent::Shutdown), ManagerAction::Return { unmatch: false });
}

#[test]
fn a_session_is_left_in_its_own_way() {
    let mut m = following();
    assert_eq!(m.on_event(ManagerEvent::Session(SessionNext::Stay)), ManagerAction::Listen);
    assert_eq!(m.on_event(ManagerEvent::Session(SessionNext::Read)), ManagerAction::Read);
    assert_eq!(
        m.on_event(ManagerEvent::Session(SessionNext::Reconnect)),
        ManagerAction::Connect { unmatch: true }
    );
    assert_eq!(
        following().on_event(ManagerEvent::StreamEnded),
        ManagerAction::Connect { unmatch: false }
    );
    for end in [ManagerEvent::SenderGone, ManagerEvent::Shutdown] {
        assert_eq!(following().on_event(end), ManagerAction::Return { unmatch: true });
    }
}
