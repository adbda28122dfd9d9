use playmix::icons::{contains_text, icon_candidates, icon_plan, is_media_app_lower};
use playmix::watch::{next_step, LoopAction, LoopEvent, LoopState};

fn properties(interface: &str, status: Option<&str>, art: Option<&str>) -> LoopEvent {
    LoopEvent::PropertiesChanged {
        interface: interface.to_string(),
        status: status.map(|s| s.to_string()),
        art_url: art.map(|s| s.to_string()),
    }
}

#[test]
fn connecting_leads_to_selection() {
    let (s, a) = next_step(&LoopState::Connecting, &LoopEvent::Connected);
    assert!(matches!(s, LoopState::Selecting));
    assert!(matches!(a, LoopAction::Select));
    let (s, a) = next_step(&LoopState::Connecting, &LoopEvent::TransportFailed);
    assert!(matches!(s, LoopState::Draining));
    assert!(matches!(a, LoopAction::ReconnectLater));
}

#[test]
fn selection_subscribes_or_retries() {
    let (s, a) = next_step(&LoopState::Selecting, &LoopEvent::PlayerSelected("org.mpris.MediaPlayer2.vlc".to_string()));
    assert!(matches!(s, LoopState::Subscribed(ref p) if p == "org.mpris.MediaPlayer2.vlc"));
    assert!(matches!(a, LoopAction::RefreshAndSubscribe(ref p) if p == "org.mpris.MediaPlayer2.vlc"));
    let (s, a) = next_step(&LoopState::Selecting, &LoopEvent::NoPlayer);
    assert!(matches!(s, LoopState::Selecting));
    assert!(matches!(a, LoopAction::SelectLater));
}

#[test]
fn player_exit_reselects() {
    let state = LoopState::Subscribed("org.mpris.MediaPlayer2.vlc".to_string());
    let gone = LoopEvent::OwnerChanged { name: "org.mpris.MediaPlayer2.vlc".to_string(), new_owner: String::new() };
    let (s, a) = next_step(&state, &gone);
    assert!(matches!(s, LoopState::Selecting));
    assert!(matches!(a, LoopAction::Select));
    let moved = LoopEvent::OwnerChanged { name: "org.mpris.MediaPlayer2.vlc".to_string(), new_owner: ":1.9".to_string() };
    let (s, a) = next_step(&state, &moved);
    assert!(matches!(s, LoopState::Subscribed(_)));
    assert!(matches!(a, LoopAction::Ignore));
    let other = LoopEvent::OwnerChanged { name: "org.mpris.MediaPlayer2.mpv".to_string(), new_owner: String::new() };
    assert!(matches!(next_step(&state, &other).1, LoopAction::Ignore));
}

#[test]
fn property_changes_dispatch() {
    let state = LoopState::Subscribed("org.mpris.MediaPlayer2.vlc".to_string());
    let iface = "org.mpris.MediaPlayer2.Player";
    assert!(matches!(next_step(&state, &properties(iface, Some("Stopped"), None)).1, LoopAction::RefreshAll));
    assert!(matches!(
        next_step(&state, &properties(iface, Some("Playing"), Some("file:///a.png"))).1,
        LoopAction::UpdateArt(Some(ref u)) if u == "file:///a.png"
    ));
    assert!(matches!(next_step(&state, &properties(iface, None, None)).1, LoopAction::UpdateArt(None)));
    assert!(matches!(next_step(&state, &properties("org.mpris.MediaPlayer2", Some("Stopped"), None)).1, LoopAction::Ignore));
    assert!(matches!(next_step(&state, &LoopEvent::Malformed).1, LoopAction::Ignore));
    assert!(matches!(next_step(&state, &LoopEvent::StreamEnded).1, LoopAction::Select));
    assert!(matches!(next_step(&state, &LoopEvent::TransportFailed).0, LoopState::Draining));
}

#[test]
fn media_apps_are_recognised() {
    assert!(is_media_app_lower("mozilla firefox", ""));
    assert!(is_media_app_lower("google chrome", ""));
    assert!(is_media_app_lower("something", "mpv"));
    assert!(!is_media_app_lower("mpv", "something"));
    assert!(!is_media_app_lower("", ""));
    assert!(contains_text("abc", ""));
    assert!(!contains_text("", "a"));
}

#[test]
fn icon_plan_compares_in_lower_case() {
    let plan = icon_plan("Spotify", "Spotify");
    assert!(plan.media_app);
    assert_eq!(plan.art_app, "Spotify");
    assert_eq!(plan.icons[0], "icons/Spotify.svg");
    assert_eq!(plan.icons[4], "icons/spotify.svg");
    let unnamed = icon_plan("VLC media player", "");
    assert!(unnamed.media_app);
    assert_eq!(unnamed.art_app, "vlc media player");
}

#[test]
fn icon_candidates_in_order() {
    assert_eq!(
        icon_candidates("mpv", "", "mpv"),
        vec![
            "icons/mpv.svg".to_string(),
            "icons/mpv.png".to_string(),
            "icons/mpv.jpg".to_string(),
            "icons/mpv.jpeg".to_string(),
            "icons/mpv.svg".to_string(),
            "icons/mpv.png".to_string(),
            "icons/mpv.jpg".to_string(),
            "icons/mpv.jpeg".to_string(),
        ]
    );
    assert!(icon_candidates("", "", "").is_empty());
}
