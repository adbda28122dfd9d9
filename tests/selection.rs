use playmix::selector::{
    media_players, parse_playback_status, PlaybackStatus, PlayerCandidate, PlayerSelector,
    SelectError,
};

fn candidate(name: &str, status: PlaybackStatus) -> PlayerCandidate {
    PlayerCandidate { name: name.to_string(), status }
}

#[test]
fn sole_playing_player_is_selected_and_remembered() {
    let mut selector = PlayerSelector::new();
    selector.last_active = Some("org.mpris.MediaPlayer2.vlc".to_string());
    let candidates = vec![
        candidate("org.mpris.MediaPlayer2.vlc", PlaybackStatus::Paused),
        candidate("org.mpris.MediaPlayer2.spotify", PlaybackStatus::Playing),
        candidate("org.mpris.MediaPlayer2.mpv", PlaybackStatus::Stopped),
    ];
    let chosen = selector.select_active(&candidates);
    assert_eq!(chosen, Ok("org.mpris.MediaPlayer2.spotify".to_string()));
    assert_eq!(selector.last_active, Some("org.mpris.MediaPlayer2.spotify".to_string()));
}

#[test]
fn first_playing_player_wins_among_several() {
    let mut selector = PlayerSelector::new();
    let candidates = vec![
        candidate("org.mpris.MediaPlayer2.a", PlaybackStatus::Unknown),
        candidate("org.mpris.MediaPlayer2.b", PlaybackStatus::Playing),
        candidate("org.mpris.MediaPlayer2.c", PlaybackStatus::Playing),
    ];
    assert_eq!(selector.select_active(&candidates), Ok("org.mpris.MediaPlayer2.b".to_string()));
}

#[test]
fn remembered_player_is_kept_when_none_plays() {
    let mut selector = PlayerSelector::new();
    selector.last_active = Some("org.mpris.MediaPlayer2.spotify".to_string());
    let candidates = vec![
        candidate("org.mpris.MediaPlayer2.firefox", PlaybackStatus::Paused),
        candidate("org.mpris.MediaPlayer2.spotify", PlaybackStatus::Paused),
    ];
    let chosen = selector.select_active(&candidates);
    assert_eq!(chosen, Ok("org.mpris.MediaPlayer2.spotify".to_string()));
    assert_eq!(selector.last_active, Some("org.mpris.MediaPlayer2.spotify".to_string()));
}

#[test]
fn first_candidate_when_nothing_plays_and_memory_is_stale() {
    let mut selector = PlayerSelector::new();
    selector.last_active = Some("org.mpris.MediaPlayer2.gone".to_string());
    let candidates = vec![
        candidate("org.mpris.MediaPlayer2.firefox", PlaybackStatus::Stopped),
        candidate("org.mpris.MediaPlayer2.spotify", PlaybackStatus::Paused),
    ];
    let chosen = selector.select_active(&candidates);
    assert_eq!(chosen, Ok("org.mpris.MediaPlayer2.firefox".to_string()));
    assert_eq!(selector.last_active, Some("org.mpris.MediaPlayer2.gone".to_string()));
    assert_eq!(selector.select_active(&candidates), chosen);
}

#[test]
fn first_candidate_when_nothing_is_remembered() {
    let mut selector = PlayerSelector::new();
    let candidates = vec![
        candidate("org.mpris.MediaPlayer2.mpv", PlaybackStatus::Unknown),
        candidate("org.mpris.MediaPlayer2.firefox", PlaybackStatus::Paused),
    ];
    assert_eq!(selector.select_active(&candidates), Ok("org.mpris.MediaPlayer2.mpv".to_string()));
    assert_eq!(selector.last_active, None);
}

#[test]
fn no_candidates_is_no_player_found() {
    let mut selector = PlayerSelector::new();
    selector.last_active = Some("org.mpris.MediaPlayer2.spotify".to_string());
    assert_eq!(selector.select_active(&vec![]), Err(SelectError::NoPlayerFound));
    assert_eq!(selector.last_active, Some("org.mpris.MediaPlayer2.spotify".to_string()));
}

#[test]
fn status_texts_are_read() {
    assert_eq!(parse_playback_status("Playing"), PlaybackStatus::Playing);
    assert_eq!(parse_playback_status("Paused"), PlaybackStatus::Paused);
    assert_eq!(parse_playback_status("Stopped"), PlaybackStatus::Stopped);
    assert_eq!(parse_playback_status("playing"), PlaybackStatus::Unknown);
    assert_eq!(parse_playback_status(""), PlaybackStatus::Unknown);
}

#[test]
fn bus_names_are_filtered_to_media_players() {
    let names = vec![
        "org.freedesktop.DBus".to_string(),
        "org.mpris.MediaPlayer2.spotify".to_string(),
        "org.mpris.MediaPlayer2.playerctld".to_string(),
        ":1.42".to_string(),
        "org.mpris.MediaPlayer2.firefox.instance_1_8".to_string(),
        "org.mpris.MediaPlayer2".to_string(),
    ];
    assert_eq!(
        media_players(&names),
        vec![
            "org.mpris.MediaPlayer2.spotify".to_string(),
            "org.mpris.MediaPlayer2.firefox.instance_1_8".to_string(),
        ]
    );
}
