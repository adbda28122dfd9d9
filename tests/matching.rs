use playmix::matcher::{
    art_source_order, find_players_for_app, match_sink_to_player, players_of_lowercase_app,
    position_in, sort_ids, sort_texts,
};

fn strings(v: &[&str]) -> Vec<String> {
    v.iter().map(|s| s.to_string()).collect()
}

#[test]
fn middle_stream_matches_middle_player() {
    let players = strings(&["p1", "p2", "p3"]);
    assert_eq!(match_sink_to_player(7, &vec![3, 7, 9], &players), Some("p2".to_string()));
}

#[test]
fn more_streams_than_players_is_no_match() {
    let players = strings(&["p1"]);
    assert_eq!(match_sink_to_player(7, &vec![3, 7], &players), None);
    assert_eq!(match_sink_to_player(3, &vec![3, 7], &players), None);
}

#[test]
fn matching_sorts_both_sides() {
    let players = strings(&[
        "org.mpris.MediaPlayer2.firefox.instance_3",
        "org.mpris.MediaPlayer2.firefox.instance_1",
        "org.mpris.MediaPlayer2.firefox.instance_2",
    ]);
    assert_eq!(
        match_sink_to_player(9, &vec![9, 3, 7], &players),
        Some("org.mpris.MediaPlayer2.firefox.instance_3".to_string())
    );
    assert_eq!(
        match_sink_to_player(3, &vec![9, 3, 7], &players),
        Some("org.mpris.MediaPlayer2.firefox.instance_1".to_string())
    );
}

#[test]
fn unknown_stream_is_no_match() {
    let players = strings(&["p1", "p2"]);
    assert_eq!(match_sink_to_player(5, &vec![3, 7], &players), None);
    assert_eq!(match_sink_to_player(5, &vec![], &players), None);
}

#[test]
fn art_sources_put_the_match_first() {
    let players = strings(&["p3", "p1", "p2"]);
    assert_eq!(art_source_order(7, &vec![9, 7, 3], &players), strings(&["p2", "p1", "p2", "p3"]));
    assert_eq!(art_source_order(7, &vec![3, 7], &strings(&["p1"])), Vec::<String>::new());
    assert_eq!(art_source_order(4, &vec![3, 7], &players), Vec::<String>::new());
}

#[test]
fn ids_sort_ascending() {
    assert_eq!(sort_ids(&vec![9, 3, 7, 3, 0]), vec![0, 3, 3, 7, 9]);
    assert_eq!(sort_ids(&vec![]), Vec::<usize>::new());
}

#[test]
fn names_sort_lexicographically() {
    let v = strings(&["b", "ab", "a", "", "B", "abc"]);
    assert_eq!(sort_texts(&v), strings(&["", "B", "a", "ab", "abc", "b"]));
}

#[test]
fn position_is_first_occurrence() {
    assert_eq!(position_in(&vec![3, 7, 7, 9], 7), Some(1));
    assert_eq!(position_in(&vec![3, 7, 9], 4), None);
}

#[test]
fn players_of_an_app_share_its_prefix() {
    let names = strings(&[
        "org.mpris.MediaPlayer2.firefox.instance_1",
        "org.mpris.MediaPlayer2.spotify",
        "org.freedesktop.DBus",
        "org.mpris.MediaPlayer2.firefox.instance_2",
    ]);
    let expected = strings(&[
        "org.mpris.MediaPlayer2.firefox.instance_1",
        "org.mpris.MediaPlayer2.firefox.instance_2",
    ]);
    assert_eq!(players_of_lowercase_app(&names, "firefox"), expected);
    assert_eq!(find_players_for_app(&names, "FireFox"), expected);
    assert_eq!(players_of_lowercase_app(&names, "FireFox"), Vec::<String>::new());
}
