use playmix::mixer::{short_listing_ids, sink_inputs_of_app, stream_app, stream_attribute_of};

const LONG: &str = "Sink Input #42\n\tDriver: PipeWire\n\tProperties:\n\t\tapplication.name = \"Firefox\"\n\t\tapplication.process.binary = \"firefox\"\nSink Input #7\r\n\t\tapplication.name = \"Spotify\"\r\n\t\tapplication.process.binary = \"spotify\"\r\nSink Input #13\n\t\tapplication.process.binary = \"firefox\"\n";

#[test]
fn streams_of_an_app_in_listing_order() {
    assert_eq!(sink_inputs_of_app(LONG.as_bytes(), b"firefox"), vec![42, 13]);
    assert_eq!(sink_inputs_of_app(LONG.as_bytes(), b"spotify"), vec![7]);
    assert_eq!(sink_inputs_of_app(LONG.as_bytes(), b"fire"), Vec::<usize>::new());
    assert_eq!(sink_inputs_of_app(b"", b"firefox"), Vec::<usize>::new());
}

#[test]
fn last_record_counts_without_final_newline() {
    let text = "Sink Input #5\n application.process.binary = \"mpv\"";
    assert_eq!(sink_inputs_of_app(text.as_bytes(), b"mpv"), vec![5]);
}

#[test]
fn record_with_unreadable_id_is_dropped() {
    let text = "Sink Input #x1\n application.process.binary = \"mpv\"\nSink Input #+8\n application.process.binary = \"mpv\"\n";
    assert_eq!(sink_inputs_of_app(text.as_bytes(), b"mpv"), vec![8]);
}

#[test]
fn record_with_oversized_id_is_dropped() {
    let text = "Sink Input #99999999999999999999999\n application.process.binary = \"mpv\"\n";
    assert_eq!(sink_inputs_of_app(text.as_bytes(), b"mpv"), Vec::<usize>::new());
}

#[test]
fn short_listing_gives_one_entry_per_line() {
    let text = "42\t55\tPipeWire\tfloat32le 2ch 48000Hz\n\n  7 56 PipeWire\r\nbad line\n";
    assert_eq!(short_listing_ids(text.as_bytes()), vec![Some(42), Some(7), None]);
    assert_eq!(short_listing_ids(b""), Vec::<Option<usize>>::new());
}

#[test]
fn stream_app_reads_its_record() {
    let app = stream_app(LONG.as_bytes(), 7);
    assert_eq!(app.name, b"Spotify".to_vec());
    assert_eq!(app.binary, b"spotify".to_vec());
}

#[test]
fn stream_app_defaults() {
    let app = stream_app(LONG.as_bytes(), 13);
    assert_eq!(app.name, b"Unknown".to_vec());
    assert_eq!(app.binary, b"firefox".to_vec());
    let missing = stream_app(LONG.as_bytes(), 4);
    assert_eq!(missing.name, b"Unknown".to_vec());
    assert_eq!(missing.binary, Vec::<u8>::new());
}

#[test]
fn header_ids_match_exactly() {
    let text = "Sink Input #12\n application.name = \"Twelve\"\nSink Input #1\n application.name = \"One\"\n";
    assert_eq!(stream_attribute_of(text.as_bytes(), 1, b"application.name"), Some(b"One".to_vec()));
    assert_eq!(stream_attribute_of(text.as_bytes(), 12, b"application.name"), Some(b"Twelve".to_vec()));
}
