use base64::Engine;
use playmix::art::{
    classify_art_reference, data_url_of, embed_payload, payload_with_type, ArtReference,
    FetchError,
};

const PNG_HEAD: [u8; 8] = [0x89, 0x50, 0x4E, 0x47, 0x0D, 0x0A, 0x1A, 0x0A];

fn decode(payload: &str) -> (String, Vec<u8>) {
    let rest = payload.strip_prefix("data:").unwrap();
    let cut = rest.rfind(';').unwrap();
    let media_type = rest[..cut].to_string();
    let encoded = rest[cut..].strip_prefix(";base64,").unwrap();
    (media_type, base64::engine::general_purpose::STANDARD.decode(encoded).unwrap())
}

#[test]
fn empty_payload_is_an_error() {
    assert_eq!(embed_payload(&[]), Err(FetchError::Empty));
    assert_eq!(payload_with_type(Some("image/png"), &[]), Err(FetchError::Empty));
}

#[test]
fn sniffed_png_is_typed() {
    let payload = embed_payload(&PNG_HEAD).unwrap();
    assert_eq!(payload, "data:image/png;base64,iVBORw0KGgo=");
}

#[test]
fn unknown_bytes_fall_back_to_octet_stream() {
    assert_eq!(embed_payload(b"Man").unwrap(), "data:application/octet-stream;base64,TWFu");
}

#[test]
fn base64_padding() {
    assert_eq!(data_url_of("text/plain", b"M"), "data:text/plain;base64,TQ==");
    assert_eq!(data_url_of("text/plain", b"Ma"), "data:text/plain;base64,TWE=");
    assert_eq!(data_url_of("text/plain", b""), "data:text/plain;base64,");
    assert_eq!(payload_with_type(None, b"hello world").unwrap(), "data:application/octet-stream;base64,aGVsbG8gd29ybGQ=");
}

#[test]
fn payload_round_trip() {
    let mut bytes: Vec<u8> = PNG_HEAD.to_vec();
    bytes.extend((0..=255u8).rev());
    let payload = embed_payload(&bytes).unwrap();
    assert_eq!(decode(&payload), ("image/png".to_string(), bytes));
    let odd = payload_with_type(Some("a;b"), &[1, 2, 3, 4]).unwrap();
    assert_eq!(decode(&odd), ("a;b".to_string(), vec![1, 2, 3, 4]));
}

#[test]
fn references_are_told_apart() {
    match classify_art_reference("data:image/png;base64,AAAA") {
        ArtReference::Embedded(s) => assert_eq!(s, "data:image/png;base64,AAAA"),
        _ => panic!("expected an embedded payload"),
    }
    match classify_art_reference("file:///tmp/cover.jpg") {
        ArtReference::LocalPath(p) => assert_eq!(p, "/tmp/cover.jpg"),
        _ => panic!("expected a local path"),
    }
    match classify_art_reference("file://file:///x") {
        ArtReference::LocalPath(p) => assert_eq!(p, "/x"),
        _ => panic!("expected a local path"),
    }
    match classify_art_reference("file:/x") {
        ArtReference::LocalPath(p) => assert_eq!(p, "file:/x"),
        _ => panic!("expected a local path"),
    }
    match classify_art_reference("https://i.scdn.co/image/ab67") {
        ArtReference::Remote(u) => assert_eq!(u, "https://i.scdn.co/image/ab67"),
        _ => panic!("expected a remote URL"),
    }
}
