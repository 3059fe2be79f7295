use system76_support::control::{parse_field_line, parse_stanza, serialize_stanza, DecodeError, Field};
use system76_support::decoder::{ControlDecoder, DiversionDecoder, DiversionRecord};
use system76_support::search::{contains_bytes, find};

fn field(key: &str, value: &str) -> Field {
    Field { key: key.as_bytes().to_vec(), value: value.as_bytes().to_vec() }
}

#[test]
fn stanza_round_trip() {
    let fields = vec![
        field("Package", "nvidia-driver-440"),
        field("Status", "install ok installed"),
        field("Architecture", "amd64"),
        field("Depends", "libc6 (>= 2.2.5), nvidia-kernel-common-440"),
    ];
    let text = serialize_stanza(&fields);
    assert_eq!(
        text,
        b"Package: nvidia-driver-440\nStatus: install ok installed\nArchitecture: amd64\nDepends: libc6 (>= 2.2.5), nvidia-kernel-common-440".to_vec()
    );
    assert_eq!(parse_stanza(&text), Ok(fields));
}

#[test]
fn stanza_round_trip_empty_value() {
    let fields = vec![field("Package", "x"), field("Conffiles", "")];
    let text = serialize_stanza(&fields);
    assert_eq!(parse_stanza(&text), Ok(fields));
}

#[test]
fn field_value_loses_leading_blanks() {
    assert_eq!(parse_field_line(b"Key:\t  value: more"), Some(field("Key", "value: more")));
    assert_eq!(parse_field_line(b"Key:"), Some(field("Key", "")));
}

#[test]
fn field_without_colon_or_key_is_malformed() {
    assert_eq!(parse_field_line(b"no colon here"), None);
    assert_eq!(parse_field_line(b": value"), None);
    assert_eq!(parse_stanza(b"Package: a\ngarbage"), Err(DecodeError::MalformedField));
    assert_eq!(parse_stanza(b""), Err(DecodeError::MalformedField));
}

#[test]
fn continuation_lines_extend_the_value() {
    let text = b"Package: a\nDescription: short\n long line\n .\nArchitecture: all";
    assert_eq!(
        parse_stanza(text),
        Ok(vec![
            field("Package", "a"),
            field("Description", "short\n long line\n ."),
            field("Architecture", "all"),
        ])
    );
    assert_eq!(parse_stanza(b" leading continuation"), Err(DecodeError::MalformedField));
}

#[test]
fn unknown_keys_are_kept() {
    assert_eq!(parse_stanza(b"Package: a\nX-Whatever: 1"), Ok(vec![field("Package", "a"), field("X-Whatever", "1")]));
}

#[test]
fn control_decoder_splits_on_blank_lines() {
    let mut d = ControlDecoder::new();
    d.feed(b"\n\nPackage: a\nArch");
    assert_eq!(d.next_frame(), None);
    d.feed(b"itecture: all\n\nPackage: b\n");
    assert_eq!(d.next_frame(), Some(b"Package: a\nArchitecture: all".to_vec()));
    assert_eq!(d.next_frame(), None);
    d.feed(b"Architecture: amd64\n\n\n");
    assert_eq!(d.next_frame(), Some(b"Package: b\nArchitecture: amd64".to_vec()));
    assert_eq!(d.next_frame(), None);
    assert_eq!(d.finish_frame(), None);
}

#[test]
fn control_decoder_finish_yields_last_stanza() {
    let mut d = ControlDecoder::new();
    d.feed(b"Package: a\n\nPackage: b\n");
    assert_eq!(d.finish_frame(), Some(b"Package: a".to_vec()));
    assert_eq!(d.finish_frame(), Some(b"Package: b".to_vec()));
    assert_eq!(d.finish_frame(), None);
}

#[test]
fn control_decoder_empty_stream() {
    let mut d = ControlDecoder::new();
    assert_eq!(d.next_frame(), None);
    assert_eq!(d.finish_frame(), None);
}

#[test]
fn diversion_decoder_reads_three_lines() {
    let mut d = DiversionDecoder::new();
    d.feed(b"/a\n/b\nnvidia-driver-440\n/c\n");
    assert_eq!(
        d.next_record(),
        Some(DiversionRecord { by: b"nvidia-driver-440".to_vec(), from: b"/a".to_vec(), to: b"/b".to_vec() })
    );
    assert_eq!(d.next_record(), None);
    d.feed(b"/d\n:\n");
    assert_eq!(
        d.finish_record(),
        Ok(Some(DiversionRecord { by: b":".to_vec(), from: b"/c".to_vec(), to: b"/d".to_vec() }))
    );
    assert_eq!(d.finish_record(), Ok(None));
}

#[test]
fn diversion_decoder_truncated_entry() {
    let mut d = DiversionDecoder::new();
    d.feed(b"/a\n/b\n");
    assert_eq!(d.finish_record(), Err(DecodeError::UnexpectedEnd));
}

#[test]
fn search_finds_first_occurrence() {
    assert_eq!(find(b"libnvidia-nvidia", b"nvidia"), Some(3));
    assert_eq!(find(b"abc", b"d"), None);
    assert_eq!(find(b"abc", b""), Some(0));
    assert!(contains_bytes(b"libnvidia-common", b"nvidia"));
    assert!(!contains_bytes(b"NVIDIA-settings", b"nvidia"));
    assert!(!contains_bytes(b"nv", b"nvidia"));
}

#[test]
fn stanza_stream_round_trip() {
    let fields = vec![field("Package", "nvidia-container-runtime"), field("Architecture", "all")];
    let mut stream = serialize_stanza(&fields);
    stream.extend_from_slice(b"\n\n");
    let mut d = ControlDecoder::new();
    d.feed(&stream[..7]);
    assert_eq!(d.next_frame(), None);
    d.feed(&stream[7..]);
    let frame = d.next_frame().unwrap();
    assert_eq!(parse_stanza(&frame), Ok(fields));
    assert_eq!(d.finish_frame(), None);
}
