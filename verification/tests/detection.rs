use ani2hyprtui::pipeline::win2xcur::ani::AniParser;
use ani2hyprtui::pipeline::win2xcur::cur::CurParser;
use ani2hyprtui::pipeline::win2xcur::CursorFormat;

#[test]
fn test_ani_detection() {
    let valid = b"RIFF\x00\x00\x00\x00ACON";
    assert!(AniParser::can_parse(valid));

    let invalid = b"RIFF\x00\x00\x00\x00WAVE";
    assert!(!AniParser::can_parse(invalid));
}

#[test]
fn test_magic_detection() {
    let valid = vec![0x00, 0x00, 0x02, 0x00, 0x01, 0x00];
    assert!(CurParser::can_parse(&valid));

    let invalid = vec![0x00, 0x00, 0x01, 0x00];
    assert!(!CurParser::can_parse(&invalid));
}

#[test]
fn test_cursor_format_detection() {
    // CUR format
    let cur_data = vec![0x00, 0x00, 0x02, 0x00, 0x01, 0x00];
    assert_eq!(CursorFormat::detect(&cur_data), Some(CursorFormat::Cur));

    // ANI format
    let ani_data = b"RIFF\x00\x00\x00\x00ACON";
    assert_eq!(CursorFormat::detect(ani_data), Some(CursorFormat::Ani));

    // Invalid
    let invalid = vec![0xFF, 0xFF, 0xFF, 0xFF];
    assert_eq!(CursorFormat::detect(&invalid), None);
}

#[test]
fn detection_needs_the_whole_signature() {
    assert_eq!(CursorFormat::detect(&[]), None);
    assert_eq!(CursorFormat::detect(&[0x00, 0x00, 0x02]), None);
    assert_eq!(CursorFormat::detect(b"RIFF\x00\x00\x00\x00ACO"), None);
    assert!(!AniParser::can_parse(b"RIFF"));
    assert!(!CurParser::can_parse(&[]));
}
