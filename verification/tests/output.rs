use modem::output::{delivery, hex_dump_lines, is_printable, Delivery};
use modem::report::{chip_label, event_line, FrameMark, FrameStatus, FrameTimeline, MAX_TIMELINE};
use modem::rx::FrameEvent;

#[test]
fn printable_text() {
    assert!(is_printable(b"hello\tworld\r\n"));
    assert!(is_printable("héllo ✓".as_bytes()));
    assert!(is_printable(b""));
    assert!(!is_printable(b"bell\x07"));
    assert!(!is_printable(b"\x7f"));
    assert!(!is_printable("\u{85}".as_bytes()));
    assert!(!is_printable(&[0xff, 0x41]));
    assert!(!is_printable(&[0xc3]));
    assert!(!is_printable(&[0xed, 0xa0, 0x80]));
}

#[test]
fn delivery_prefers_a_file_then_hex_then_text() {
    assert_eq!(delivery(true, true, b"\x00"), Delivery::File);
    assert_eq!(delivery(false, true, b"text"), Delivery::HexDump);
    assert_eq!(delivery(false, false, b"\x00"), Delivery::HexDump);
    assert_eq!(delivery(false, false, b"text"), Delivery::Text);
}

#[test]
fn hex_dump_lines_show_offset_hex_and_ascii() {
    let bytes: Vec<u8> = (0x3c..0x3c + 20).collect();
    let lines: Vec<String> = hex_dump_lines(&bytes).into_iter().map(|l| String::from_utf8(l).unwrap()).collect();
    assert_eq!(lines.len(), 2);
    assert_eq!(
        lines[0],
        "00000000  3c 3d 3e 3f 40 41 42 43 44 45 46 47 48 49 4a 4b   <=>?@ABCDEFGHIJK"
    );
    assert_eq!(
        lines[1],
        format!("00000010  4c 4d 4e 4f {}  LMNO", " ".repeat(36))
    );
    assert!(hex_dump_lines(&[]).is_empty());
    let odd = hex_dump_lines(&[0x00, 0x20, 0x7f, 0xff]);
    assert_eq!(String::from_utf8(odd[0].clone()).unwrap(), format!("00000000  00 20 7f ff {}  . ..", " ".repeat(36)));
}

#[test]
fn hex_dump_matches_the_formatted_layout() {
    let bytes: Vec<u8> = (0..300u32).map(|i| (i * 7 % 256) as u8).collect();
    let lines = hex_dump_lines(&bytes);
    assert_eq!(lines.len(), 19);
    for (i, chunk) in bytes.chunks(16).enumerate() {
        let hex: String = chunk.iter().map(|x| format!("{x:02x} ")).collect();
        let ascii: String =
            chunk.iter().map(|&x| if x.is_ascii_graphic() || x == b' ' { x as char } else { '.' }).collect();
        let expected = format!("{:08x}  {:<48}  {}", i * 16, hex, ascii);
        assert_eq!(String::from_utf8(lines[i].clone()).unwrap(), expected);
    }
}

#[test]
fn plain_event_lines() {
    assert_eq!(event_line(&FrameEvent::FrameOk { seq: 3, bytes: vec![0; 219] }), "  frame 3 ok (219 bytes)");
    assert_eq!(
        event_line(&FrameEvent::FrameDropped { seq: 4, reason: "CRC mismatch".to_string() }),
        "  frame 4 dropped: CRC mismatch"
    );
    assert_eq!(
        event_line(&FrameEvent::StreamComplete { bytes: vec![1; 12], sha256_ok: true }),
        "✓ 12 bytes received, sha256 ok"
    );
    assert_eq!(
        event_line(&FrameEvent::StreamComplete { bytes: vec![], sha256_ok: false }),
        "✓ 0 bytes received, sha256 MISMATCH"
    );
}

#[test]
fn the_timeline_keeps_the_most_recent_frames_and_counts_all() {
    let mut t = FrameTimeline::new();
    for seq in 0..70u32 {
        let e = if seq % 10 == 9 {
            FrameEvent::FrameDropped { seq, reason: "RS uncorrectable".to_string() }
        } else {
            FrameEvent::FrameOk { seq, bytes: vec![] }
        };
        t.on_frame(&e);
    }
    t.on_frame(&FrameEvent::StreamComplete { bytes: vec![], sha256_ok: true });
    assert_eq!(t.marks().len(), MAX_TIMELINE);
    assert_eq!(t.marks()[0].seq, 6);
    assert_eq!(t.marks()[63], FrameMark { seq: 69, status: FrameStatus::Dropped });
    assert_eq!(t.total_ok(), 63);
    assert_eq!(t.total_dropped(), 7);
}

#[test]
fn timeline_chips() {
    assert_eq!(chip_label(FrameMark { seq: 12, status: FrameStatus::Received }), "[ok 12]");
    assert_eq!(chip_label(FrameMark { seq: 0, status: FrameStatus::Dropped }), "[DROP 0]");
}
