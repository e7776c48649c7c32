use arrayvec::ArrayString;
use game_of_life::label::{counter, format_label, label_buffer};

#[test]
fn format_label_pads_to_four_digits() {
    assert_eq!(format_label(0), b"Gen:0000".to_vec());
    assert_eq!(format_label(7), b"Gen:0007".to_vec());
    assert_eq!(format_label(42), b"Gen:0042".to_vec());
    assert_eq!(format_label(1000), b"Gen:1000".to_vec());
    assert_eq!(format_label(9999), b"Gen:9999".to_vec());
}

#[test]
fn format_label_keeps_four_digits_only() {
    assert_eq!(format_label(10000), b"Gen:0000".to_vec());
    assert_eq!(format_label(10007), b"Gen:0007".to_vec());
    assert_eq!(format_label(65535), b"Gen:5535".to_vec());
}

#[test]
fn counter_writes_label_text() {
    let mut buf = ArrayString::<8>::new();
    counter(&mut buf, 7);
    assert_eq!(buf.as_str(), "Gen:0007");
    let mut buf = ArrayString::<8>::new();
    counter(&mut buf, 1000);
    assert_eq!(buf.as_str(), "Gen:1000");
}

#[test]
fn label_buffer_starts_empty() {
    let buf = label_buffer();
    assert_eq!(buf.as_str(), "");
    assert_eq!(buf.capacity(), 8);
    let mut buf = label_buffer();
    counter(&mut buf, 0);
    assert_eq!(buf.as_str(), "Gen:0000");
}
