use game_of_life::codec::{pixelgetter, pixelsetter};

#[test]
fn round_trip_write_read() {
    let mut buffer = vec![0u8; 128];
    pixelsetter(&mut buffer, 9, 3, 32, 1);
    let p = pixelgetter(9, 3, &buffer, 32);
    assert_eq!(p.value, 1);
    pixelsetter(&mut buffer, 9, 3, 32, 0);
    let p = pixelgetter(9, 3, &buffer, 32);
    assert_eq!(p.value, 0);
    assert_eq!(buffer, vec![0u8; 128]);
}

#[test]
fn write_touches_single_bit() {
    let mut buffer = vec![0u8; 128];
    pixelsetter(&mut buffer, 9, 3, 32, 1);
    // Cell (9, 3) of a side-32 grid: byte 3 * 4 + 1 = 13, bit 7 - 1 = 6.
    let mut expected = vec![0u8; 128];
    expected[13] = 1 << 6;
    assert_eq!(buffer, expected);
}

#[test]
fn clear_touches_single_bit() {
    let mut buffer = vec![0xffu8; 128];
    pixelsetter(&mut buffer, 9, 3, 32, 0);
    let mut expected = vec![0xffu8; 128];
    expected[13] = 0xff & !(1 << 6);
    assert_eq!(buffer, expected);
}

#[test]
fn byte_order_msb_first() {
    for x in 0..8 {
        let mut buffer = vec![0u8; 128];
        pixelsetter(&mut buffer, x, 0, 32, 1);
        assert_eq!(buffer[0], 1 << (7 - x));
    }
}

#[test]
fn pixel_fields_resolve_packing() {
    let mut buffer = vec![0u8; 512];
    pixelsetter(&mut buffer, 63, 63, 64, 1);
    let p = pixelgetter(63, 63, &buffer, 64);
    assert_eq!(p.byteidx, 511);
    assert_eq!(p.bitidx, 7);
    assert_eq!(p.value, 1);
    assert_eq!(buffer[511], 1);
}
