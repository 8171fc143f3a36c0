use sharp_memory_lcd::texture::{decode, encode};
use sharp_memory_lcd::DisplayError;

#[test]
fn round_trip_widths_8_16_24() {
    for &(width, height) in [(8u16, 3u16), (16, 2), (24, 4), (8, 0)].iter() {
        let rl = ((width + 7) / 8) as usize;
        let rows: Vec<Vec<u8>> = (0..height as usize)
            .map(|y| (0..rl).map(|i| (y * 31 + i * 7) as u8).collect())
            .collect();
        let bytes = encode(width, height, &rows);
        assert_eq!(bytes.len(), 4 + height as usize * rl);
        assert_eq!(decode(&bytes), Ok((width, height, rows)));
    }
}

#[test]
fn decode_reads_little_endian_header() {
    let bytes = [0x0A, 0x00, 0x02, 0x00, 0xC0, 0x80, 0x01, 0x02, 0x99];
    assert_eq!(decode(&bytes), Ok((10, 2, vec![vec![0xC0, 0x80], vec![0x01, 0x02]])));
    let wide = [0x00, 0x01, 0x01, 0x00];
    assert_eq!(decode(&wide), Err(DisplayError::Truncated));
    assert_eq!(encode(256, 1, &vec![]), vec![0x00, 0x01, 0x01, 0x00]);
}

#[test]
fn decode_truncated_inputs() {
    assert_eq!(decode(&[]), Err(DisplayError::Truncated));
    assert_eq!(decode(&[8, 0, 1]), Err(DisplayError::Truncated));
    assert_eq!(decode(&[16, 0, 2, 0, 1, 2, 3]), Err(DisplayError::Truncated));
    assert_eq!(decode(&[16, 0, 0, 0]), Ok((16, 0, vec![])));
}
