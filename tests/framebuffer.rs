use sharp_memory_lcd::{DisplayError, Framebuffer};

#[test]
fn new_rejects_width_not_multiple_of_eight() {
    assert!(matches!(Framebuffer::new(12, 4), Err(DisplayError::InvalidDimensions)));
    assert!(matches!(Framebuffer::new(1, 1), Err(DisplayError::InvalidDimensions)));
}

#[test]
fn new_starts_all_set() {
    let f = Framebuffer::new(16, 3).unwrap();
    assert_eq!(f.width(), 16);
    assert_eq!(f.height(), 3);
    assert_eq!(f.buffer(), &vec![vec![0xFF, 0xFF]; 3]);
}

#[test]
fn new_allows_empty_panel() {
    let f = Framebuffer::new(0, 0).unwrap();
    assert_eq!(f.buffer().len(), 0);
}

#[test]
fn set_then_get_pixel_every_position() {
    let mut f = Framebuffer::new(24, 3).unwrap();
    for y in 0..3u16 {
        for x in 0..24u16 {
            f.set_pixel(x, y, false).unwrap();
            assert_eq!(f.get_pixel(x, y), Ok(false));
            f.set_pixel(x, y, true).unwrap();
            assert_eq!(f.get_pixel(x, y), Ok(true));
            f.set_pixel(x, y, false).unwrap();
            assert_eq!(f.get_pixel(x, y), Ok(false));
        }
    }
    assert_eq!(f.buffer(), &vec![vec![0, 0, 0]; 3]);
}

#[test]
fn set_pixel_packs_lsb_first() {
    let mut f = Framebuffer::new(16, 1).unwrap();
    f.set_pixel(0, 0, false).unwrap();
    assert_eq!(f.row(0), &vec![0xFE, 0xFF]);
    f.set_pixel(9, 0, false).unwrap();
    assert_eq!(f.row(0), &vec![0xFE, 0xFD]);
    f.set_pixel(0, 0, true).unwrap();
    assert_eq!(f.row(0), &vec![0xFF, 0xFD]);
}

#[test]
fn pixel_access_out_of_bounds() {
    let mut f = Framebuffer::new(8, 2).unwrap();
    assert_eq!(f.get_pixel(8, 0), Err(DisplayError::OutOfBounds));
    assert_eq!(f.get_pixel(0, 2), Err(DisplayError::OutOfBounds));
    assert_eq!(f.set_pixel(8, 0, false), Err(DisplayError::OutOfBounds));
    assert_eq!(f.set_pixel(0, 2, false), Err(DisplayError::OutOfBounds));
    assert_eq!(f.buffer(), &vec![vec![0xFF]; 2]);
}

#[test]
fn clear_fills_uniformly() {
    let mut f = Framebuffer::new(16, 2).unwrap();
    f.clear(false);
    assert_eq!(f.buffer(), &vec![vec![0x00, 0x00]; 2]);
    f.clear(true);
    assert_eq!(f.buffer(), &vec![vec![0xFF, 0xFF]; 2]);
}

#[test]
fn mask_and_put_byte() {
    let mut f = Framebuffer::new(16, 2).unwrap();
    f.mask_byte(1, 1, 0b0000_1111, false);
    assert_eq!(f.row(1), &vec![0xFF, 0xF0]);
    f.mask_byte(1, 1, 0b0000_0011, true);
    assert_eq!(f.row(1), &vec![0xFF, 0xF3]);
    f.put_byte(0, 0, 0x5A);
    assert_eq!(f.row(0), &vec![0x5A, 0xFF]);
}
