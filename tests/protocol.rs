use sharp_memory_lcd::protocol::{encode_clear, encode_line, encode_refresh};
use sharp_memory_lcd::{DisplayDriver, DisplayError, SharpMemoryDisplay, Transport, TransportError};

struct Bus {
    frames: Vec<Vec<u8>>,
    fail: bool,
}

impl Transport for Bus {
    fn write(&mut self, bytes: &[u8]) -> Result<(), TransportError> {
        self.frames.push(bytes.to_vec());
        if self.fail {
            Err(TransportError)
        } else {
            Ok(())
        }
    }
}

fn bus() -> Bus {
    Bus { frames: Vec::new(), fail: false }
}

#[test]
fn scenario_set_pixel_then_refresh() {
    let mut d = DisplayDriver::new(bus(), 16, 2).unwrap();
    assert_eq!(d.buffer(), &vec![vec![0xFF, 0xFF], vec![0xFF, 0xFF]]);
    d.set_pixel(0, 0, false).unwrap();
    assert_eq!(d.buffer()[0], vec![0xFE, 0xFF]);
    d.refresh().unwrap();
    assert_eq!(d.device().frames, vec![vec![0x01, 1, 0xFE, 0xFF, 0, 2, 0xFF, 0xFF, 0, 0]]);
}

#[test]
fn refresh_frame_length_and_line_numbers() {
    for &(width, height) in [(8u16, 1u16), (16, 5), (400, 240), (24, 255)].iter() {
        let mut d = DisplayDriver::new(bus(), width, height).unwrap();
        d.refresh().unwrap();
        let frame = &d.device().frames[0];
        let bpr = (width / 8) as usize;
        assert_eq!(frame.len(), 2 + height as usize * (bpr + 2));
        for y in 0..height as usize {
            assert_eq!(frame[1 + y * (bpr + 2)] as usize, y + 1);
            assert_eq!(frame[1 + y * (bpr + 2) + bpr + 1], 0);
        }
        assert_eq!(*frame.last().unwrap(), 0);
    }
}

#[test]
fn refresh_line_bounds_and_length() {
    let mut d = DisplayDriver::new(bus(), 24, 3).unwrap();
    assert_eq!(d.refresh_line(3), Err(DisplayError::OutOfBounds));
    assert_eq!(d.refresh_line(200), Err(DisplayError::OutOfBounds));
    assert!(d.device().frames.is_empty());
    d.set_pixel(23, 2, false).unwrap();
    d.refresh_line(2).unwrap();
    assert_eq!(d.device().frames, vec![vec![0x01, 3, 0xFF, 0xFF, 0x7F, 0, 0]]);
    assert_eq!(d.device().frames[0].len(), 3 + 4);
}

#[test]
fn vcom_alternates_on_every_transmission() {
    let mut d = DisplayDriver::new(bus(), 8, 1).unwrap();
    d.clear_display().unwrap();
    d.refresh().unwrap();
    d.refresh_line(0).unwrap();
    d.clear_display().unwrap();
    let cmds: Vec<u8> = d.device().frames.iter().map(|f| f[0]).collect();
    assert_eq!(cmds, vec![0x04, 0x03, 0x01, 0x06]);
    assert_eq!(d.device().frames[0], vec![0x04, 0x00]);
}

#[test]
fn transport_failure_reported_and_vcom_still_toggles() {
    let mut d = DisplayDriver::new(Bus { frames: Vec::new(), fail: true }, 8, 1).unwrap();
    assert_eq!(d.refresh(), Err(DisplayError::Transport));
    assert_eq!(d.clear_display(), Err(DisplayError::Transport));
    assert_eq!(d.device().frames[0][0], 0x01);
    assert_eq!(d.device().frames[1][0], 0x06);
}

#[test]
fn driver_rejects_bad_width_and_clears_buffer() {
    assert!(matches!(DisplayDriver::new(bus(), 10, 2), Err(DisplayError::InvalidDimensions)));
    let mut d = DisplayDriver::new(bus(), 8, 2).unwrap();
    d.set_pixel(3, 1, false).unwrap();
    assert_eq!(d.get_pixel(3, 1), Ok(false));
    assert_eq!(d.get_pixel(8, 1), Err(DisplayError::OutOfBounds));
    assert_eq!(d.set_pixel(0, 2, false), Err(DisplayError::OutOfBounds));
    d.clear_buffer();
    assert_eq!(d.buffer(), &vec![vec![0xFF]; 2]);
    assert_eq!(d.width(), 8);
    assert_eq!(d.height(), 2);
}

#[test]
fn encoders_build_exact_frames() {
    assert_eq!(encode_clear(false), vec![0x04, 0x00]);
    assert_eq!(encode_clear(true), vec![0x06, 0x00]);
    assert_eq!(encode_line(true, 4, &[0xAA, 0x55]), vec![0x03, 5, 0xAA, 0x55, 0, 0]);
    assert_eq!(encode_line(false, 255, &[0x01]), vec![0x01, 0, 0x01, 0, 0]);
    assert_eq!(encode_refresh(true, &vec![vec![0x12], vec![0x34]]), vec![0x03, 1, 0x12, 0, 2, 0x34, 0, 0]);
    assert_eq!(encode_refresh(false, &vec![]), vec![0x01, 0]);
}

#[test]
fn panel_without_buffer_sends_given_rows() {
    let mut p = SharpMemoryDisplay::new(bus());
    assert!(!p.vcom_high());
    p.refresh_line(0, &[0x0F]).unwrap();
    assert!(p.vcom_high());
    p.refresh(&vec![vec![0xF0, 0x0F]]).unwrap();
    assert_eq!(p.device().frames, vec![vec![0x01, 1, 0x0F, 0, 0], vec![0x03, 1, 0xF0, 0x0F, 0, 0]]);
}

#[test]
fn good_writes_report_ok_on_every_send() {
    let mut d = DisplayDriver::new(bus(), 8, 2).unwrap();
    assert_eq!(d.clear_display(), Ok(()));
    assert_eq!(d.refresh(), Ok(()));
    assert_eq!(d.refresh_line(1), Ok(()));
    let mut d = DisplayDriver::new(Bus { frames: Vec::new(), fail: true }, 8, 2).unwrap();
    assert_eq!(d.refresh_line(1), Err(DisplayError::Transport));
    assert_eq!(d.device().frames.len(), 1);
}
