use sharp_memory_lcd::{
    Draw, DisplayError, MonoGraphics, Print, Printer, SetPixel, SharpMemoryDisplay, Transport,
    TransportError, Vect2D,
};

struct Sink {
    frames: Vec<Vec<u8>>,
}

impl Transport for Sink {
    fn write(&mut self, bytes: &[u8]) -> Result<(), TransportError> {
        self.frames.push(bytes.to_vec());
        Ok(())
    }
}

type Surface = MonoGraphics<SharpMemoryDisplay<Sink>>;

fn surface(width: u16, height: u16) -> Surface {
    MonoGraphics::new(SharpMemoryDisplay::new(Sink { frames: Vec::new() }), width, height).unwrap()
}

fn lit(g: &Surface) -> Vec<(u16, u16)> {
    let mut out = Vec::new();
    for y in 0..g.height() {
        for x in 0..g.width() {
            if !g.get_pixel(Vect2D::new(x, y)).unwrap() {
                out.push((x, y));
            }
        }
    }
    out
}

/// A small deterministic generator for spans.
fn next(state: &mut u32) -> u32 {
    *state = state.wrapping_mul(1_103_515_245).wrapping_add(12_345);
    (*state >> 16) & 0x7FFF
}

#[test]
fn new_surface_rejects_bad_width() {
    let r = MonoGraphics::new(SharpMemoryDisplay::new(Sink { frames: Vec::new() }), 20, 4);
    assert!(matches!(r, Err(DisplayError::InvalidDimensions)));
}

#[test]
fn hline_matches_set_pixel_loop() {
    let mut seed: u32 = 7;
    for case in 0..400u32 {
        let width: u16 = 40;
        let x = (next(&mut seed) % 40) as u16;
        let len = (next(&mut seed) % (40 - x as u32 + 1)) as u16;
        let y = (next(&mut seed) % 3) as u16;
        let color = case % 2 == 0;
        let mut a = surface(width, 3);
        let mut b = surface(width, 3);
        if color {
            a.clear(false).unwrap();
            b.clear(false).unwrap();
        }
        a.draw_hline(Vect2D::new(x, y), len, color).unwrap();
        for i in 0..len {
            b.set_pixel(Vect2D::new(x + i, y), color).unwrap();
        }
        assert_eq!(a.buffer(), b.buffer(), "x={} len={} color={}", x, len, color);
    }
}

#[test]
fn hline_byte_boundaries() {
    let mut g = surface(32, 1);
    g.draw_hline(Vect2D::new(3, 0), 2, false).unwrap();
    assert_eq!(g.buffer()[0], vec![0b1110_0111, 0xFF, 0xFF, 0xFF]);
    let mut g = surface(32, 1);
    g.draw_hline(Vect2D::new(6, 0), 4, false).unwrap();
    assert_eq!(g.buffer()[0], vec![0b0011_1111, 0b1111_1100, 0xFF, 0xFF]);
    let mut g = surface(32, 1);
    g.draw_hline(Vect2D::new(5, 0), 22, false).unwrap();
    assert_eq!(g.buffer()[0], vec![0b0001_1111, 0x00, 0x00, 0b1111_1000]);
    let mut g = surface(32, 1);
    g.draw_hline(Vect2D::new(0, 0), 32, false).unwrap();
    assert_eq!(g.buffer()[0], vec![0x00, 0x00, 0x00, 0x00]);
}

#[test]
fn hline_zero_length_and_bounds() {
    let mut g = surface(16, 2);
    assert_eq!(g.draw_hline(Vect2D::new(4, 1), 0, false), Ok(()));
    assert_eq!(g.buffer(), &vec![vec![0xFF, 0xFF]; 2]);
    assert_eq!(g.draw_hline(Vect2D::new(10, 0), 7, false), Err(DisplayError::OutOfBounds));
    assert_eq!(g.draw_hline(Vect2D::new(0, 2), 1, false), Err(DisplayError::OutOfBounds));
    assert_eq!(g.draw_hline(Vect2D::new(16, 0), 0, false), Err(DisplayError::OutOfBounds));
    assert_eq!(g.buffer(), &vec![vec![0xFF, 0xFF]; 2]);
    assert_eq!(g.draw_hline(Vect2D::new(10, 0), 6, false), Ok(()));
    assert_eq!(g.buffer()[0], vec![0xFF, 0b0000_0011]);
}

#[test]
fn vline_matches_set_pixel_loop() {
    let mut seed: u32 = 99;
    for case in 0..300u32 {
        let x = (next(&mut seed) % 16) as u16;
        let y = (next(&mut seed) % 12) as u16;
        let len = (next(&mut seed) % (12 - y as u32 + 1)) as u16;
        let color = case % 3 != 0;
        let mut a = surface(16, 12);
        let mut b = surface(16, 12);
        a.clear(!color).unwrap();
        b.clear(!color).unwrap();
        a.draw_vline(Vect2D::new(x, y), len, color).unwrap();
        for j in 0..len {
            b.set_pixel(Vect2D::new(x, y + j), color).unwrap();
        }
        assert_eq!(a.buffer(), b.buffer(), "x={} y={} len={}", x, y, len);
    }
}

#[test]
fn vline_checks_against_height() {
    let mut g = surface(64, 8);
    assert_eq!(g.draw_vline(Vect2D::new(3, 2), 6, false), Ok(()));
    assert_eq!(g.draw_vline(Vect2D::new(3, 2), 7, false), Err(DisplayError::OutOfBounds));
    assert_eq!(g.draw_vline(Vect2D::new(64, 0), 1, false), Err(DisplayError::OutOfBounds));
    assert_eq!(lit(&g), vec![(3, 2), (3, 3), (3, 4), (3, 5), (3, 6), (3, 7)]);
}

#[test]
fn rectangle_is_union_of_edges() {
    let corners = [((2u16, 1u16), (9u16, 6u16)), ((9, 6), (2, 1)), ((4, 4), (4, 4)), ((1, 3), (12, 4)), ((0, 0), (15, 7))];
    for &((x1, y1), (x2, y2)) in corners.iter() {
        let mut a = surface(16, 8);
        a.draw_rectangle(Vect2D::new(x1, y1), Vect2D::new(x2, y2), false).unwrap();
        let (x0, xm) = (x1.min(x2), x1.max(x2));
        let (y0, ym) = (y1.min(y2), y1.max(y2));
        let mut b = surface(16, 8);
        b.draw_hline(Vect2D::new(x0, y0), xm - x0 + 1, false).unwrap();
        b.draw_hline(Vect2D::new(x0, ym), xm - x0 + 1, false).unwrap();
        b.draw_vline(Vect2D::new(x0, y0), ym - y0 + 1, false).unwrap();
        b.draw_vline(Vect2D::new(xm, y0), ym - y0 + 1, false).unwrap();
        assert_eq!(a.buffer(), b.buffer());
        let once = a.buffer().clone();
        a.draw_rectangle(Vect2D::new(x1, y1), Vect2D::new(x2, y2), false).unwrap();
        assert_eq!(a.buffer(), &once);
    }
}

#[test]
fn rectangle_outline_pixels() {
    let mut g = surface(8, 4);
    g.draw_rectangle(Vect2D::new(1, 0), Vect2D::new(3, 2), false).unwrap();
    assert_eq!(lit(&g), vec![(1, 0), (2, 0), (3, 0), (1, 1), (3, 1), (1, 2), (2, 2), (3, 2)]);
    assert_eq!(g.draw_rectangle(Vect2D::new(1, 0), Vect2D::new(8, 2), false), Err(DisplayError::OutOfBounds));
}

#[test]
fn fill_rectangle_half_open_box() {
    let mut g = surface(16, 6);
    g.fill_rectangle(Vect2D::new(5, 4), Vect2D::new(2, 1), false).unwrap();
    let mut expect = Vec::new();
    for y in 1..4u16 {
        for x in 2..5u16 {
            expect.push((x, y));
        }
    }
    assert_eq!(lit(&g), expect);
    assert_eq!(g.fill_rectangle(Vect2D::new(0, 0), Vect2D::new(3, 6), false), Err(DisplayError::OutOfBounds));
}

#[test]
fn line_shallow_pixels() {
    let mut g = surface(8, 4);
    g.draw_line(Vect2D::new(0, 0), Vect2D::new(4, 2), false).unwrap();
    assert_eq!(lit(&g), vec![(0, 0), (1, 0), (2, 1), (3, 1), (4, 2)]);
}

#[test]
fn line_steep_pixels() {
    let mut g = surface(8, 4);
    g.draw_line(Vect2D::new(0, 0), Vect2D::new(1, 3), false).unwrap();
    assert_eq!(lit(&g), vec![(0, 0), (0, 1), (1, 2), (1, 3)]);
}

#[test]
fn line_same_either_direction() {
    let ends = [((0u16, 7u16), (15u16, 0u16)), ((3, 1), (12, 6)), ((5, 0), (6, 7)), ((2, 2), (2, 2)), ((0, 4), (15, 4)), ((9, 0), (9, 7))];
    for &((x1, y1), (x2, y2)) in ends.iter() {
        let mut a = surface(16, 8);
        let mut b = surface(16, 8);
        a.draw_line(Vect2D::new(x1, y1), Vect2D::new(x2, y2), false).unwrap();
        b.draw_line(Vect2D::new(x2, y2), Vect2D::new(x1, y1), false).unwrap();
        assert_eq!(a.buffer(), b.buffer());
        let pts = lit(&a);
        assert!(pts.contains(&(x1, y1)) && pts.contains(&(x2, y2)));
        let run = (x1 as i32 - x2 as i32).abs().max((y1 as i32 - y2 as i32).abs()) as usize;
        assert_eq!(pts.len(), run + 1);
    }
}

#[test]
fn line_out_of_bounds() {
    let mut g = surface(8, 4);
    assert_eq!(g.draw_line(Vect2D::new(0, 0), Vect2D::new(8, 0), false), Err(DisplayError::OutOfBounds));
    assert_eq!(g.draw_line(Vect2D::new(0, 4), Vect2D::new(1, 1), false), Err(DisplayError::OutOfBounds));
    assert_eq!(lit(&g), vec![]);
}

fn font_with_a_and_b() -> Vec<u8> {
    let mut font = vec![0u8; 5 * 67];
    font[5 * 65..5 * 66].copy_from_slice(&[0x7C, 0x12, 0x11, 0x12, 0x7C]);
    font[5 * 66..5 * 67].copy_from_slice(&[0x7F, 0x49, 0x49, 0x49, 0x36]);
    font
}

#[test]
fn put_char_draws_glyph_and_gap() {
    let mut g = surface(16, 8);
    g.set_font(font_with_a_and_b());
    g.put_char(&Vect2D::new(1, 0), 'A', false).unwrap();
    let glyph = [0x7Cu8, 0x12, 0x11, 0x12, 0x7C];
    for i in 0..6u16 {
        for j in 0..8u16 {
            let on = i < 5 && (glyph[i as usize] >> j) & 1 == 1;
            assert_eq!(g.get_pixel(Vect2D::new(1 + i, j)).unwrap(), !on, "column {} row {}", i, j);
        }
    }
    assert_eq!(g.get_pixel(Vect2D::new(0, 0)), Ok(true));
    assert_eq!(g.get_pixel(Vect2D::new(7, 3)), Ok(true));
}

#[test]
fn put_char_erases_behind_glyph() {
    let mut g = surface(8, 8);
    g.set_font(font_with_a_and_b());
    g.clear(false).unwrap();
    g.put_char(&Vect2D::new(0, 0), 'A', false).unwrap();
    assert_eq!(g.get_pixel(Vect2D::new(0, 0)), Ok(true));
    assert_eq!(g.get_pixel(Vect2D::new(0, 2)), Ok(false));
    assert_eq!(g.get_pixel(Vect2D::new(5, 5)), Ok(true));
    assert_eq!(g.get_pixel(Vect2D::new(6, 5)), Ok(false));
}

#[test]
fn put_char_rejects_missing_glyph_or_cell() {
    let mut g = surface(16, 8);
    g.set_font(font_with_a_and_b());
    assert_eq!(g.put_char(&Vect2D::new(0, 0), 'C', false), Err(DisplayError::OutOfBounds));
    assert_eq!(g.put_char(&Vect2D::new(11, 0), 'A', false), Err(DisplayError::OutOfBounds));
    assert_eq!(g.put_char(&Vect2D::new(0, 1), 'A', false), Err(DisplayError::OutOfBounds));
    assert_eq!(g.buffer(), &vec![vec![0xFF, 0xFF]; 8]);
    assert_eq!(g.put_char(&Vect2D::new(10, 0), 'A', false), Ok(()));
}

#[test]
fn printer_advances_six_columns() {
    let mut g = surface(24, 8);
    g.set_font(font_with_a_and_b());
    let mut p = Printer::new(Vect2D::new(0, 0), false);
    p.print(&mut g, "AB").unwrap();
    assert_eq!(p.cursor_position(), Vect2D::new(12, 0));
    assert_eq!(g.get_pixel(Vect2D::new(6, 0)), Ok(false));
    assert_eq!(g.get_pixel(Vect2D::new(6, 7)), Ok(true));
    p.set_position(Vect2D::new(18, 0));
    p.set_color(true);
    p.print(&mut g, "A").unwrap();
    assert_eq!(p.cursor_position(), Vect2D::new(24, 0));
    assert_eq!(p.print(&mut g, "A"), Err(DisplayError::OutOfBounds));
    assert_eq!(p.cursor_position(), Vect2D::new(24, 0));
}

#[test]
fn texture_copied_and_clipped() {
    let mut g = surface(24, 3);
    let tex = vec![vec![0x11, 0x22], vec![0x33, 0x44], vec![0x55, 0x66]];
    g.draw_texture(Vect2D::new(9, 1), &tex).unwrap();
    assert_eq!(g.buffer(), &vec![vec![0xFF, 0xFF, 0xFF], vec![0xFF, 0x11, 0x22], vec![0xFF, 0x33, 0x44]]);
    let mut g = surface(16, 2);
    g.draw_texture(Vect2D::new(8, 0), &tex).unwrap();
    assert_eq!(g.buffer(), &vec![vec![0xFF, 0x11], vec![0xFF, 0x33]]);
    assert_eq!(g.draw_texture(Vect2D::new(16, 0), &tex), Err(DisplayError::OutOfBounds));
}

#[test]
fn draw_sends_full_frame() {
    let mut g = surface(8, 2);
    g.set_pixel(Vect2D::new(7, 1), false).unwrap();
    g.draw().unwrap();
    g.clear_display().unwrap();
    assert_eq!(g.display().device().frames, vec![vec![0x01, 1, 0xFF, 0, 2, 0x7F, 0, 0], vec![0x06, 0]]);
}

fn run_traits<S: Draw<bool> + Print<bool>>(s: &mut S) -> Result<(), DisplayError> {
    s.clear(true)?;
    s.draw_hline(Vect2D::new(0, 0), 3, false)?;
    s.draw_vline(Vect2D::new(7, 0), 2, false)?;
    s.set_pixel(Vect2D::new(4, 1), false)?;
    s.put_char(&Vect2D::new(0, 0), 'A', true)
}

#[test]
fn trait_calls_reach_surface() {
    let mut g = surface(8, 2);
    assert_eq!(run_traits(&mut g), Err(DisplayError::OutOfBounds));
    assert_eq!(lit(&g), vec![(0, 0), (1, 0), (2, 0), (7, 0), (4, 1), (7, 1)]);
}

#[test]
fn surface_refresh_line_sends_one_row() {
    let mut g = surface(16, 3);
    g.set_pixel(Vect2D::new(8, 2), false).unwrap();
    g.refresh_line(2).unwrap();
    assert_eq!(g.refresh_line(3), Err(DisplayError::OutOfBounds));
    assert_eq!(g.display().device().frames, vec![vec![0x01, 3, 0xFF, 0xFE, 0, 0]]);
}

#[test]
fn printer_stops_at_failing_character() {
    let mut g = surface(16, 8);
    g.set_font(font_with_a_and_b());
    let mut p = Printer::new(Vect2D::new(0, 0), false);
    assert_eq!(p.print(&mut g, "ABA"), Err(DisplayError::OutOfBounds));
    assert_eq!(p.cursor_position(), Vect2D::new(12, 0));
    let mut g = surface(24, 8);
    g.set_font(font_with_a_and_b());
    let mut p = Printer::new(Vect2D::new(0, 0), false);
    assert_eq!(p.print(&mut g, "ACB"), Err(DisplayError::OutOfBounds));
    assert_eq!(p.cursor_position(), Vect2D::new(6, 0));
    assert_eq!(g.get_pixel(Vect2D::new(12, 0)), Ok(true));
    assert_eq!(g.get_pixel(Vect2D::new(12, 1)), Ok(true));
}

#[test]
fn printer_empty_text_and_cursor_limit() {
    let mut g = surface(8, 8);
    let mut p = Printer::new(Vect2D::new(65_530, 0), true);
    assert_eq!(p.print(&mut g, ""), Ok(()));
    assert_eq!(p.print(&mut g, "A"), Err(DisplayError::OutOfBounds));
    assert_eq!(p.cursor_position(), Vect2D::new(65_530, 0));
}
