//! The Sharp Memory LCD wire protocol: command framing, VCOM inversion and
//! per-line addressing, written through an abstract transport.
use vstd::prelude::*;

use crate::error::{DisplayError, TransportError};
use crate::framebuffer::rows_view;

verus! {

/// Command bit: write line data.
pub const SHARPMEM_CMD_WRITE_LINE: u8 = 0x01;

/// Command bit: the VCOM polarity.
pub const SHARPMEM_CMD_VCOM: u8 = 0x02;

/// Command bit: clear the panel.
pub const SHARPMEM_CMD_CLEAR_SCREEN: u8 = 0x04;

/// A one-way bus that takes whole frames.
pub trait Transport {
    /// Sends `bytes` in one bus transaction, blocking until it completes or fails.
    fn write(&mut self, bytes: &[u8]) -> Result<(), TransportError>;
}

/// What a panel was last asked to do.
pub enum PanelRequest {
    /// Blank the panel.
    Clear,
    /// Show these rows, top line first.
    Rows(Seq<Seq<u8>>),
    /// Show this row on this line (0-based).
    Line(u8, Seq<u8>),
}

/// A panel that shows packed rows.
pub trait Panel {
    /// The request the panel last took, if any.
    spec fn last_request(&self) -> Option<PanelRequest>;

    /// What the panel's last request returned.
    spec fn last_result(&self) -> Result<(), DisplayError>;

    /// Blanks the panel.
    fn clear_display(&mut self) -> (r: Result<(), DisplayError>)
        ensures
            final(self).last_request() == Some(PanelRequest::Clear),
            r == final(self).last_result(),
    ;

    /// Shows `buffer`, one packed row per line, top line first.
    fn refresh(&mut self, buffer: &Vec<Vec<u8>>) -> (r: Result<(), DisplayError>)
        ensures
            final(self).last_request() == Some(PanelRequest::Rows(rows_view(buffer))),
            r == final(self).last_result(),
    ;

    /// Shows `buffer` on line `line_num` (0-based).
    fn refresh_line(&mut self, line_num: u8, buffer: &[u8]) -> (r: Result<(), DisplayError>)
        ensures
            final(self).last_request() == Some(PanelRequest::Line(line_num, buffer@)),
            r == final(self).last_result(),
    ;
}

/// The library's result for a transport's result: a failed write is `Transport`.
pub open spec fn outcome_of(w: Result<(), TransportError>) -> Result<(), DisplayError> {
    match w {
        Ok(()) => Ok(()),
        Err(_) => Err(DisplayError::Transport),
    }
}

/// The VCOM bit of a command byte.
pub open spec fn vcom_bits(vcom: bool) -> u8 {
    if vcom {
        SHARPMEM_CMD_VCOM
    } else {
        0
    }
}

/// The address byte of the 0-based line `i`: its 1-based number, kept to a byte.
pub open spec fn line_address(i: int) -> u8 {
    ((i + 1) % 256) as u8
}

/// The clear command: `[vcom | CLEAR, 0x00]`.
pub open spec fn clear_frame(vcom: bool) -> Seq<u8> {
    seq![vcom_bits(vcom) | SHARPMEM_CMD_CLEAR_SCREEN, 0x00u8]
}

/// The line records of the first `n` rows: address, row bytes, trailer `0x00`.
pub open spec fn line_records(rows: Seq<Seq<u8>>, n: int) -> Seq<u8>
    decreases n,
{
    if n <= 0 {
        Seq::empty()
    } else {
        line_records(rows, n - 1) + seq![line_address(n - 1)] + rows[n - 1] + seq![0x00u8]
    }
}

/// The full refresh frame: the write command, a record per row, a final `0x00`.
pub open spec fn refresh_frame(vcom: bool, rows: Seq<Seq<u8>>) -> Seq<u8> {
    seq![vcom_bits(vcom) | SHARPMEM_CMD_WRITE_LINE] + line_records(rows, rows.len() as int) + seq![0x00u8]
}

/// The single-line frame: `[vcom | WRITE, line_num + 1, row bytes, 0x00, 0x00]`.
pub open spec fn line_frame(vcom: bool, line_num: u8, row: Seq<u8>) -> Seq<u8> {
    seq![vcom_bits(vcom) | SHARPMEM_CMD_WRITE_LINE, line_address(line_num as int)] + row + seq![0x00u8, 0x00u8]
}

fn command_byte(vcom: bool, command: u8) -> (r: u8)
    ensures
        r == vcom_bits(vcom) | command,
{
    let bits: u8 = if vcom {
        SHARPMEM_CMD_VCOM
    } else {
        0
    };
    bits | command
}

fn append_bytes(out: &mut Vec<u8>, bytes: &[u8])
    ensures
        final(out)@ == old(out)@ + bytes@,
{
    let mut i: usize = 0;
    while i < bytes.len()
        invariant
            i <= bytes@.len(),
            out@ == old(out)@ + bytes@.subrange(0, i as int),
        decreases bytes@.len() - i,
    {
        out.push(bytes[i]);
        i = i + 1;
        assert(out@ =~= old(out)@ + bytes@.subrange(0, i as int));
    }
    assert(bytes@.subrange(0, i as int) =~= bytes@);
}

/// The clear command for the VCOM state `vcom`.
pub fn encode_clear(vcom: bool) -> (r: Vec<u8>)
    ensures
        r@ == clear_frame(vcom),
{
    let mut r: Vec<u8> = Vec::new();
    r.push(command_byte(vcom, SHARPMEM_CMD_CLEAR_SCREEN));
    r.push(0x00);
    assert(r@ =~= clear_frame(vcom));
    r
}

/// The full refresh frame of `rows` for the VCOM state `vcom`.
pub fn encode_refresh(vcom: bool, rows: &Vec<Vec<u8>>) -> (r: Vec<u8>)
    ensures
        r@ == refresh_frame(vcom, rows_view(rows)),
{
    let ghost rv = rows_view(rows);
    let mut r: Vec<u8> = Vec::new();
    r.push(command_byte(vcom, SHARPMEM_CMD_WRITE_LINE));
    let mut i: usize = 0;
    while i < rows.len()
        invariant
            i <= rows@.len(),
            rv == rows_view(rows),
            r@ == seq![vcom_bits(vcom) | SHARPMEM_CMD_WRITE_LINE] + line_records(rv, i as int),
        decreases rows@.len() - i,
    {
        r.push(((i as u64 + 1) % 256) as u8);
        append_bytes(&mut r, rows[i].as_slice());
        r.push(0x00);
        i = i + 1;
        assert(r@ =~= seq![vcom_bits(vcom) | SHARPMEM_CMD_WRITE_LINE] + line_records(rv, i as int));
    }
    r.push(0x00);
    assert(r@ =~= refresh_frame(vcom, rv));
    r
}

/// The frame that writes `row` to line `line_num` (0-based) for the VCOM state `vcom`.
pub fn encode_line(vcom: bool, line_num: u8, row: &[u8]) -> (r: Vec<u8>)
    ensures
        r@ == line_frame(vcom, line_num, row@),
{
    let mut r: Vec<u8> = Vec::new();
    r.push(command_byte(vcom, SHARPMEM_CMD_WRITE_LINE));
    r.push(((line_num as u16 + 1) % 256) as u8);
    append_bytes(&mut r, row);
    r.push(0x00);
    r.push(0x00);
    assert(r@ =~= line_frame(vcom, line_num, row@));
    r
}

/// A Sharp Memory LCD on a transport: the VCOM polarity it last sent and the
/// bus it writes frames to.
pub struct SharpMemoryDisplay<T: Transport> {
    vcom: bool,
    device: T,
    sent: Ghost<Seq<u8>>,
    written: Ghost<Option<Result<(), TransportError>>>,
    request: Ghost<Option<PanelRequest>>,
}

impl<T: Transport> SharpMemoryDisplay<T> {
    /// The VCOM polarity the next frame carries.
    pub closed spec fn vcom(&self) -> bool {
        self.vcom
    }

    /// The frame most recently handed to the transport.
    pub closed spec fn sent(&self) -> Seq<u8> {
        self.sent@
    }

    /// What the transport returned for the most recent frame, if one was sent.
    pub closed spec fn written(&self) -> Option<Result<(), TransportError>> {
        self.written@
    }

    /// The request the display last took, if any.
    pub closed spec fn request(&self) -> Option<PanelRequest> {
        self.request@
    }

    /// The transport the frames are written to.
    pub closed spec fn transport(&self) -> T {
        self.device
    }

    /// A display on `device`, VCOM low, nothing sent yet.
    pub fn new(device: T) -> (r: Self)
        ensures
            r.transport() == device,
            !r.vcom(),
            r.sent() == Seq::<u8>::empty(),
            r.written() is None,
            r.request() is None,
    {
        SharpMemoryDisplay {
            vcom: false,
            device,
            sent: Ghost(Seq::empty()),
            written: Ghost(None),
            request: Ghost(None),
        }
    }

    /// The transport the frames are written to.
    pub fn device(&self) -> (r: &T)
        ensures
            *r == self.transport(),
    {
        &self.device
    }

    /// Whether the next frame carries the VCOM bit.
    pub fn vcom_high(&self) -> (r: bool)
        ensures
            r == self.vcom(),
    {
        self.vcom
    }

    fn toggle_vcom(&mut self)
        ensures
            final(self).vcom() == !old(self).vcom(),
            final(self).sent() == old(self).sent(),
            final(self).written() == old(self).written(),
            final(self).request() == old(self).request(),
    {
        self.vcom = !self.vcom;
    }

    /// Writes `frame` in one transaction with no retry, recording it and the
    /// transport's answer, and inverts VCOM whatever the answer.
    fn transmit(&mut self, frame: Vec<u8>) -> (r: Result<(), DisplayError>)
        ensures
            final(self).vcom() == !old(self).vcom(),
            final(self).sent() == frame@,
            final(self).written() matches Some(w) && r == outcome_of(w),
            final(self).request() == old(self).request(),
    {
        self.sent = Ghost(frame@);
        self.toggle_vcom();
        let answer = self.device.write(frame.as_slice());
        self.written = Ghost(Some(answer));
        match answer {
            Ok(()) => Ok(()),
            Err(_) => Err(DisplayError::Transport),
        }
    }

    /// Sends the clear command, then inverts VCOM whatever the bus reports; the
    /// result is the write's.
    pub fn clear_display(&mut self) -> (r: Result<(), DisplayError>)
        ensures
            final(self).vcom() == !old(self).vcom(),
            final(self).sent() == clear_frame(old(self).vcom()),
            final(self).written() matches Some(w) && r == outcome_of(w),
            final(self).request() == Some(PanelRequest::Clear),
    {
        let frame = encode_clear(self.vcom);
        self.request = Ghost(Some(PanelRequest::Clear));
        self.transmit(frame)
    }

    /// Sends the full refresh frame of `buffer` in one transaction, then inverts VCOM
    /// whatever the bus reports; the result is the write's.
    pub fn refresh(&mut self, buffer: &Vec<Vec<u8>>) -> (r: Result<(), DisplayError>)
        ensures
            final(self).vcom() == !old(self).vcom(),
            final(self).sent() == refresh_frame(old(self).vcom(), rows_view(buffer)),
            final(self).written() matches Some(w) && r == outcome_of(w),
            final(self).request() == Some(PanelRequest::Rows(rows_view(buffer))),
    {
        let frame = encode_refresh(self.vcom, buffer);
        self.request = Ghost(Some(PanelRequest::Rows(rows_view(buffer))));
        self.transmit(frame)
    }

    /// Sends the frame that writes `buffer` to line `line_num`, then inverts VCOM
    /// whatever the bus reports; the result is the write's.
    pub fn refresh_line(&mut self, line_num: u8, buffer: &[u8]) -> (r: Result<(), DisplayError>)
        ensures
            final(self).vcom() == !old(self).vcom(),
            final(self).sent() == line_frame(old(self).vcom(), line_num, buffer@),
            final(self).written() matches Some(w) && r == outcome_of(w),
            final(self).request() == Some(PanelRequest::Line(line_num, buffer@)),
    {
        let frame = encode_line(self.vcom, line_num, buffer);
        self.request = Ghost(Some(PanelRequest::Line(line_num, buffer@)));
        self.transmit(frame)
    }
}

impl<T: Transport> Panel for SharpMemoryDisplay<T> {
    open spec fn last_request(&self) -> Option<PanelRequest> {
        self.request()
    }

    open spec fn last_result(&self) -> Result<(), DisplayError> {
        match self.written() {
            Some(w) => outcome_of(w),
            None => Ok(()),
        }
    }

    fn clear_display(&mut self) -> Result<(), DisplayError> {
        SharpMemoryDisplay::clear_display(self)
    }

    fn refresh(&mut self, buffer: &Vec<Vec<u8>>) -> Result<(), DisplayError> {
        SharpMemoryDisplay::refresh(self, buffer)
    }

    fn refresh_line(&mut self, line_num: u8, buffer: &[u8]) -> Result<(), DisplayError> {
        SharpMemoryDisplay::refresh_line(self, line_num, buffer)
    }
}

proof fn lemma_line_records_layout(rows: Seq<Seq<u8>>, bpr: int, n: int)
    requires
        0 <= n <= rows.len(),
        0 <= bpr,
        forall|y: int| 0 <= y < rows.len() ==> #[trigger] rows[y].len() == bpr,
    ensures
        line_records(rows, n).len() == n * (bpr + 2),
        forall|y: int| 0 <= y < n ==> #[trigger] line_records(rows, n)[y * (bpr + 2)] == line_address(y),
    decreases n,
{
    if n == 0 {
        assert(n * (bpr + 2) == 0) by (nonlinear_arith)
            requires
                n == 0,
        ;
    } else {
        lemma_line_records_layout(rows, bpr, n - 1);
        let prev = line_records(rows, n - 1);
        assert((n - 1) * (bpr + 2) + bpr + 2 == n * (bpr + 2)) by (nonlinear_arith);
        assert forall|y: int| 0 <= y < n implies #[trigger] line_records(rows, n)[y * (bpr + 2)] == line_address(y) by {
            if y < n - 1 {
                assert(y * (bpr + 2) + (bpr + 2) <= (n - 1) * (bpr + 2)) by (nonlinear_arith)
                    requires
                        y < n - 1,
                        0 <= bpr,
                ;
                assert(prev[y * (bpr + 2)] == line_address(y));
            }
        }
    }
}

/// The full refresh frame of `height` rows of `bpr` bytes is `2 + height * (bpr + 2)`
/// bytes long, and the record of row `y` starts with its address `y + 1`.
pub proof fn lemma_refresh_frame_layout(vcom: bool, rows: Seq<Seq<u8>>, bpr: int)
    requires
        0 <= bpr,
        forall|y: int| 0 <= y < rows.len() ==> #[trigger] rows[y].len() == bpr,
    ensures
        refresh_frame(vcom, rows).len() == 2 + rows.len() * (bpr + 2),
        forall|y: int|
            0 <= y < rows.len() ==>
                #[trigger] refresh_frame(vcom, rows)[1 + y * (bpr + 2)] == line_address(y),
        forall|y: int| 0 <= y < 255 ==> #[trigger] line_address(y) == y + 1,
{
    lemma_line_records_layout(rows, bpr, rows.len() as int);
    let body = line_records(rows, rows.len() as int);
    assert forall|y: int| 0 <= y < rows.len() implies #[trigger] refresh_frame(vcom, rows)[1 + y * (bpr + 2)]
        == line_address(y) by {
        assert(y * (bpr + 2) < rows.len() * (bpr + 2)) by (nonlinear_arith)
            requires
                y < rows.len(),
                0 <= bpr,
        ;
        assert(body[y * (bpr + 2)] == line_address(y));
    }
}

/// The frame of a single line is its row and four bytes more.
pub proof fn lemma_line_frame_len(vcom: bool, line_num: u8, row: Seq<u8>)
    ensures
        line_frame(vcom, line_num, row).len() == row.len() + 4,
{
}

} // verus!
