//! The stored texture format: `[width: u16 LE][height: u16 LE]` followed by
//! `height` rows of `ceil(width / 8)` packed bytes each.
use vstd::prelude::*;

use crate::error::DisplayError;
use crate::framebuffer::rows_view;

verus! {

/// The packed length of a row of `width` pixels.
pub open spec fn row_len(width: int) -> int {
    (width + 7) / 8
}

/// The little-endian value of two bytes.
pub open spec fn le_u16(lo: u8, hi: u8) -> int {
    lo as int + 256 * hi as int
}

/// The concatenation of the first `n` rows.
pub open spec fn concat_rows(rows: Seq<Seq<u8>>, n: int) -> Seq<u8>
    decreases n,
{
    if n <= 0 {
        Seq::empty()
    } else {
        concat_rows(rows, n - 1) + rows[n - 1]
    }
}

/// What `decode` makes of `bytes`: width, height and rows, or `None` where the
/// stream is shorter than its header announces.
pub open spec fn decoded(bytes: Seq<u8>) -> Option<(u16, u16, Seq<Seq<u8>>)> {
    if bytes.len() < 4 {
        None
    } else {
        let w = le_u16(bytes[0], bytes[1]);
        let h = le_u16(bytes[2], bytes[3]);
        let rl = row_len(w);
        if bytes.len() - 4 < h * rl {
            None
        } else {
            Some(
                (
                    w as u16,
                    h as u16,
                    Seq::new(h as nat, |i: int| bytes.subrange(4 + i * rl, 4 + i * rl + rl)),
                ),
            )
        }
    }
}

/// The stream `encode` writes: the header, then the rows one after another.
pub open spec fn encoded(width: u16, height: u16, rows: Seq<Seq<u8>>) -> Seq<u8> {
    seq![(width % 256) as u8, (width / 256) as u8, (height % 256) as u8, (height / 256) as u8]
        + concat_rows(rows, rows.len() as int)
}

fn copy_range(bytes: &[u8], start: usize, len: usize) -> (r: Vec<u8>)
    requires
        start + len <= bytes@.len(),
    ensures
        r@ == bytes@.subrange(start as int, start + len),
{
    let n = bytes.len();
    let mut r: Vec<u8> = Vec::new();
    let mut i: usize = 0;
    while i < len
        invariant
            n == bytes@.len(),
            i <= len,
            start + len <= bytes@.len(),
            r@ == bytes@.subrange(start as int, start + i),
        decreases len - i,
    {
        r.push(bytes[start + i]);
        i = i + 1;
        assert(r@ =~= bytes@.subrange(start as int, start + i));
    }
    r
}

/// Decodes a texture stream into its width, height and packed rows; fails with
/// `Truncated` when the stream is shorter than four header bytes plus `height`
/// rows of `ceil(width / 8)` bytes. Bytes past the last row are ignored.
pub fn decode(bytes: &[u8]) -> (r: Result<(u16, u16, Vec<Vec<u8>>), DisplayError>)
    ensures
        decoded(bytes@) is None ==>
            r == Err::<(u16, u16, Vec<Vec<u8>>), DisplayError>(DisplayError::Truncated),
        decoded(bytes@) matches Some((w, h, rows)) ==>
            r matches Ok((rw, rh, rr)) && rw == w && rh == h && rows_view(&rr) == rows,
{
    if bytes.len() < 4 {
        return Err(DisplayError::Truncated);
    }
    let width: u16 = bytes[0] as u16 + bytes[1] as u16 * 256;
    let height: u16 = bytes[2] as u16 + bytes[3] as u16 * 256;
    let rl: usize = ((width as u32 + 7) / 8) as usize;
    let body: u64 = (bytes.len() - 4) as u64;
    assert(height as u64 * rl as u64 <= 65535 * 8192) by (nonlinear_arith)
        requires
            height <= 65535,
            rl <= 8192,
    ;
    let need: u64 = height as u64 * rl as u64;
    if body < need {
        return Err(DisplayError::Truncated);
    }
    let ghost bv = bytes@;
    let ghost expect = Seq::new(height as nat, |i: int| bv.subrange(4 + i * rl, 4 + i * rl + rl));
    let n = bytes.len();
    let mut rows: Vec<Vec<u8>> = Vec::new();
    let mut i: u16 = 0;
    while i < height
        invariant
            n == bv.len(),
            i <= height,
            bv == bytes@,
            rl == row_len(width as int),
            height as int * rl as int <= bv.len() - 4,
            expect == Seq::new(height as nat, |k: int| bv.subrange(4 + k * rl, 4 + k * rl + rl)),
            rows_view(&rows) == expect.subrange(0, i as int),
        decreases height - i,
    {
        assert(4 + i * rl + rl <= bv.len() && i * rl <= height * rl) by (nonlinear_arith)
            requires
                i < height,
                height * rl <= bv.len() - 4,
                0 <= rl,
        ;
        let row = copy_range(bytes, 4 + i as usize * rl, rl);
        assert(row@ == expect[i as int]);
        let ghost before = rows_view(&rows);
        rows.push(row);
        assert(rows_view(&rows) =~= before.push(row@));
        i = i + 1;
        assert(rows_view(&rows) =~= expect.subrange(0, i as int));
    }
    assert(expect.subrange(0, height as int) =~= expect);
    Ok((width, height, rows))
}

/// Encodes a texture: the width and height as little-endian `u16`, then the rows.
pub fn encode(width: u16, height: u16, rows: &Vec<Vec<u8>>) -> (r: Vec<u8>)
    ensures
        r@ == encoded(width, height, rows_view(rows)),
{
    let ghost rv = rows_view(rows);
    let mut r: Vec<u8> = Vec::new();
    r.push((width % 256) as u8);
    r.push((width / 256) as u8);
    r.push((height % 256) as u8);
    r.push((height / 256) as u8);
    let ghost header = r@;
    let mut i: usize = 0;
    while i < rows.len()
        invariant
            i <= rows@.len(),
            rv == rows_view(rows),
            header == seq![(width % 256) as u8, (width / 256) as u8, (height % 256) as u8, (height / 256) as u8],
            r@ == header + concat_rows(rv, i as int),
        decreases rows@.len() - i,
    {
        let row = &rows[i];
        let mut j: usize = 0;
        while j < row.len()
            invariant
                i < rows@.len(),
                rv == rows_view(rows),
                row@ == rv[i as int],
                j <= row@.len(),
                r@ == header + concat_rows(rv, i as int) + row@.subrange(0, j as int),
            decreases row@.len() - j,
        {
            r.push(row[j]);
            j = j + 1;
            assert(r@ =~= header + concat_rows(rv, i as int) + row@.subrange(0, j as int));
        }
        i = i + 1;
        assert(row@.subrange(0, j as int) =~= row@);
        assert(r@ =~= header + concat_rows(rv, i as int));
    }
    assert(r@ =~= encoded(width, height, rv));
    r
}

proof fn lemma_concat_rows(rows: Seq<Seq<u8>>, rl: int, n: int)
    requires
        0 <= n <= rows.len(),
        0 <= rl,
        forall|i: int| 0 <= i < rows.len() ==> #[trigger] rows[i].len() == rl,
    ensures
        concat_rows(rows, n).len() == n * rl,
        forall|i: int| 0 <= i < n ==> #[trigger] concat_rows(rows, n).subrange(i * rl, i * rl + rl) == rows[i],
    decreases n,
{
    if n == 0 {
        assert(n * rl == 0) by (nonlinear_arith)
            requires
                n == 0,
        ;
    } else {
        lemma_concat_rows(rows, rl, n - 1);
        let prev = concat_rows(rows, n - 1);
        let cur = concat_rows(rows, n);
        assert((n - 1) * rl + rl == n * rl) by (nonlinear_arith);
        assert forall|i: int| 0 <= i < n implies #[trigger] cur.subrange(i * rl, i * rl + rl) == rows[i] by {
            if i < n - 1 {
                assert(i * rl + rl <= (n - 1) * rl) by (nonlinear_arith)
                    requires
                        i < n - 1,
                        0 <= rl,
                ;
                assert(cur.subrange(i * rl, i * rl + rl) =~= prev.subrange(i * rl, i * rl + rl));
            } else {
                assert(cur.subrange(i * rl, i * rl + rl) =~= rows[i]);
            }
        }
    }
}

/// Decoding an encoded texture gives back its width, height and rows.
pub proof fn lemma_texture_round_trip(width: u16, height: u16, rows: Seq<Seq<u8>>)
    requires
        rows.len() == height,
        forall|i: int| 0 <= i < rows.len() ==> #[trigger] rows[i].len() == row_len(width as int),
    ensures
        decoded(encoded(width, height, rows)) == Some((width, height, rows)),
{
    let rl = row_len(width as int);
    let bytes = encoded(width, height, rows);
    lemma_concat_rows(rows, rl, rows.len() as int);
    let body = concat_rows(rows, rows.len() as int);
    assert(le_u16(bytes[0], bytes[1]) == width);
    assert(le_u16(bytes[2], bytes[3]) == height);
    let decoded_rows = Seq::new(height as nat, |i: int| bytes.subrange(4 + i * rl, 4 + i * rl + rl));
    assert forall|i: int| 0 <= i < height implies #[trigger] decoded_rows[i] == rows[i] by {
        assert(i * rl + rl <= height * rl) by (nonlinear_arith)
            requires
                i < height,
                0 <= rl,
        ;
        assert(body.subrange(i * rl, i * rl + rl) == rows[i]);
        assert(bytes.subrange(4 + i * rl, 4 + i * rl + rl) =~= body.subrange(i * rl, i * rl + rl));
    }
    assert(decoded_rows =~= rows);
}

} // verus!
