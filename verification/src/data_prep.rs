//! The pure compute half of dataset ingestion: turning raw record values
//! (pixel bytes and class labels) into fixed-point example vectors and
//! tensors. Reading files and parsing delimited text stay outside the core;
//! only plain values enter here.

use vstd::prelude::*;

use crate::errors::ShapeError;
use crate::fixed::{tdiv, SCALE};
use crate::matrix::Matrix;
use crate::tensor::Tensor;

verus! {

/// A greyscale byte as a fixed-point input value: `p / 127.5 - 1`, which
/// maps 0..=255 onto [-1, 1].
pub open spec fn mnist_pixel_s(p: int) -> int {
    tdiv(p * 131072, 255) - (SCALE as int)
}

/// Normalizes a row of greyscale pixel bytes into a fixed-point input
/// vector.
pub fn mnist_input(pixels: &Vec<u8>) -> (r: Vec<i64>)
    ensures
        r@.len() == pixels@.len(),
        forall|i: int|
            0 <= i < pixels@.len() ==> r@[i] as int == mnist_pixel_s(pixels@[i] as int),
{
    let mut r: Vec<i64> = Vec::new();
    let mut i: usize = 0;
    while i < pixels.len()
        invariant
            i <= pixels@.len(),
            r@.len() == i,
            forall|j: int|
                0 <= j < i ==> r@[j] as int == mnist_pixel_s(pixels@[j] as int),
        decreases pixels@.len() - i,
    {
        let p: u64 = pixels[i] as u64;
        let scaled: u64 = (p * 131072) / 255;
        r.push((scaled as i64) - SCALE);
        i += 1;
    }
    r
}

/// A one-hot target vector: one (in fixed point) at the labelled class,
/// zero elsewhere.
pub fn one_hot(label: usize, n: usize) -> (r: Vec<i64>)
    requires
        label < n,
    ensures
        r@.len() == n,
        r@[label as int] == SCALE,
        forall|i: int| 0 <= i < n && i != label ==> r@[i] == 0i64,
{
    let mut r: Vec<i64> = Vec::new();
    let mut i: usize = 0;
    while i < n
        invariant
            i <= n,
            r@.len() == i,
            forall|j: int|
                0 <= j < i ==> r@[j] == (if j == label {
                    SCALE
                } else {
                    0i64
                }),
        decreases n - i,
    {
        r.push(if i == label {
            SCALE
        } else {
            0
        });
        i += 1;
    }
    r
}

/// The byte length of one fixed-size colour-image record: a label byte
/// followed by three 1024-byte colour planes.
pub const CIFAR_CHUNK: usize = 3073;

/// The pixel byte of colour plane `ch`, row `r`, column `c` inside a record.
pub open spec fn cifar_byte(buf: Seq<u8>, ch: int, r: int, c: int) -> int {
    buf[1 + ch * 1024 + r * 32 + c] as int
}

/// Decodes one fixed-size binary record into a labelled 3-channel tensor:
/// the first byte is the class label; each following 1024-byte plane becomes
/// one 32x32 channel, row-major, with each byte taken as a whole fixed-point
/// value. Fails unless the record has exactly the fixed length.
pub fn cifar_chunk(buf: &Vec<u8>) -> (out: Result<(Tensor, usize), ShapeError>)
    ensures
        out.is_err() <==> buf@.len() != CIFAR_CHUNK,
        match out {
            Ok(p) => {
                &&& p.0.wf()
                &&& p.0.has_shape(3, 32, 32)
                &&& forall|ch: int, r: int, c: int|
                    0 <= ch < 3 && 0 <= r < 32 && 0 <= c < 32 ==> #[trigger] p.0.chan(ch).at(r, c)
                        == cifar_byte(buf@, ch, r, c) * (SCALE as int)
                &&& p.1 == buf@[0] as usize
            },
            Err(e) => e == ShapeError::WrongShape,
        },
{
    if buf.len() != CIFAR_CHUNK {
        return Err(ShapeError::WrongShape);
    }
    let label: usize = buf[0] as usize;
    let mut chans: Vec<Matrix> = Vec::new();
    let mut ch: usize = 0;
    while ch < 3
        invariant
            buf@.len() == CIFAR_CHUNK,
            ch <= 3,
            chans@.len() == ch,
            forall|i: int|
                0 <= i < ch ==> (#[trigger] chans@[i]).wf() && chans@[i].rows == 32
                    && chans@[i].cols == 32,
            forall|i: int, r: int, c: int|
                0 <= i < ch && 0 <= r < 32 && 0 <= c < 32 ==> #[trigger] chans@[i].at(r, c)
                    == cifar_byte(buf@, i, r, c) * (SCALE as int),
        decreases 3 - ch,
    {
        let mut rows: Vec<Vec<i64>> = Vec::new();
        let mut r: usize = 0;
        while r < 32
            invariant
                buf@.len() == CIFAR_CHUNK,
                ch < 3,
                r <= 32,
                rows@.len() == r,
                forall|i: int| 0 <= i < r ==> (#[trigger] rows@[i])@.len() == 32,
                forall|i: int, c: int|
                    0 <= i < r && 0 <= c < 32 ==> rows@[i]@[c] as int == cifar_byte(
                        buf@,
                        ch as int,
                        i,
                        c,
                    ) * (SCALE as int),
            decreases 32 - r,
        {
            let mut row: Vec<i64> = Vec::new();
            let mut c: usize = 0;
            while c < 32
                invariant
                    buf@.len() == CIFAR_CHUNK,
                    ch < 3,
                    r < 32,
                    c <= 32,
                    row@.len() == c,
                    forall|j: int|
                        0 <= j < c ==> row@[j] as int == cifar_byte(buf@, ch as int, r as int, j)
                            * (SCALE as int),
                decreases 32 - c,
            {
                let idx: usize = 1 + ch * 1024 + r * 32 + c;
                row.push((buf[idx] as i64) * SCALE);
                c += 1;
            }
            rows.push(row);
            r += 1;
        }
        chans.push(Matrix { rows: 32, cols: 32, data: rows });
        ch += 1;
    }
    Ok((Tensor { data: chans }, label))
}

} // verus!
