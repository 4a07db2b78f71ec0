//! Reading a solve request out of raw instruction bytes.

use vstd::prelude::*;

verus! {

/// The largest width, and the largest height, that a request may give.
pub const MAX_SIZE: u8 = 10;

/// Why instruction bytes were refused.
#[derive(Debug, Clone, Copy, PartialEq, Eq, Structural)]
pub enum InstructionError {
    /// The bytes are too short, or give a dimension over `MAX_SIZE`.
    InvalidInstructionData,
}

/// A request to solve a board: its dimensions and its cells.
pub struct Request {
    pub width: usize,
    pub height: usize,
    pub grid: Vec<u8>,
}

/// The bytes hold a width and a height, each in `1..=MAX_SIZE`, followed by
/// at least `width * height` cells.
pub open spec fn well_formed(data: Seq<u8>) -> bool {
    &&& data.len() >= 2
    &&& 1 <= data[0] <= MAX_SIZE
    &&& 1 <= data[1] <= MAX_SIZE
    &&& data.len() >= 2 + data[0] * data[1]
}

/// Reads a request: byte 0 is the width, byte 1 the height, and the next
/// `width * height` bytes the cells of the board, row-major. Bytes after those
/// are not part of the board.
pub fn decode_instruction(data: &[u8]) -> (r: Result<Request, InstructionError>)
    ensures
        r is Ok <==> well_formed(data@),
        match r {
            Ok(req) => {
                &&& req.width == data@[0]
                &&& req.height == data@[1]
                &&& req.grid@ == data@.subrange(2, 2 + data@[0] * data@[1])
            },
            Err(e) => e == InstructionError::InvalidInstructionData,
        },
{
    let n = data.len();
    if n < 2 {
        return Err(InstructionError::InvalidInstructionData);
    }
    let width = data[0];
    let height = data[1];
    if width == 0 || height == 0 || width > MAX_SIZE || height > MAX_SIZE {
        return Err(InstructionError::InvalidInstructionData);
    }
    assert((width as usize) * (height as usize) <= 100) by (nonlinear_arith)
        requires
            width <= 10,
            height <= 10,
    ;
    let end = 2 + (width as usize) * (height as usize);
    if n < end {
        return Err(InstructionError::InvalidInstructionData);
    }
    let mut grid: Vec<u8> = Vec::new();
    let mut i: usize = 2;
    while i < end
        invariant
            2 <= i <= end,
            end <= n,
            n == data@.len(),
            grid@ == data@.subrange(2, i as int),
        decreases end - i,
    {
        grid.push(data[i]);
        i = i + 1;
    }
    Ok(Request { width: width as usize, height: height as usize, grid })
}

} // verus!
