//! The piece codec: how a file is cut into fixed-size pieces, how one piece is
//! taken out of the file's bytes, and how it is put back at the same place.
//!
//! Every piece holds `PIECE_SIZE` bytes, but for the last one, which holds what
//! is left. Nothing is read or written past the end of the file.

use vstd::prelude::*;

verus! {

/// Number of bytes in every piece but possibly the last one.
pub const PIECE_SIZE: u64 = 512000;

/// Why a piece could not be read or written.
#[derive(Clone, Copy, Debug, PartialEq, Eq, Structural)]
pub enum PieceError {
    /// The piece starts at or after the end of the file, or would run past it.
    OutOfRange,
    /// The data is longer than one piece.
    Oversized,
}

/// The number of pieces of a file of `size` bytes: `size / PIECE_SIZE`, rounded up.
pub open spec fn spec_piece_count(size: nat) -> nat {
    if size % (PIECE_SIZE as nat) == 0 {
        size / (PIECE_SIZE as nat)
    } else {
        size / (PIECE_SIZE as nat) + 1
    }
}

/// Where piece `index` starts in the file.
pub open spec fn spec_piece_offset(index: nat) -> nat {
    index * (PIECE_SIZE as nat)
}

/// How many bytes piece `index` of a file of `size` bytes holds: a full piece,
/// or what is left of the file, or nothing where the piece lies past the end.
pub open spec fn spec_piece_len(size: nat, index: nat) -> nat {
    let start = spec_piece_offset(index);
    if start >= size {
        0
    } else if size - start < PIECE_SIZE as nat {
        (size - start) as nat
    } else {
        PIECE_SIZE as nat
    }
}

/// The bytes of piece `index` of `file`.
pub open spec fn spec_extract(file: Seq<u8>, index: nat) -> Seq<u8> {
    let start = spec_piece_offset(index) as int;
    file.subrange(start, start + spec_piece_len(file.len(), index))
}

/// Whether `data_len` bytes can be written as piece `index` of a file image of
/// `image_len` bytes: no more than one piece, and all of it inside the image.
pub open spec fn spec_fits(image_len: nat, index: nat, data_len: nat) -> bool {
    data_len <= PIECE_SIZE as nat && spec_piece_offset(index) + data_len <= image_len
}

/// The file image after `data` was written as piece `index`. Only meaningful
/// where `spec_fits` holds.
pub open spec fn spec_write(image: Seq<u8>, index: nat, data: Seq<u8>) -> Seq<u8> {
    let start = spec_piece_offset(index) as int;
    image.subrange(0, start) + data + image.subrange(start + data.len(), image.len() as int)
}

/// The file image after the first `count` pieces of `file` were written into it,
/// each at its own index.
pub open spec fn spec_write_pieces(image: Seq<u8>, file: Seq<u8>, count: nat) -> Seq<u8>
    decreases count,
{
    if count == 0 {
        image
    } else {
        let index = (count - 1) as nat;
        spec_write(spec_write_pieces(image, file, index), index, spec_extract(file, index))
    }
}

/// Number of pieces needed to hold `size` bytes.
///
/// The result is the exact ceiling of `size / PIECE_SIZE`: the pieces cover the
/// file, and one piece fewer would not.
pub fn piece_count(size: u64) -> (count: u64)
    ensures
        count == spec_piece_count(size as nat),
        count * PIECE_SIZE >= size,
        size > 0 ==> (count - 1) * PIECE_SIZE < size,
        size == 0 ==> count == 0,
{
    let whole: u64 = size / PIECE_SIZE;
    if size % PIECE_SIZE == 0 {
        whole
    } else {
        whole + 1
    }
}

/// Number of bytes of piece `index` in a file of `size` bytes; 0 where the
/// piece lies past the end of the file.
pub fn piece_len(size: u64, index: u64) -> (len: u64)
    ensures
        len == spec_piece_len(size as nat, index as nat),
        len <= PIECE_SIZE,
        len > 0 <==> index < spec_piece_count(size as nat),
{
    if index >= piece_count(size) {
        0
    } else {
        let start: u64 = index * PIECE_SIZE;
        let left: u64 = size - start;
        if left < PIECE_SIZE {
            left
        } else {
            PIECE_SIZE
        }
    }
}

/// Byte offset at which piece `index` starts, where that offset fits in 64 bits.
pub fn piece_offset(index: u64) -> (offset: Option<u64>)
    ensures
        match offset {
            Some(start) => start == spec_piece_offset(index as nat),
            None => spec_piece_offset(index as nat) > u64::MAX,
        },
{
    if index > u64::MAX / PIECE_SIZE {
        None
    } else {
        Some(index * PIECE_SIZE)
    }
}

/// Takes piece `piece` out of the bytes of a file.
///
/// The piece is a full one, or, for the last piece, what is left of the file.
/// A piece that starts at or after the end of the file is refused.
pub fn get_piece(data: &[u8], piece: u64) -> (result: Result<Vec<u8>, PieceError>)
    ensures
        match result {
            Ok(bytes) => {
                &&& spec_piece_offset(piece as nat) < data@.len()
                &&& bytes@ == spec_extract(data@, piece as nat)
            },
            Err(error) => {
                &&& spec_piece_offset(piece as nat) >= data@.len()
                &&& error == PieceError::OutOfRange
            },
        },
{
    let size: u64 = data.len() as u64;
    let len: u64 = piece_len(size, piece);
    if len == 0 {
        return Err(PieceError::OutOfRange);
    }
    let start: u64 = piece * PIECE_SIZE;
    let part = vstd::slice::slice_subrange(data, start as usize, (start + len) as usize);
    Ok(vstd::slice::slice_to_vec(part))
}

/// Writes `data` as piece `index` into `image`, the bytes of a file that
/// already has its final length.
///
/// The bytes land at `index * PIECE_SIZE`; the rest of the image, and its
/// length, stay as they are. Data longer than one piece, or data that would run
/// past the end of the image, is refused and the image is left untouched.
pub fn write_piece(image: &mut Vec<u8>, index: u64, data: &[u8]) -> (result: Result<
    (),
    PieceError,
>)
    ensures
        match result {
            Ok(()) => {
                &&& spec_fits(old(image)@.len(), index as nat, data@.len())
                &&& final(image)@ == spec_write(old(image)@, index as nat, data@)
            },
            Err(error) => {
                &&& !spec_fits(old(image)@.len(), index as nat, data@.len())
                &&& final(image)@ == old(image)@
                &&& error == if data@.len() > PIECE_SIZE {
                    PieceError::Oversized
                } else {
                    PieceError::OutOfRange
                }
            },
        },
{
    let size: u64 = image.len() as u64;
    let len: u64 = data.len() as u64;
    if len > PIECE_SIZE {
        return Err(PieceError::Oversized);
    }
    if index > u64::MAX / PIECE_SIZE {
        return Err(PieceError::OutOfRange);
    }
    let start: u64 = index * PIECE_SIZE;
    if start > size || len > size - start {
        return Err(PieceError::OutOfRange);
    }
    let first: usize = start as usize;
    let mut done: usize = 0;
    while done < data.len()
        invariant
            done <= data@.len(),
            first + data@.len() <= image@.len() <= usize::MAX,
            image@.len() == old(image)@.len(),
            image@ == old(image)@.subrange(0, first as int) + data@.subrange(0, done as int)
                + old(image)@.subrange(first + done, old(image)@.len() as int),
        decreases data@.len() - done,
    {
        image.set(first + done, data[done]);
        done += 1;
        assert(image@ =~= old(image)@.subrange(0, first as int) + data@.subrange(0, done as int)
            + old(image)@.subrange(first + done, old(image)@.len() as int));
    }
    assert(data@.subrange(0, done as int) =~= data@);
    Ok(())
}

/// A piece is never longer than `PIECE_SIZE`, every piece before the last is
/// full, and the pieces together are exactly as long as the file.
pub proof fn lemma_piece_lengths(size: nat, index: nat)
    ensures
        spec_piece_len(size, index) <= PIECE_SIZE,
        index + 1 < spec_piece_count(size) ==> spec_piece_len(size, index) == PIECE_SIZE,
        index + 1 == spec_piece_count(size) ==> spec_piece_len(size, index) == size - (
        PIECE_SIZE as nat) * index,
        index + 1 == spec_piece_count(size) ==> 0 < spec_piece_len(size, index),
        index >= spec_piece_count(size) ==> spec_piece_len(size, index) == 0,
{
}

/// Taking a piece out of a file and writing it at the same index into any
/// image of the same length puts the file's bytes at that place, and touches
/// nothing else. This holds for every piece, the last, shorter one included.
pub proof fn lemma_extract_then_write(file: Seq<u8>, image: Seq<u8>, index: nat)
    requires
        image.len() == file.len(),
        spec_piece_offset(index) < file.len(),
    ensures
        spec_fits(image.len(), index, spec_extract(file, index).len()),
        spec_write(image, index, spec_extract(file, index)).len() == file.len(),
        spec_extract(spec_write(image, index, spec_extract(file, index)), index) == spec_extract(
            file,
            index,
        ),
        forall|at: int|
            0 <= at < file.len() ==> #[trigger] spec_write(
                image,
                index,
                spec_extract(file, index),
            )[at] == if spec_piece_offset(index) <= at < spec_piece_offset(index) + spec_piece_len(
                file.len(),
                index,
            ) {
                file[at]
            } else {
                image[at]
            },
{
    let piece = spec_extract(file, index);
    let out = spec_write(image, index, piece);
    assert(spec_extract(out, index) =~= piece);
}

/// After the first `count` pieces of a file were written into an image of the
/// same length, the image agrees with the file on all the bytes of those pieces
/// and is unchanged after them.
pub proof fn lemma_write_pieces_prefix(image: Seq<u8>, file: Seq<u8>, count: nat)
    requires
        image.len() == file.len(),
        count <= spec_piece_count(file.len()),
    ensures
        spec_write_pieces(image, file, count).len() == file.len(),
        forall|at: int|
            0 <= at < file.len() ==> #[trigger] spec_write_pieces(image, file, count)[at] == if at
                < spec_piece_offset(count) {
                file[at]
            } else {
                image[at]
            },
    decreases count,
{
    if count > 0 {
        let index = (count - 1) as nat;
        lemma_write_pieces_prefix(image, file, index);
        lemma_extract_then_write(file, spec_write_pieces(image, file, index), index);
    }
}

/// Writing every piece of a file, each at its own index, into an image of the
/// same length gives back the file, whatever the image held before.
pub proof fn lemma_reassemble(image: Seq<u8>, file: Seq<u8>)
    requires
        image.len() == file.len(),
    ensures
        spec_write_pieces(image, file, spec_piece_count(file.len())) == file,
{
    lemma_write_pieces_prefix(image, file, spec_piece_count(file.len()));
    assert(spec_write_pieces(image, file, spec_piece_count(file.len())) =~= file);
}

} // verus!
