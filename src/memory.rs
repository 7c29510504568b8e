use vstd::prelude::*;
use vstd::utf8::{decode_utf8, encode_utf8, encode_utf8_decode_utf8, valid_utf8};

use crate::error::HttpError;

verus! {

/// `m` with the bytes from `at` on replaced by `d`.
pub open spec fn splice(m: Seq<u8>, at: int, d: Seq<u8>) -> Seq<u8> {
    m.take(at) + d + m.skip(at + d.len())
}

/// Whether `len` bytes from `ptr` lie inside a memory of `size` bytes.
pub open spec fn in_bounds(size: nat, ptr: u32, len: nat) -> bool {
    ptr + len <= size
}

/// The little-endian bytes of a 32-bit value, as the guest reads them.
pub open spec fn le_u32(v: u32) -> Seq<u8> {
    seq![(v % 256) as u8, ((v / 256) % 256) as u8, ((v / 65536) % 256) as u8, (v / 16777216) as u8]
}

/// The little-endian bytes of a 16-bit value.
pub open spec fn le_u16(v: u16) -> Seq<u8> {
    seq![(v % 256) as u8, (v / 256) as u8]
}

/// The bytes `len` bytes long from `ptr` in guest memory, copied out.
pub fn read_bytes(mem: &[u8], ptr: u32, len: u32) -> (r: Result<Vec<u8>, HttpError>)
    ensures
        in_bounds(mem@.len(), ptr, len as nat) ==> r is Ok && r->Ok_0@ == mem@.subrange(
            ptr as int,
            ptr + len,
        ),
        !in_bounds(mem@.len(), ptr, len as nat) ==> r == Err::<Vec<u8>, HttpError>(
            HttpError::MemoryAccessError,
        ),
{
    let size = mem.len();
    if ptr as usize > size || len as usize > size - ptr as usize {
        return Err(HttpError::MemoryAccessError);
    }
    let start = ptr as usize;
    let end = start + len as usize;
    let mut out: Vec<u8> = Vec::new();
    let mut i: usize = start;
    while i < end
        invariant
            start <= i <= end,
            end <= mem@.len(),
            out@ == mem@.subrange(start as int, i as int),
        decreases end - i,
    {
        out.push(mem[i]);
        assert(out@ =~= mem@.subrange(start as int, i + 1));
        i = i + 1;
    }
    Ok(out)
}

/// Relies on String::from_utf8: the bytes become a string when they are
/// valid UTF-8, and its encoding is those same bytes.
#[verifier::external_body]
fn string_from_utf8(bytes: Vec<u8>) -> (r: Option<String>)
    ensures
        match r {
            Some(s) => valid_utf8(bytes@) && encode_utf8(s@) == bytes@,
            None => !valid_utf8(bytes@),
        },
{
    String::from_utf8(bytes).ok()
}

/// The text that the `len` bytes from `ptr` of memory `m` encode in UTF-8.
pub open spec fn text_in(m: Seq<u8>, ptr: u32, len: u32) -> Result<Seq<char>, HttpError> {
    if !in_bounds(m.len(), ptr, len as nat) {
        Err(HttpError::MemoryAccessError)
    } else if !valid_utf8(m.subrange(ptr as int, ptr + len)) {
        Err(HttpError::Utf8Error)
    } else {
        Ok(decode_utf8(m.subrange(ptr as int, ptr + len)))
    }
}

/// A result with its text seen as characters.
pub open spec fn text_result(r: Result<String, HttpError>) -> Result<Seq<char>, HttpError> {
    match r {
        Ok(s) => Ok(s@),
        Err(e) => Err(e),
    }
}

/// The text `len` bytes long from `ptr` in guest memory.
pub fn read_string(mem: &[u8], ptr: u32, len: u32) -> (r: Result<String, HttpError>)
    ensures
        text_result(r) == text_in(mem@, ptr, len),
        r is Ok ==> encode_utf8(r->Ok_0@) == mem@.subrange(ptr as int, ptr + len),
{
    let bytes = read_bytes(mem, ptr, len)?;
    match string_from_utf8(bytes) {
        Some(s) => {
            proof {
                encode_utf8_decode_utf8(s@);
            }
            Ok(s)
        },
        None => Err(HttpError::Utf8Error),
    }
}

/// Copies `data` into guest memory at `at`, or refuses without writing when
/// it would not fit.
pub fn write_bytes(mem: &mut [u8], at: u32, data: &[u8]) -> (r: Result<(), HttpError>)
    ensures
        in_bounds(old(mem)@.len(), at, data@.len()) ==> r is Ok && final(mem)@ == splice(
            old(mem)@,
            at as int,
            data@,
        ),
        !in_bounds(old(mem)@.len(), at, data@.len()) ==> r == Err::<(), HttpError>(
            HttpError::MemoryAccessError,
        ) && final(mem)@ == old(mem)@,
{
    let size = mem.len();
    if at as usize > size || data.len() > size - at as usize {
        return Err(HttpError::MemoryAccessError);
    }
    let start = at as usize;
    let mut i: usize = 0;
    while i < data.len()
        invariant
            start + data@.len() <= mem@.len(),
            i <= data@.len(),
            mem@.len() == old(mem)@.len(),
            mem@.len() == size,
            mem@ == old(mem)@.take(start as int) + data@.take(i as int) + old(mem)@.skip(
                start + i,
            ),
        decreases data.len() - i,
    {
        mem[start + i] = data[i];
        assert(mem@ =~= old(mem)@.take(start as int) + data@.take(i + 1) + old(mem)@.skip(
            start + i + 1,
        ));
        i = i + 1;
    }
    assert(data@.take(i as int) =~= data@);
    Ok(())
}

pub fn le_bytes_u32(v: u32) -> (r: Vec<u8>)
    ensures
        r@ == le_u32(v),
{
    let mut r: Vec<u8> = Vec::new();
    r.push((v % 256) as u8);
    r.push(((v / 256) % 256) as u8);
    r.push(((v / 65536) % 256) as u8);
    r.push((v / 16777216) as u8);
    assert(r@ =~= le_u32(v));
    r
}

pub fn le_bytes_u16(v: u16) -> (r: Vec<u8>)
    ensures
        r@ == le_u16(v),
{
    let mut r: Vec<u8> = Vec::new();
    r.push((v % 256) as u8);
    r.push((v / 256) as u8);
    assert(r@ =~= le_u16(v));
    r
}

/// Writes a 32-bit value into the scalar slot at `ptr`.
pub fn write_u32(mem: &mut [u8], ptr: u32, v: u32) -> (r: Result<(), HttpError>)
    ensures
        in_bounds(old(mem)@.len(), ptr, 4) ==> r is Ok && final(mem)@ == splice(
            old(mem)@,
            ptr as int,
            le_u32(v),
        ),
        !in_bounds(old(mem)@.len(), ptr, 4) ==> r == Err::<(), HttpError>(
            HttpError::MemoryAccessError,
        ) && final(mem)@ == old(mem)@,
{
    let b = le_bytes_u32(v);
    write_bytes(mem, ptr, b.as_slice())
}

/// Writes a 16-bit value into the scalar slot at `ptr`.
pub fn write_u16(mem: &mut [u8], ptr: u32, v: u16) -> (r: Result<(), HttpError>)
    ensures
        in_bounds(old(mem)@.len(), ptr, 2) ==> r is Ok && final(mem)@ == splice(
            old(mem)@,
            ptr as int,
            le_u16(v),
        ),
        !in_bounds(old(mem)@.len(), ptr, 2) ==> r == Err::<(), HttpError>(
            HttpError::MemoryAccessError,
        ) && final(mem)@ == old(mem)@,
{
    let b = le_bytes_u16(v);
    write_bytes(mem, ptr, b.as_slice())
}

/// The memory after `data` is written at `ptr` and its length in the slot at
/// `written_ptr`; `None` when either does not fit.
pub open spec fn written_with_count(m: Seq<u8>, ptr: u32, data: Seq<u8>, written_ptr: u32) -> Option<Seq<u8>> {
    if in_bounds(m.len(), ptr, data.len()) && in_bounds(m.len(), written_ptr, 4) && data.len()
        <= u32::MAX {
        Some(splice(splice(m, ptr as int, data), written_ptr as int, le_u32(data.len() as u32)))
    } else {
        None
    }
}

/// Writes `data` into a buffer that the guest supplied at `ptr`, and the
/// number of bytes written into the slot at `written_ptr`. Nothing is written
/// unless both fit.
pub fn write_with_count(mem: &mut [u8], ptr: u32, data: &[u8], written_ptr: u32) -> (r: Result<(), HttpError>)
    ensures
        match written_with_count(old(mem)@, ptr, data@, written_ptr) {
            Some(m) => r is Ok && final(mem)@ == m,
            None => r == Err::<(), HttpError>(HttpError::MemoryAccessError) && final(mem)@ == old(
                mem,
            )@,
        },
{
    let size = mem.len();
    if data.len() > u32::MAX as usize || ptr as usize > size || data.len() > size - ptr as usize
        || written_ptr as usize > size || 4 > size - written_ptr as usize {
        return Err(HttpError::MemoryAccessError);
    }
    let _ = write_bytes(mem, ptr, data);
    let _ = write_u32(mem, written_ptr, data.len() as u32);
    Ok(())
}

/// Whether `data` fits at the offset that the guest's allocator gave, and
/// the two result slots fit too.
pub open spec fn can_deliver(size: nat, offset: u32, len: nat, ptr_slot: u32, len_slot: u32) -> bool {
    &&& in_bounds(size, offset, len)
    &&& in_bounds(size, ptr_slot, 4)
    &&& in_bounds(size, len_slot, 4)
    &&& len <= u32::MAX
}

/// The memory after `deliver`: the data at `offset`, then its length in the
/// length slot, then `offset` in the pointer slot.
pub open spec fn delivered(m: Seq<u8>, offset: u32, data: Seq<u8>, ptr_slot: u32, len_slot: u32) -> Seq<u8> {
    splice(
        splice(splice(m, offset as int, data), len_slot as int, le_u32(data.len() as u32)),
        ptr_slot as int,
        le_u32(offset),
    )
}

/// Hands `data` to the guest: copies it to `offset`, which the guest's own
/// allocator returned for `data.len()` bytes, and records the length and the
/// offset in the slots whose addresses the guest passed. Nothing is written
/// unless all three fit.
pub fn deliver(mem: &mut [u8], offset: u32, data: &[u8], ptr_slot: u32, len_slot: u32) -> (r: Result<(), HttpError>)
    ensures
        can_deliver(old(mem)@.len(), offset, data@.len(), ptr_slot, len_slot) ==> r is Ok
            && final(mem)@ == delivered(old(mem)@, offset, data@, ptr_slot, len_slot),
        !can_deliver(old(mem)@.len(), offset, data@.len(), ptr_slot, len_slot) ==> r == Err::<
            (),
            HttpError,
        >(HttpError::MemoryAccessError) && final(mem)@ == old(mem)@,
{
    let size = mem.len();
    if data.len() > u32::MAX as usize || offset as usize > size || data.len() > size
        - offset as usize || ptr_slot as usize > size || 4 > size - ptr_slot as usize
        || len_slot as usize > size || 4 > size - len_slot as usize {
        return Err(HttpError::MemoryAccessError);
    }
    let _ = write_bytes(mem, offset, data);
    let _ = write_u32(mem, len_slot, data.len() as u32);
    let _ = write_u32(mem, ptr_slot, offset);
    Ok(())
}

} // verus!
