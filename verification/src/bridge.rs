//! The memory bridge: typed, bounds-checked copying of bytes between
//! host-owned buffers and a fixed region of a guest's linear memory. The
//! guest is not trusted to supply valid ranges, so a request that reaches
//! past the end of the memory is refused with a sentinel failure value
//! rather than a fault.
use crate::BUFFER_LEN;
use vstd::pervasive::VecAdditionalExecFns;
use vstd::prelude::*;

verus! {

/// Whether `len` bytes starting at `addr` lie inside a memory of `mem_len`
/// bytes.
pub open spec fn in_range(mem_len: int, addr: int, len: int) -> bool {
    addr + len <= mem_len
}

/// Bounds check for a guest-supplied range against the size of the guest's
/// currently allocated memory.
pub fn range_check(mem_len: u64, addr: u64, len: u64) -> (ok: bool)
    ensures
        ok == in_range(mem_len as int, addr as int, len as int),
{
    len <= mem_len && addr <= mem_len - len
}

/// Copy `len` bytes out of the memory image `mem` starting at `addr`, or
/// refuse when the range is out of bounds.
#[verifier::loop_isolation(false)]
pub fn read_region(mem: &Vec<u8>, addr: u64, len: u64) -> (r: Option<Vec<u8>>)
    ensures
        match r {
            Some(out) => in_range(mem@.len() as int, addr as int, len as int) && out@ == mem@.subrange(
                addr as int,
                addr as int + len as int,
            ),
            None => !in_range(mem@.len() as int, addr as int, len as int),
        },
{
    let mlen = mem.len() as u64;
    if len <= mlen && addr <= mlen - len {
        let a = addr as usize;
        let l = len as usize;
        let mut out: Vec<u8> = Vec::new();
        let mut i: usize = 0;
        while i < l
            invariant
                i <= l,
                out@ =~= mem@.subrange(a as int, a + i),
            decreases l - i,
        {
            out.push(mem[a + i]);
            assert(out@ =~= mem@.subrange(a as int, a + i + 1));
            i = i + 1;
        }
        Some(out)
    } else {
        None
    }
}

/// Copy the whole of `data` into the memory image `mem` starting at `addr`,
/// or refuse, changing nothing, when the range is out of bounds.
#[verifier::loop_isolation(false)]
pub fn write_region(mem: &mut Vec<u8>, addr: u64, data: &Vec<u8>) -> (ok: bool)
    ensures
        ok == in_range(old(mem)@.len() as int, addr as int, data@.len() as int),
        ok ==> final(mem)@ == old(mem)@.take(addr as int) + data@ + old(mem)@.skip(
            addr as int + data@.len(),
        ),
        !ok ==> final(mem)@ == old(mem)@,
{
    let mlen = mem.len() as u64;
    let dlen = data.len() as u64;
    if dlen <= mlen && addr <= mlen - dlen {
        let a = addr as usize;
        let mut i: usize = 0;
        while i < data.len()
            invariant
                i <= data@.len(),
                mem@.len() == old(mem)@.len(),
                mem@ =~= old(mem)@.take(a as int) + data@.take(i as int) + old(mem)@.skip(
                    a + i,
                ),
            decreases data@.len() - i,
        {
            mem.set(a + i, data[i]);
            assert(mem@ =~= old(mem)@.take(a as int) + data@.take(i + 1) + old(mem)@.skip(
                a + i + 1,
            ));
            i = i + 1;
        }
        true
    } else {
        false
    }
}

/// Copy the framebuffer region out of a guest memory image into the
/// caller-supplied frame, overwriting it in full; refused, changing
/// nothing, when the region is out of bounds or the frame has the wrong
/// size.
#[verifier::loop_isolation(false)]
pub fn copy_frame_out(mem: &Vec<u8>, addr: u64, frame: &mut Vec<u8>) -> (ok: bool)
    ensures
        ok == (in_range(mem@.len() as int, addr as int, BUFFER_LEN as int) && old(frame)@.len()
            == BUFFER_LEN),
        ok ==> final(frame)@ == mem@.subrange(addr as int, addr as int + BUFFER_LEN as int),
        !ok ==> final(frame)@ == old(frame)@,
{
    let mlen = mem.len() as u64;
    if frame.len() == BUFFER_LEN && BUFFER_LEN as u64 <= mlen && addr <= mlen - BUFFER_LEN as u64 {
        let a = addr as usize;
        let mut i: usize = 0;
        while i < BUFFER_LEN
            invariant
                i <= BUFFER_LEN,
                frame@.len() == BUFFER_LEN,
                frame@ =~= mem@.subrange(a as int, a + i) + old(frame)@.skip(i as int),
            decreases BUFFER_LEN - i,
        {
            frame.set(i, mem[a + i]);
            assert(frame@ =~= mem@.subrange(a as int, a + i + 1) + old(frame)@.skip(i + 1));
            i = i + 1;
        }
        assert(final(frame)@ =~= mem@.subrange(a as int, a + BUFFER_LEN as int));
        true
    } else {
        false
    }
}

} // verus!
