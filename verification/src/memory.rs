//! The memory bridge: bounds-checked reads and writes over a module's linear
//! memory, and the packing convention that carries a buffer's offset and
//! length across the call boundary in a single 64-bit word.

use vstd::prelude::*;

verus! {

/// The size in bytes of one linear-memory page, the minimum a module is
/// instantiated with.
pub const PAGE_SIZE: usize = 65536;

/// The number of values a 32-bit half of the packed word can carry. Offsets
/// and lengths beyond it cannot cross the call boundary: an explicit,
/// documented ceiling of the protocol.
pub const PACK_LIMIT: u64 = 0x1_0000_0000;

/// An error on the host side of a call into a module.
#[derive(Debug)]
pub enum SignalError {
    /// A buffer reference pointed past the end of the module's memory; the
    /// payload is the shortfall in bytes. The read is refused, never made.
    MemoryTooSmall(usize),
    /// The call into the module failed in the runtime.
    CallFailed(String),
    /// The module reported an error of its own.
    WrapError(crate::interface::WrapError),
    /// The host could not decode the module's response.
    DecodeFailed(String),
    /// The host could not encode the request into the module's memory.
    EncodeFailed(String),
    /// No module is loaded under the requested capability key.
    WrapDoesNotExist,
}

/// The packed result word: the buffer's byte length in the low 32 bits and
/// its byte offset in the high 32 bits.
pub open spec fn pack_spec(offset: u64, len: u64) -> u64 {
    (len & 0xFFFF_FFFF) | (offset << 32)
}

/// The byte length carried by a packed word.
pub open spec fn unpack_len_spec(word: u64) -> u64 {
    word & 0xFFFF_FFFF
}

/// The byte offset carried by a packed word.
pub open spec fn unpack_offset_spec(word: u64) -> u64 {
    word >> 32
}

/// Packing an in-range offset and length and unpacking the word yields them
/// back.
pub proof fn lemma_pack_unpack(offset: u64, len: u64)
    requires
        offset < PACK_LIMIT,
        len < PACK_LIMIT,
    ensures
        unpack_len_spec(pack_spec(offset, len)) == len,
        unpack_offset_spec(pack_spec(offset, len)) == offset,
{
    assert(((len & 0xFFFF_FFFF) | (offset << 32)) & 0xFFFF_FFFF == len) by (bit_vector)
        requires
            len < 0x1_0000_0000u64,
    ;
    assert(((len & 0xFFFF_FFFF) | (offset << 32)) >> 32 == offset) by (bit_vector)
        requires
            offset < 0x1_0000_0000u64,
    ;
}

/// Packs a buffer's offset and length into one result word.
pub fn pack(offset: u64, len: u64) -> (r: u64)
    requires
        offset < PACK_LIMIT,
        len < PACK_LIMIT,
    ensures
        r == pack_spec(offset, len),
        unpack_len_spec(r) == len,
        unpack_offset_spec(r) == offset,
{
    proof {
        lemma_pack_unpack(offset, len);
    }
    (len & 0xFFFF_FFFF) | (offset << 32)
}

/// Splits a packed result word into its offset and length.
pub fn unpack(word: u64) -> (r: (u64, u64))
    ensures
        r.0 == unpack_offset_spec(word),
        r.1 == unpack_len_spec(word),
        r.0 < PACK_LIMIT,
        r.1 < PACK_LIMIT,
{
    proof {
        assert(word >> 32 < 0x1_0000_0000u64 && word & 0xFFFF_FFFF < 0x1_0000_0000u64)
            by (bit_vector);
    }
    (word >> 32, word & 0xFFFF_FFFF)
}

/// A bounds-checked view of `slice[lower..upper]`. When the range reaches
/// past the end, the read is refused and the shortfall reported; no byte
/// outside the slice is ever touched.
pub fn mem_slice<'a>(slice: &'a [u8], lower: usize, upper: usize) -> (r: Result<&'a [u8], usize>)
    requires
        lower <= upper,
    ensures
        match r {
            Ok(out) => upper <= slice@.len() && out@ == slice@.subrange(
                lower as int,
                upper as int,
            ),
            Err(shortfall) => upper > slice@.len() && shortfall == upper - slice@.len(),
        },
{
    let max = slice.len();
    if upper > max {
        Err(upper - max)
    } else {
        Ok(vstd::slice::slice_subrange(slice, lower, upper))
    }
}

/// The buffer a packed result word refers to, read out of the module's
/// memory, or `MemoryTooSmall` with the shortfall when offset plus length
/// reaches past the memory's current size. The failing case reads nothing.
pub fn read_packed(memory: &[u8], word: u64) -> (r: Result<Vec<u8>, SignalError>)
    ensures
        match r {
            Ok(out) => {
                &&& unpack_offset_spec(word) + unpack_len_spec(word) <= memory@.len()
                &&& out@ == memory@.subrange(
                    unpack_offset_spec(word) as int,
                    unpack_offset_spec(word) + unpack_len_spec(word),
                )
            },
            Err(e) => {
                &&& unpack_offset_spec(word) + unpack_len_spec(word) > memory@.len()
                &&& e == SignalError::MemoryTooSmall(
                    (unpack_offset_spec(word) + unpack_len_spec(word) - memory@.len()) as usize,
                )
            },
        },
{
    let (offset, len) = unpack(word);
    if len > usize::MAX as u64 - offset as u64 {
        // Cannot happen for 64-bit addresses, but the check keeps the
        // arithmetic below in range on any platform.
        return Err(SignalError::MemoryTooSmall(
            ((offset + len) - memory.len() as u64) as usize,
        ));
    }
    let lower = offset as usize;
    let upper = lower + len as usize;
    match mem_slice(memory, lower, upper) {
        Ok(out) => Ok(vstd::slice::slice_to_vec(out)),
        Err(shortfall) => Err(SignalError::MemoryTooSmall(shortfall)),
    }
}

/// Writes `data` over the start of the module's memory: the protocol
/// reserves offset zero for the current call's request, written fresh before
/// every call. Refused when the request does not fit.
pub fn write_request(memory: &mut Vec<u8>, data: &[u8]) -> (r: Result<(), SignalError>)
    ensures
        match r {
            Ok(()) => {
                &&& data@.len() <= old(memory)@.len()
                &&& final(memory)@.len() == old(memory)@.len()
                &&& final(memory)@.subrange(0, data@.len() as int) == data@
                &&& final(memory)@.subrange(data@.len() as int, final(memory)@.len() as int)
                    == old(memory)@.subrange(data@.len() as int, old(memory)@.len() as int)
            },
            Err(e) => {
                &&& data@.len() > old(memory)@.len()
                &&& e is EncodeFailed
                &&& *final(memory) == *old(memory)
            },
        },
{
    if data.len() > memory.len() {
        return Err(SignalError::EncodeFailed(String::from_str("request exceeds module memory")));
    }
    let n = data.len();
    let mut i: usize = 0;
    while i < n
        invariant
            i <= n,
            n == data@.len() <= memory@.len(),
            memory@.len() == old(memory)@.len(),
            memory@.subrange(0, i as int) == data@.subrange(0, i as int),
            memory@.subrange(n as int, memory@.len() as int) == old(memory)@.subrange(
                n as int,
                old(memory)@.len() as int,
            ),
            forall|j: int| i <= j < memory@.len() ==> memory@[j] == old(memory)@[j],
        decreases n - i,
    {
        memory.set(i, data[i]);
        proof {
            assert(memory@.subrange(0, i + 1) =~= memory@.subrange(0, i as int).push(
                data@[i as int],
            ));
            assert(memory@.subrange(0, i as int) =~= data@.subrange(0, i as int));
            assert(memory@.subrange(0, i + 1) =~= data@.subrange(0, i + 1));
            assert(memory@.subrange(n as int, memory@.len() as int) =~= old(memory)@.subrange(
                n as int,
                old(memory)@.len() as int,
            ));
        }
        i = i + 1;
    }
    proof {
        assert(memory@.subrange(0, n as int) =~= data@);
    }
    Ok(())
}

/// Grows the module's memory to at least `size` bytes, filling new space
/// with zeros, as a module does internally when a response needs more room.
pub fn grow_to(memory: &mut Vec<u8>, size: usize)
    ensures
        final(memory)@.len() >= size,
        final(memory)@.len() >= old(memory)@.len(),
        final(memory)@.subrange(0, old(memory)@.len() as int) == old(memory)@,
{
    while memory.len() < size
        invariant
            memory@.len() >= old(memory)@.len(),
            memory@.subrange(0, old(memory)@.len() as int) == old(memory)@,
        decreases size - memory@.len(),
    {
        memory.push(0u8);
        proof {
            assert(memory@.subrange(0, old(memory)@.len() as int) =~= old(memory)@);
        }
    }
}

} // verus!
