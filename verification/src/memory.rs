//! The guest-memory accessor: bounds-checked reads and writes of byte
//! ranges, UTF-8 strings and little-endian 32-bit value arrays out of the
//! module's single linear memory, here handled as a byte vector.

use vstd::prelude::*;

verus! {

/// What `String::from_utf8_lossy` decodes a byte sequence to. The result
/// depends on the bytes alone.
pub uninterp spec fn utf8_lossy(bytes: Seq<u8>) -> Seq<char>;

/// Relies on `String::from_utf8_lossy`: decodes UTF-8, replacing invalid
/// sequences with the replacement character; valid UTF-8 passes through
/// unchanged, so on valid input the result is exactly the decoding.
#[verifier::external_body]
pub fn lossy_string(bytes: &Vec<u8>) -> (r: String)
    ensures
        r@ == utf8_lossy(bytes@),
        vstd::utf8::valid_utf8(bytes@) ==> r@ == vstd::utf8::decode_utf8(bytes@),
{
    String::from_utf8_lossy(bytes).into_owned()
}

/// Whether the byte range `[ptr, ptr + len)` lies inside a memory of the
/// given size.
pub open spec fn in_bounds(mem_len: nat, ptr: u32, len: int) -> bool {
    ptr + len <= mem_len
}

/// The bytes at `[ptr, ptr + len)`, or `None` when the range leaves the
/// memory.
pub fn read_bytes(mem: &Vec<u8>, ptr: u32, len: u32) -> (r: Option<Vec<u8>>)
    ensures
        match r {
            Some(bytes) => in_bounds(mem@.len(), ptr, len as int) && bytes@ == mem@.subrange(
                ptr as int,
                ptr + len,
            ),
            None => !in_bounds(mem@.len(), ptr, len as int),
        },
{
    if len as usize <= mem.len() && ptr as usize <= mem.len() - len as usize {
        let mut out: Vec<u8> = Vec::new();
        let mut i: usize = 0;
        while i < len as usize
            invariant
                i <= len,
                ptr + len <= mem@.len(),
                mem@.len() <= usize::MAX,
                out@ =~= mem@.subrange(ptr as int, ptr + i),
            decreases len as usize - i,
        {
            out.push(mem[ptr as usize + i]);
            i += 1;
        }
        proof {
            assert(out@ =~= mem@.subrange(ptr as int, ptr + len));
        }
        Some(out)
    } else {
        None
    }
}

/// The string at `[ptr, ptr + len)`, decoded lossily, or `None` when the
/// range leaves the memory.
pub fn read_string(mem: &Vec<u8>, ptr: u32, len: u32) -> (r: Option<String>)
    ensures
        match r {
            Some(s) => in_bounds(mem@.len(), ptr, len as int) && s@ == utf8_lossy(
                mem@.subrange(ptr as int, ptr + len),
            ),
            None => !in_bounds(mem@.len(), ptr, len as int),
        },
{
    match read_bytes(mem, ptr, len) {
        Some(bytes) => Some(lossy_string(&bytes)),
        None => None,
    }
}

/// The optional string a guest hands by pointer and length: a zero length
/// or a range leaving the memory reads as absent.
pub open spec fn opt_str(mem: Seq<u8>, ptr: u32, len: u32) -> Option<Seq<char>> {
    if len > 0 && ptr + len <= mem.len() {
        Some(utf8_lossy(mem.subrange(ptr as int, ptr + len)))
    } else {
        None
    }
}

/// Reads the optional string at `(ptr, len)`: absent when the length is
/// zero or the range leaves the memory.
pub fn read_opt_str(mem: &Vec<u8>, ptr: u32, len: u32) -> (r: Option<String>)
    ensures
        match opt_str(mem@, ptr, len) {
            Some(s) => r is Some && r->0@ == s,
            None => r is None,
        },
{
    if len > 0 {
        read_string(mem, ptr, len)
    } else {
        None
    }
}

/// The little-endian 32-bit integer encoded by four bytes.
pub open spec fn le_i32(b0: u8, b1: u8, b2: u8, b3: u8) -> i32 {
    ((b0 as u32) | ((b1 as u32) << 8) | ((b2 as u32) << 16) | ((b3 as u32) << 24)) as i32
}

/// The `count` little-endian 32-bit values starting at `ptr`.
pub open spec fn le_values(mem: Seq<u8>, ptr: u32, count: u32) -> Seq<i32> {
    Seq::new(
        count as nat,
        |k: int| le_i32(mem[ptr + 4 * k], mem[ptr + 4 * k + 1], mem[ptr + 4 * k + 2], mem[ptr + 4
            * k + 3]),
    )
}

/// The `count` little-endian 32-bit values starting at `ptr`, or `None`
/// when their bytes leave the memory. Guest memory is little-endian.
pub fn read_values_i32(mem: &Vec<u8>, ptr: u32, count: u32) -> (r: Option<Vec<i32>>)
    ensures
        match r {
            Some(vals) => {
                &&& ptr + 4 * count <= mem@.len()
                &&& vals@ == le_values(mem@, ptr, count)
            },
            None => ptr + 4 * count > mem@.len(),
        },
{
    if (count as usize) <= mem.len() / 4 && (ptr as usize) <= mem.len() - 4 * (count as usize) {
        let mut out: Vec<i32> = Vec::new();
        let mut k: usize = 0;
        while k < count as usize
            invariant
                k <= count,
                ptr + 4 * count <= mem@.len(),
                mem@.len() <= usize::MAX,
                out@.len() == k,
                forall|j: int| 0 <= j < k ==> out@[j] == le_i32(
                    mem@[ptr + 4 * j],
                    mem@[ptr + 4 * j + 1],
                    mem@[ptr + 4 * j + 2],
                    mem@[ptr + 4 * j + 3],
                ),
            decreases count as usize - k,
        {
            let base = ptr as usize + 4 * k;
            let b0 = mem[base];
            let b1 = mem[base + 1];
            let b2 = mem[base + 2];
            let b3 = mem[base + 3];
            let v = #[verifier::truncate] (((b0 as u32) | ((b1 as u32) << 8) | ((b2 as u32)
                << 16) | ((b3 as u32) << 24)) as i32);
            out.push(v);
            k += 1;
        }
        proof {
            assert(out@ =~= le_values(mem@, ptr, count));
        }
        Some(out)
    } else {
        None
    }
}

/// Writes `src` at `[ptr, ptr + src.len())`. A write that would leave the
/// memory is a silent no-op; nothing outside the range changes.
pub fn write_bytes(mem: &mut Vec<u8>, src: &Vec<u8>, ptr: u32)
    ensures
        final(mem)@.len() == old(mem)@.len(),
        in_bounds(old(mem)@.len(), ptr, src@.len() as int) ==> forall|
            i: int,
        |
            0 <= i < old(mem)@.len() ==> final(mem)@[i] == (if ptr <= i < ptr + src@.len() {
                src@[i - ptr]
            } else {
                old(mem)@[i]
            }),
        !in_bounds(old(mem)@.len(), ptr, src@.len() as int) ==> final(mem)@ == old(mem)@,
{
    if src.len() <= mem.len() && (ptr as usize) <= mem.len() - src.len() {
        let mut i: usize = 0;
        while i < src.len()
            invariant
                i <= src@.len(),
                ptr + src@.len() <= mem@.len(),
                mem@.len() <= usize::MAX,
                mem@.len() == old(mem)@.len(),
                forall|j: int| 0 <= j < mem@.len() ==> mem@[j] == (if ptr <= j < ptr + i {
                    src@[j - ptr]
                } else {
                    old(mem)@[j]
                }),
            decreases src@.len() - i,
        {
            mem.set(ptr as usize + i, src[i]);
            i += 1;
        }
    }
}

} // verus!
