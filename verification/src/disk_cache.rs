//! The thumbnail cache's file format. Each file holds the thumbnail's
//! identity (source size, modification time and path) followed by its raw
//! RGBA pixels, and is named by a stable FNV-1a hash of that identity. The
//! identity is checked on read, so a hash collision is a miss, never another
//! image's pixels. Reading and writing the files belong to the platform layer.
use crate::text::push_char;
use vstd::prelude::*;

verus! {

pub const FNV_OFFSET: u64 = 0xcbf29ce484222325;
pub const FNV_PRIME: u64 = 0x100000001b3;

/// FNV-1a over the first `n` bytes of `key`.
pub open spec fn fnv(key: Seq<u8>, n: int) -> u64
    decreases n,
{
    if n <= 0 {
        FNV_OFFSET
    } else {
        vstd::wrapping::u64_specs::wrapping_mul(fnv(key, n - 1) ^ (key[n - 1] as u64), FNV_PRIME)
    }
}

/// Lower-case hexadecimal digit of `d` (0 to 15).
pub open spec fn hex_digit(d: u64) -> char {
    if d < 10 { (48 + d) as char } else { (87 + d) as char }
}

/// `h` as 16 lower-case hexadecimal digits, most significant first.
pub open spec fn hex16(h: u64) -> Seq<char> {
    Seq::new(16, |i: int| hex_digit((h >> ((60 - 4 * i) as u64)) & 15u64))
}

/// Name of the cache file for thumbnail identity `key`: `<hash>.rgba`.
pub open spec fn spec_filename(key: Seq<u8>) -> Seq<char> {
    hex16(fnv(key, key.len() as int)) + ".rgba"@
}

fn digit(d: u64) -> (c: char)
    requires
        d < 16,
    ensures
        c == hex_digit(d),
{
    if d < 10 {
        (48 + d) as u8 as char
    } else {
        (87 + d) as u8 as char
    }
}

/// The cache file name of thumbnail identity `key`.
pub fn filename(key: &[u8]) -> (name: String)
    ensures
        name@ == spec_filename(key@),
{
    let mut hash: u64 = FNV_OFFSET;
    let mut i: usize = 0;
    while i < key.len()
        invariant
            i <= key@.len(),
            hash == fnv(key@, i as int),
        decreases key@.len() - i,
    {
        hash = (hash ^ key[i] as u64).wrapping_mul(FNV_PRIME);
        i += 1;
    }
    let mut name = String::new();
    let mut k: u64 = 0;
    while k < 16
        invariant
            k <= 16,
            hash == fnv(key@, key@.len() as int),
            name@ == hex16(hash).take(k as int),
        decreases 16 - k,
    {
        let shift: u64 = 60 - 4 * k;
        let d = (hash >> shift) & 15;
        assert(d < 16) by (bit_vector)
            requires
                d == (hash >> shift) & 15,
        ;
        push_char(&mut name, digit(d));
        assert(hex16(hash).take(k as int).push(hex_digit(d)) =~= hex16(hash).take(k + 1));
        k += 1;
    }
    assert(hex16(hash).take(16) =~= hex16(hash));
    push_char(&mut name, '.');
    push_char(&mut name, 'r');
    push_char(&mut name, 'g');
    push_char(&mut name, 'b');
    push_char(&mut name, 'a');
    proof {
        reveal_strlit(".rgba");
    }
    assert(name@ =~= hex16(hash) + ".rgba"@);
    name
}

/// Bytes of a cached thumbnail's RGBA pixels: 1536 by 864, four bytes each.
pub const PIXEL_BYTES: u64 = 5_308_416;

/// What every identity starts with; a new format gets a new tag.
pub open spec fn identity_tag() -> Seq<u8> {
    seq![119u8, 105, 110, 97, 114, 99, 104, 121, 45, 116, 104, 117, 109, 98, 110, 97, 105, 108, 45, 118, 49, 0]
}

/// Byte `i` (0 is the least significant) of `x`.
pub open spec fn le_byte(x: u64, i: nat) -> u8
    decreases i,
{
    if i == 0 {
        (x % 256) as u8
    } else {
        le_byte(x / 256, (i - 1) as nat)
    }
}

/// The eight bytes of `x`, least significant first.
pub open spec fn le_bytes(x: u64) -> Seq<u8> {
    Seq::new(8, |i: int| le_byte(x, i as nat))
}

/// The identity of a thumbnail of the source of `size` bytes, modified at
/// `modified`, at the path whose bytes are `path`.
pub open spec fn spec_identity(size: u64, modified: u64, path: Seq<u8>) -> Seq<u8> {
    identity_tag() + le_bytes(size) + le_bytes(modified) + path
}

proof fn lemma_le_byte_step(x: u64, i: nat)
    ensures
        le_byte(x, i + 1) == le_byte(x / 256, i),
{
}

fn push_le_bytes(out: &mut Vec<u8>, x: u64)
    ensures
        final(out)@ == old(out)@ + le_bytes(x),
{
    let mut v: u64 = x;
    let mut i: usize = 0;
    let ghost start = old(out)@;
    while i < 8
        invariant
            i <= 8,
            out@ == start + le_bytes(x).take(i as int),
            forall|j: nat| #[trigger] le_byte(v, j) == le_byte(x, j + i as nat),
        decreases 8 - i,
    {
        let b = (v % 256) as u8;
        assert(b == le_byte(x, i as nat)) by {
            assert(le_byte(v, 0) == le_byte(x, 0 + i as nat));
        }
        out.push(b);
        assert(le_bytes(x).take(i + 1) =~= le_bytes(x).take(i as int).push(b));
        let ghost before = v;
        v = v / 256;
        assert forall|j: nat| #[trigger] le_byte(v, j) == le_byte(x, j + (i + 1) as nat) by {
            lemma_le_byte_step(before, j);
            assert(le_byte(before, j + 1) == le_byte(x, (j + 1) + i as nat));
            assert((j + 1) + i as nat == j + (i + 1) as nat);
        }
        i += 1;
    }
    assert(le_bytes(x).take(8) =~= le_bytes(x));
}

/// The identity stored at the head of a thumbnail's cache file.
pub fn identity(size: u64, modified: u64, path: &[u8]) -> (key: Vec<u8>)
    ensures
        key@ == spec_identity(size, modified, path@),
{
    let mut key: Vec<u8> = vec![119u8, 105, 110, 97, 114, 99, 104, 121, 45, 116, 104, 117, 109, 98, 110, 97, 105, 108, 45, 118, 49, 0];
    assert(key@ =~= identity_tag());
    push_le_bytes(&mut key, size);
    push_le_bytes(&mut key, modified);
    let mut i: usize = 0;
    let ghost head = key@;
    while i < path.len()
        invariant
            i <= path@.len(),
            key@ == head + path@.take(i as int),
        decreases path@.len() - i,
    {
        key.push(path[i]);
        assert(path@.take(i + 1) =~= path@.take(i as int).push(path@[i as int]));
        i += 1;
    }
    assert(path@.take(i as int) =~= path@);
    assert(key@ =~= spec_identity(size, modified, path@));
    key
}

/// Whether a cache file of `file_len` bytes can hold the thumbnail whose
/// identity is `key`: exactly the identity and the pixels.
pub fn holds(file_len: u64, key: &[u8]) -> (r: bool)
    ensures
        r == (file_len == key@.len() + PIXEL_BYTES),
{
    if file_len < PIXEL_BYTES {
        return false;
    }
    let rest = file_len - PIXEL_BYTES;
    key.len() as u64 == rest
}

/// Whether the header read from a cache file is the identity `key`: only
/// then are its pixels this thumbnail's.
pub fn same_identity(header: &[u8], key: &[u8]) -> (r: bool)
    ensures
        r == (header@ == key@),
{
    if header.len() != key.len() {
        return false;
    }
    let mut i: usize = 0;
    while i < key.len()
        invariant
            i <= key@.len(),
            header@.len() == key@.len(),
            forall|j: int| 0 <= j < i ==> header@[j] == key@[j],
        decreases key@.len() - i,
    {
        if header[i] != key[i] {
            return false;
        }
        i += 1;
    }
    assert(header@ =~= key@);
    true
}

} // verus!
