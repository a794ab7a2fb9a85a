//! Image headers: dimensions straight from the first bytes of PNG, GIF, BMP
//! and JPEG data, and the file extension for an image mime type.
use vstd::prelude::*;

verus! {

/// Big-endian 32-bit value of `d[i..i+4]`.
pub open spec fn be32(d: Seq<u8>, i: int) -> u32 {
    (d[i] as int * 0x100_0000 + d[i + 1] as int * 0x1_0000 + d[i + 2] as int * 0x100 + d[i
        + 3] as int) as u32
}

/// Little-endian 32-bit value of `d[i..i+4]`.
pub open spec fn le32(d: Seq<u8>, i: int) -> u32 {
    (d[i + 3] as int * 0x100_0000 + d[i + 2] as int * 0x1_0000 + d[i + 1] as int * 0x100
        + d[i] as int) as u32
}

/// Big-endian 16-bit value of `d[i..i+2]`.
pub open spec fn be16(d: Seq<u8>, i: int) -> u32 {
    (d[i] as int * 0x100 + d[i + 1] as int) as u32
}

/// Little-endian 16-bit value of `d[i..i+2]`.
pub open spec fn le16(d: Seq<u8>, i: int) -> u32 {
    (d[i + 1] as int * 0x100 + d[i] as int) as u32
}

/// Whether `d` begins with the bytes of `p`.
pub open spec fn has_prefix(d: Seq<u8>, p: Seq<u8>) -> bool {
    p.len() <= d.len() && d.take(p.len() as int) == p
}

/// The PNG signature.
pub open spec fn png_magic() -> Seq<u8> {
    seq![0x89u8, 0x50, 0x4e, 0x47, 0x0d, 0x0a, 0x1a, 0x0a]
}

/// The chunk type "IHDR".
pub open spec fn ihdr() -> Seq<u8> {
    seq![0x49u8, 0x48, 0x44, 0x52]
}

/// "GIF87a".
pub open spec fn gif87a() -> Seq<u8> {
    seq![0x47u8, 0x49, 0x46, 0x38, 0x37, 0x61]
}

/// "GIF89a".
pub open spec fn gif89a() -> Seq<u8> {
    seq![0x47u8, 0x49, 0x46, 0x38, 0x39, 0x61]
}

/// Whether JPEG marker `m` starts a frame (SOF0..SOF15 without DHT, JPG, DAC).
pub open spec fn is_sof_marker(m: u8) -> bool {
    0xc0 <= m <= 0xcf && m != 0xc4 && m != 0xc8 && m != 0xcc
}

/// The JPEG scan from position `i`: skip to the next 0xFF, then either a
/// frame header (width, height) or a segment length to jump over.
pub open spec fn jpeg_scan(d: Seq<u8>, i: nat) -> Option<(u32, u32)>
    decreases d.len() - i,
{
    if i + 9 >= d.len() {
        None
    } else if d[i as int] != 0xff {
        jpeg_scan(d, i + 1)
    } else if is_sof_marker(d[i + 1int]) {
        Some((be16(d, i + 7int), be16(d, i + 5int)))
    } else {
        let next = i + 2 + be16(d, i + 2int) as nat;
        if next >= d.len() {
            None
        } else {
            jpeg_scan(d, next)
        }
    }
}

/// The dimensions (width, height) that the header of `d` gives, if it is a
/// PNG, GIF, BMP or JPEG header.
pub open spec fn image_size_spec(d: Seq<u8>) -> Option<(u32, u32)> {
    if d.len() > 24 && has_prefix(d, png_magic()) && d.subrange(12, 16) == ihdr() {
        Some((be32(d, 16), be32(d, 20)))
    } else if d.len() > 10 && (has_prefix(d, gif87a()) || has_prefix(d, gif89a())) {
        Some((le16(d, 6), le16(d, 8)))
    } else if d.len() > 26 && d[0] == 0x42 && d[1] == 0x4d {
        Some((le32(d, 18), le32(d, 22)))
    } else if d.len() > 4 && d[0] == 0xff && d[1] == 0xd8 {
        jpeg_scan(d, 2)
    } else {
        None
    }
}

fn be32_at(d: &[u8], i: usize) -> (r: u32)
    requires
        i + 4 <= d.len(),
    ensures
        r == be32(d@, i as int),
{
    (d[i] as u32) * 0x100_0000 + (d[i + 1] as u32) * 0x1_0000 + (d[i + 2] as u32) * 0x100 + (d[i
        + 3] as u32)
}

fn le32_at(d: &[u8], i: usize) -> (r: u32)
    requires
        i + 4 <= d.len(),
    ensures
        r == le32(d@, i as int),
{
    (d[i + 3] as u32) * 0x100_0000 + (d[i + 2] as u32) * 0x1_0000 + (d[i + 1] as u32) * 0x100 + (
    d[i] as u32)
}

fn be16_at(d: &[u8], i: usize) -> (r: u32)
    requires
        i + 2 <= d.len(),
    ensures
        r == be16(d@, i as int),
        r < 0x1_0000,
{
    (d[i] as u32) * 0x100 + (d[i + 1] as u32)
}

fn le16_at(d: &[u8], i: usize) -> (r: u32)
    requires
        i + 2 <= d.len(),
    ensures
        r == le16(d@, i as int),
{
    (d[i + 1] as u32) * 0x100 + (d[i] as u32)
}

/// Whether `d[at..]` begins with the bytes of `p`.
fn bytes_at(d: &[u8], at: usize, p: &[u8]) -> (r: bool)
    requires
        at + p.len() <= d.len(),
    ensures
        r == (d@.subrange(at as int, at + p@.len()) == p@),
{
    let mut k: usize = 0;
    while k < p.len()
        invariant
            k <= p@.len(),
            at + p.len() <= d.len(),
            forall|m: int| 0 <= m < k ==> d@[at + m] == p@[m],
        decreases p@.len() - k,
    {
        if d[at + k] != p[k] {
            assert(d@.subrange(at as int, at + p@.len())[k as int] != p@[k as int]);
            return false;
        }
        k = k + 1;
    }
    assert(d@.subrange(at as int, at + p@.len()) =~= p@);
    true
}

/// Read image dimensions straight from the header; no full decode needed.
pub fn image_size(data: &[u8]) -> (r: Option<(u32, u32)>)
    requires
        data@.len() <= isize::MAX,
    ensures
        r == image_size_spec(data@),
{
    let d = data;
    let n: usize = d.len();
    let png: [u8; 8] = [0x89, 0x50, 0x4e, 0x47, 0x0d, 0x0a, 0x1a, 0x0a];
    let tag: [u8; 4] = [0x49, 0x48, 0x44, 0x52];
    let g87: [u8; 6] = [0x47, 0x49, 0x46, 0x38, 0x37, 0x61];
    let g89: [u8; 6] = [0x47, 0x49, 0x46, 0x38, 0x39, 0x61];
    assert(png@ =~= png_magic());
    assert(tag@ =~= ihdr());
    assert(g87@ =~= gif87a());
    assert(g89@ =~= gif89a());
    proof {
        if n >= 8 {
            assert(d@.subrange(0, 8) =~= d@.take(8));
        }
        if n >= 6 {
            assert(d@.subrange(0, 6) =~= d@.take(6));
        }
    }
    if n > 24 && bytes_at(d, 0, png.as_slice()) && bytes_at(d, 12, tag.as_slice()) {
        return Some((be32_at(d, 16), be32_at(d, 20)));
    }
    if n > 10 && (bytes_at(d, 0, g87.as_slice()) || bytes_at(d, 0, g89.as_slice())) {
        return Some((le16_at(d, 6), le16_at(d, 8)));
    }
    if n > 26 && d[0] == 0x42 && d[1] == 0x4d {
        return Some((le32_at(d, 18), le32_at(d, 22)));
    }
    if n > 4 && d[0] == 0xff && d[1] == 0xd8 {
        let mut i: usize = 2;
        while i + 9 < n
            invariant
                d@ == data@,
                n == d@.len() <= isize::MAX,
                2 <= i <= n,
                image_size_spec(d@) == jpeg_scan(d@, 2),
                jpeg_scan(d@, i as nat) == jpeg_scan(d@, 2),
            decreases n - i,
        {
            if d[i] != 0xff {
                i = i + 1;
                continue;
            }
            let m: u8 = d[i + 1];
            if 0xc0 <= m && m <= 0xcf && m != 0xc4 && m != 0xc8 && m != 0xcc {
                let h: u32 = be16_at(d, i + 5);
                let w: u32 = be16_at(d, i + 7);
                return Some((w, h));
            }
            let seg: u32 = be16_at(d, i + 2);
            let next: usize = i + 2 + seg as usize;
            if next >= n {
                return None;
            }
            i = next;
        }
        return None;
    }
    None
}

/// File-name extension for an image of the given mime type.
pub open spec fn ext_for_spec(mime: Seq<char>) -> Seq<char> {
    if mime == "image/png"@ {
        "png"@
    } else if mime == "image/jpeg"@ {
        "jpg"@
    } else if mime == "image/bmp"@ {
        "bmp"@
    } else if mime == "image/gif"@ {
        "gif"@
    } else {
        "bin"@
    }
}

pub fn ext_for(mime: &str) -> (r: &'static str)
    ensures
        r@ == ext_for_spec(mime@),
{
    if crate::text::str_eq(mime, "image/png") {
        "png"
    } else if crate::text::str_eq(mime, "image/jpeg") {
        "jpg"
    } else if crate::text::str_eq(mime, "image/bmp") {
        "bmp"
    } else if crate::text::str_eq(mime, "image/gif") {
        "gif"
    } else {
        "bin"
    }
}

} // verus!
