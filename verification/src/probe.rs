use vstd::prelude::*;
use vstd::slice::slice_subrange;
use crate::media::{extension, is_video_path, spec_extension, spec_is_video_path};
use crate::text::str_eq;

verus! {

// ---------------------------------------------------------------------------
// Byte-level model
// ---------------------------------------------------------------------------

/// Value of a byte sequence read as a big-endian unsigned integer.
pub open spec fn be(t: Seq<u8>) -> nat
    decreases t.len(),
{
    if t.len() == 0 {
        0
    } else {
        be(t.drop_last()) * 256 + t.last() as nat
    }
}

/// Value of a byte sequence read as a little-endian unsigned integer.
pub open spec fn le(t: Seq<u8>) -> nat
    decreases t.len(),
{
    if t.len() == 0 {
        0
    } else {
        t[0] as nat + le(t.drop_first()) * 256
    }
}

/// 256 raised to the power `n`.
pub open spec fn pow256(n: nat) -> nat
    decreases n,
{
    if n == 0 {
        1
    } else {
        256 * pow256((n - 1) as nat)
    }
}

/// Appending a byte shifts the big-endian value by one byte.
pub proof fn lemma_be_push(t: Seq<u8>, b: u8)
    ensures
        be(t.push(b)) == be(t) * 256 + b,
{
    assert(t.push(b).drop_last() =~= t);
}

/// A big-endian value of `n` bytes is below `256^n`.
pub proof fn lemma_be_bound(t: Seq<u8>)
    ensures
        be(t) < pow256(t.len()),
    decreases t.len(),
{
    if t.len() > 0 {
        lemma_be_bound(t.drop_last());
    }
}

/// `256^n` grows with `n`.
pub proof fn lemma_pow256_mono(a: nat, b: nat)
    requires
        a <= b,
    ensures
        pow256(a) <= pow256(b),
    decreases b,
{
    if a < b {
        lemma_pow256_mono(a, (b - 1) as nat);
    }
}

proof fn lemma_pow256_values()
    ensures
        pow256(4) == 0x1_0000_0000,
        pow256(7) == 0x100_0000_0000_0000,
        pow256(8) == 0x1_0000_0000_0000_0000,
{
    reveal_with_fuel(pow256, 9);
}

proof fn lemma_be4(t: Seq<u8>)
    requires
        t.len() == 4,
    ensures
        be(t) == t[0] * 0x100_0000 + t[1] * 0x1_0000 + t[2] * 0x100 + t[3],
{
    let t3 = t.drop_last();
    let t2 = t3.drop_last();
    let t1 = t2.drop_last();
    assert(t1.drop_last() =~= Seq::<u8>::empty());
    assert(be(t1.drop_last()) == 0);
    assert(t1.last() == t[0]);
    assert(be(t1) == t[0]);
    assert(be(t2) == t[0] * 256 + t[1]);
    assert(be(t3) == (t[0] * 256 + t[1]) * 256 + t[2]);
}

proof fn lemma_le4(t: Seq<u8>)
    requires
        t.len() == 4,
    ensures
        le(t) == t[0] + t[1] * 0x100 + t[2] * 0x1_0000 + t[3] * 0x100_0000,
{
    let t1 = t.drop_first();
    let t2 = t1.drop_first();
    let t3 = t2.drop_first();
    assert(t3.drop_first() =~= Seq::<u8>::empty());
    assert(le(t3.drop_first()) == 0);
    assert(t3[0] == t[3]);
    assert(le(t3) == t[3]);
    assert(le(t2) == t[2] + t[3] * 256);
    assert(le(t1) == t[1] + (t[2] + t[3] * 256) * 256);
}

/// Four bytes at `offset` as a big-endian `u32`, or nothing when they do not all exist.
pub open spec fn spec_be_u32(s: Seq<u8>, offset: int) -> Option<u32> {
    if 0 <= offset && offset + 4 <= s.len() {
        Some(be(s.subrange(offset, offset + 4)) as u32)
    } else {
        None
    }
}

/// Four bytes at `offset` as a little-endian `u32`, or nothing when they do not all exist.
pub open spec fn spec_le_u32(s: Seq<u8>, offset: int) -> Option<u32> {
    if 0 <= offset && offset + 4 <= s.len() {
        Some(le(s.subrange(offset, offset + 4)) as u32)
    } else {
        None
    }
}

/// Reads a big-endian `u32` at `offset`.
pub fn be_u32(bytes: &[u8], offset: usize) -> (r: Option<u32>)
    ensures
        r == spec_be_u32(bytes@, offset as int),
        r matches Some(v) ==> v == be(bytes@.subrange(offset as int, offset + 4)),
{
    let len = bytes.len();
    if offset > len || len - offset < 4 {
        return None;
    }
    let v = (bytes[offset] as u32) * 0x100_0000 + (bytes[offset + 1] as u32) * 0x1_0000 + (
    bytes[offset + 2] as u32) * 0x100 + (bytes[offset + 3] as u32);
    proof {
        lemma_be4(bytes@.subrange(offset as int, offset + 4));
    }
    Some(v)
}

/// Reads a little-endian `u32` at `offset`.
pub fn le_u32(bytes: &[u8], offset: usize) -> (r: Option<u32>)
    ensures
        r == spec_le_u32(bytes@, offset as int),
        r matches Some(v) ==> v == le(bytes@.subrange(offset as int, offset + 4)),
{
    let len = bytes.len();
    if offset > len || len - offset < 4 {
        return None;
    }
    let v = (bytes[offset] as u32) + (bytes[offset + 1] as u32) * 0x100 + (bytes[offset + 2] as u32)
        * 0x1_0000 + (bytes[offset + 3] as u32) * 0x100_0000;
    proof {
        lemma_le4(bytes@.subrange(offset as int, offset + 4));
    }
    Some(v)
}

/// Whether the four bytes at `at` spell `tag`.
fn tag_at(bytes: &[u8], at: usize, tag: [u8; 4]) -> (r: bool)
    requires
        at + 4 <= bytes@.len(),
    ensures
        r == (bytes@.subrange(at as int, at + 4) == tag@),
{
    let r = bytes[at] == tag[0] && bytes[at + 1] == tag[1] && bytes[at + 2] == tag[2] && bytes[at
        + 3] == tag[3];
    if r {
        assert(bytes@.subrange(at as int, at + 4) =~= tag@);
    } else {
        assert(bytes@.subrange(at as int, at + 4) != tag@) by {
            if bytes@.subrange(at as int, at + 4) == tag@ {
                assert(bytes@.subrange(at as int, at + 4)[0] == tag@[0]);
                assert(bytes@.subrange(at as int, at + 4)[1] == tag@[1]);
                assert(bytes@.subrange(at as int, at + 4)[2] == tag@[2]);
                assert(bytes@.subrange(at as int, at + 4)[3] == tag@[3]);
            }
        }
    }
    r
}

// ---------------------------------------------------------------------------
// Plausible sizes
// ---------------------------------------------------------------------------

/// Largest width or height accepted from a container header.
pub const MAX_DIMENSION: u32 = 100_000;

/// A width and height are plausible when both are positive and at most `MAX_DIMENSION`.
pub open spec fn spec_valid_size(width: u32, height: u32) -> Option<(u32, u32)> {
    if 0 < width && 0 < height && width <= MAX_DIMENSION && height <= MAX_DIMENSION {
        Some((width, height))
    } else {
        None
    }
}

/// Keeps a decoded size only when it is plausible.
pub fn valid_size(width: u32, height: u32) -> (r: Option<(u32, u32)>)
    ensures
        r == spec_valid_size(width, height),
{
    if width > 0 && height > 0 && width <= MAX_DIMENSION && height <= MAX_DIMENSION {
        Some((width, height))
    } else {
        None
    }
}

// ---------------------------------------------------------------------------
// AVI (RIFF)
// ---------------------------------------------------------------------------

pub open spec fn riff_tag() -> Seq<u8> {
    seq![0x52u8, 0x49, 0x46, 0x46]
}

pub open spec fn avi_tag() -> Seq<u8> {
    seq![0x41u8, 0x56, 0x49, 0x20]
}

pub open spec fn avih_tag() -> Seq<u8> {
    seq![0x61u8, 0x76, 0x69, 0x68]
}

/// Walks the RIFF chunks from `offset`: the first `avih` chunk of at least 40 bytes
/// decides the result (its frame width at +32 and height at +36); a chunk that
/// runs past the end stops the walk with nothing found.
pub open spec fn avi_walk(s: Seq<u8>, offset: int) -> Option<(u32, u32)>
    decreases s.len() - offset,
{
    if offset < 0 || offset + 8 > s.len() {
        None
    } else {
        let size = le(s.subrange(offset + 4, offset + 8));
        let body = offset + 8;
        let end = body + size;
        if end > s.len() {
            None
        } else if s.subrange(offset, offset + 4) == avih_tag() && size >= 40 {
            spec_valid_size(
                le(s.subrange(body + 32, body + 36)) as u32,
                le(s.subrange(body + 36, body + 40)) as u32,
            )
        } else if end + size % 2 > s.len() {
            None
        } else {
            avi_walk(s, end + size % 2)
        }
    }
}

/// Frame size announced by an AVI header: `RIFF` at 0, `AVI ` at 8, chunks from 12.
pub open spec fn spec_probe_avi(s: Seq<u8>) -> Option<(u32, u32)> {
    if s.len() >= 12 && s.subrange(0, 4) == riff_tag() && s.subrange(8, 12) == avi_tag() {
        avi_walk(s, 12)
    } else {
        None
    }
}

/// Reads the frame size from the main AVI header (`avih`).
pub fn probe_avi(bytes: &[u8]) -> (r: Option<(u32, u32)>)
    ensures
        r == spec_probe_avi(bytes@),
{
    let len = bytes.len();
    if len < 12 {
        return None;
    }
    if !tag_at(bytes, 0, [0x52u8, 0x49, 0x46, 0x46]) || !tag_at(bytes, 8, [0x41u8, 0x56, 0x49, 0x20]) {
        proof {
            assert([0x52u8, 0x49, 0x46, 0x46]@ =~= riff_tag());
            assert([0x41u8, 0x56, 0x49, 0x20]@ =~= avi_tag());
        }
        return None;
    }
    proof {
        assert([0x52u8, 0x49, 0x46, 0x46]@ =~= riff_tag());
        assert([0x41u8, 0x56, 0x49, 0x20]@ =~= avi_tag());
    }
    let mut offset: usize = 12;
    while offset <= len && len - offset >= 8
        invariant
            len == bytes@.len(),
            12 <= offset,
            spec_probe_avi(bytes@) == avi_walk(bytes@, offset as int),
        decreases len - offset,
    {
        let size = match le_u32(bytes, offset + 4) {
            Some(v) => v,
            None => {
                return None;
            },
        };
        let body = offset + 8;
        if size as usize > len - body {
            return None;
        }
        let end = body + size as usize;
        if tag_at(bytes, offset, [0x61u8, 0x76, 0x69, 0x68]) && size >= 40 {
            proof {
                assert([0x61u8, 0x76, 0x69, 0x68]@ =~= avih_tag());
            }
            let width = match le_u32(bytes, body + 32) {
                Some(v) => v,
                None => {
                    return None;
                },
            };
            let height = match le_u32(bytes, body + 36) {
                Some(v) => v,
                None => {
                    return None;
                },
            };
            return valid_size(width, height);
        }
        proof {
            assert([0x61u8, 0x76, 0x69, 0x68]@ =~= avih_tag());
        }
        let pad = (size % 2) as usize;
        if pad > len - end {
            return None;
        }
        offset = end + pad;
    }
    None
}


// ---------------------------------------------------------------------------
// MP4 / QuickTime boxes
// ---------------------------------------------------------------------------

pub open spec fn tkhd_tag() -> Seq<u8> {
    seq![0x74u8, 0x6b, 0x68, 0x64]
}

/// Box kinds whose bodies are searched for a track header: `moov`, `trak`,
/// `mdia`, `minf`, `stbl` and `edts`.
pub open spec fn is_mp4_container(kind: Seq<u8>) -> bool {
    ||| kind == seq![0x6du8, 0x6f, 0x6f, 0x76]
    ||| kind == seq![0x74u8, 0x72, 0x61, 0x6b]
    ||| kind == seq![0x6du8, 0x64, 0x69, 0x61]
    ||| kind == seq![0x6du8, 0x69, 0x6e, 0x66]
    ||| kind == seq![0x73u8, 0x74, 0x62, 0x6c]
    ||| kind == seq![0x65u8, 0x64, 0x74, 0x73]
}

/// Walks the boxes of `s` from `offset`, depth first.  A box is a 32-bit size and
/// a 4-byte kind; size 1 means a 64-bit size follows, size 0 means "to the end".
/// A track header (`tkhd`) gives the size in 16.16 fixed point at +76 (version 0)
/// or +84 (version 1) of its body; an implausible size there is skipped, but a
/// header whose fields lie past the end of `s` stops the walk.  A box that is
/// shorter than its header or runs past the end of `s` stops the walk too.
pub open spec fn mp4_walk(s: Seq<u8>, offset: int) -> Option<(u32, u32)>
    decreases s.len(), s.len() - offset,
{
    if offset < 0 || offset + 8 > s.len() {
        None
    } else {
        let size32 = be(s.subrange(offset, offset + 4));
        let kind = s.subrange(offset + 4, offset + 8);
        if size32 == 1 && offset + 16 > s.len() {
            None
        } else {
            let header: int = if size32 == 1 {
                16
            } else {
                8
            };
            let size: int = if size32 == 1 {
                be(s.subrange(offset + 8, offset + 16)) as int
            } else if size32 == 0 {
                s.len() - offset
            } else {
                size32 as int
            };
            let body = offset + header;
            let end = offset + size;
            if size < header || end > s.len() {
                None
            } else if kind == tkhd_tag() {
                if body >= s.len() {
                    None
                } else {
                    let at = body + if s[body] == 1 {
                        84int
                    } else {
                        76int
                    };
                    if at + 8 > s.len() {
                        None
                    } else {
                        match spec_valid_size(
                            (be(s.subrange(at, at + 4)) / 0x1_0000) as u32,
                            (be(s.subrange(at + 4, at + 8)) / 0x1_0000) as u32,
                        ) {
                            Some(d) => Some(d),
                            None => mp4_walk(s, end),
                        }
                    }
                }
            } else if is_mp4_container(kind) {
                match mp4_walk(s.subrange(body, end), 0) {
                    Some(d) => Some(d),
                    None => mp4_walk(s, end),
                }
            } else {
                mp4_walk(s, end)
            }
        }
    }
}

/// Frame size from the first plausible track header of an MP4/QuickTime file.
pub open spec fn spec_probe_mp4(s: Seq<u8>) -> Option<(u32, u32)> {
    mp4_walk(s, 0)
}

fn is_container_at(bytes: &[u8], at: usize) -> (r: bool)
    requires
        at + 4 <= bytes@.len(),
    ensures
        r == is_mp4_container(bytes@.subrange(at as int, at + 4)),
{
    let r = tag_at(bytes, at, [0x6du8, 0x6f, 0x6f, 0x76]) || tag_at(bytes, at, [0x74u8, 0x72, 0x61, 0x6b])
        || tag_at(bytes, at, [0x6du8, 0x64, 0x69, 0x61]) || tag_at(bytes, at, [0x6du8, 0x69, 0x6e, 0x66])
        || tag_at(bytes, at, [0x73u8, 0x74, 0x62, 0x6c]) || tag_at(bytes, at, [0x65u8, 0x64, 0x74, 0x73]);
    proof {
        assert([0x6du8, 0x6f, 0x6f, 0x76]@ =~= seq![0x6du8, 0x6f, 0x6f, 0x76]);
        assert([0x74u8, 0x72, 0x61, 0x6b]@ =~= seq![0x74u8, 0x72, 0x61, 0x6b]);
        assert([0x6du8, 0x64, 0x69, 0x61]@ =~= seq![0x6du8, 0x64, 0x69, 0x61]);
        assert([0x6du8, 0x69, 0x6e, 0x66]@ =~= seq![0x6du8, 0x69, 0x6e, 0x66]);
        assert([0x73u8, 0x74, 0x62, 0x6c]@ =~= seq![0x73u8, 0x74, 0x62, 0x6c]);
        assert([0x65u8, 0x64, 0x74, 0x73]@ =~= seq![0x65u8, 0x64, 0x74, 0x73]);
    }
    r
}

/// Reads eight bytes at `offset` as a big-endian `u64`.
fn be_u64(bytes: &[u8], offset: usize) -> (r: u64)
    requires
        offset + 8 <= bytes@.len(),
    ensures
        r == be(bytes@.subrange(offset as int, offset + 8)),
{
    let ghost s = bytes@;
    let len = bytes.len();
    let mut v: u64 = 0;
    let mut i: usize = 0;
    while i < 8
        invariant
            s == bytes@,
            len == s.len(),
            offset + 8 <= s.len(),
            i <= 8,
            v == be(s.subrange(offset as int, offset + i)),
        decreases 8 - i,
    {
        proof {
            lemma_be_bound(s.subrange(offset as int, offset + i));
            lemma_pow256_mono(i as nat, 7);
            lemma_pow256_values();
            lemma_be_push(s.subrange(offset as int, offset + i), s[offset + i]);
            assert(s.subrange(offset as int, offset + i).push(s[offset + i]) =~= s.subrange(
                offset as int,
                offset + i + 1,
            ));
        }
        v = v * 256 + bytes[offset + i] as u64;
        i = i + 1;
    }
    v
}

/// Searches the boxes of `bytes` for a track header with a plausible frame size.
pub fn probe_mp4_boxes(bytes: &[u8]) -> (r: Option<(u32, u32)>)
    ensures
        r == mp4_walk(bytes@, 0),
    decreases bytes@.len(),
{
    let len = bytes.len();
    let mut offset: usize = 0;
    while offset <= len && len - offset >= 8
        invariant
            len == bytes@.len(),
            mp4_walk(bytes@, 0) == mp4_walk(bytes@, offset as int),
        decreases len - offset,
    {
        let size32 = match be_u32(bytes, offset) {
            Some(v) => v,
            None => {
                return None;
            },
        };
        let header: usize;
        let size: u64;
        if size32 == 1 {
            if len - offset < 16 {
                return None;
            }
            header = 16;
            size = be_u64(bytes, offset + 8);
        } else if size32 == 0 {
            header = 8;
            size = (len - offset) as u64;
        } else {
            header = 8;
            size = size32 as u64;
        }
        if size < header as u64 || size > (len - offset) as u64 {
            return None;
        }
        let end = offset + size as usize;
        let body = offset + header;
        if tag_at(bytes, offset + 4, [0x74u8, 0x6b, 0x68, 0x64]) {
            proof {
                assert([0x74u8, 0x6b, 0x68, 0x64]@ =~= tkhd_tag());
            }
            if body >= len {
                return None;
            }
            let version = bytes[body];
            let step: usize = if version == 1 {
                84
            } else {
                76
            };
            if len - body < step || len - body - step < 8 {
                return None;
            }
            let at = body + step;
            let width = match be_u32(bytes, at) {
                Some(v) => v / 0x1_0000,
                None => {
                    return None;
                },
            };
            let height = match be_u32(bytes, at + 4) {
                Some(v) => v / 0x1_0000,
                None => {
                    return None;
                },
            };
            if let Some(d) = valid_size(width, height) {
                return Some(d);
            }
        } else {
            proof {
                assert([0x74u8, 0x6b, 0x68, 0x64]@ =~= tkhd_tag());
            }
            if is_container_at(bytes, offset + 4) {
                let inner = slice_subrange(bytes, body, end);
                if let Some(d) = probe_mp4_boxes(inner) {
                    return Some(d);
                }
            }
        }
        offset = end;
    }
    None
}

/// Frame size from the first plausible track header of an MP4/QuickTime file.
pub fn probe_mp4(bytes: &[u8]) -> (r: Option<(u32, u32)>)
    ensures
        r == spec_probe_mp4(bytes@),
{
    probe_mp4_boxes(bytes)
}


// ---------------------------------------------------------------------------
// Matroska / WebM (EBML)
// ---------------------------------------------------------------------------

/// Length of an EBML element id, from the position of the first set bit among
/// the top four bits of its first byte; 0 when none of them is set.
pub open spec fn ebml_id_len(first: u8) -> int {
    if first >= 0x80 {
        1
    } else if first >= 0x40 {
        2
    } else if first >= 0x20 {
        3
    } else if first >= 0x10 {
        4
    } else {
        0
    }
}

/// Element id at `offset` (its bytes, marker bit included, read big-endian) and its length.
pub open spec fn spec_ebml_id(s: Seq<u8>, offset: int) -> Option<(u32, usize)> {
    if offset < 0 || offset >= s.len() {
        None
    } else {
        let len = ebml_id_len(s[offset]);
        if len == 0 || offset + len > s.len() {
            None
        } else {
            Some((be(s.subrange(offset, offset + len)) as u32, len as usize))
        }
    }
}

/// Length of an EBML size field: one more than the number of leading zero bits
/// of its first byte (9 for a zero byte, which is invalid).
pub open spec fn ebml_size_len(first: u8) -> int {
    if first >= 0x80 {
        1
    } else if first >= 0x40 {
        2
    } else if first >= 0x20 {
        3
    } else if first >= 0x10 {
        4
    } else if first >= 0x08 {
        5
    } else if first >= 0x04 {
        6
    } else if first >= 0x02 {
        7
    } else if first >= 0x01 {
        8
    } else {
        9
    }
}

/// `2^(8 - len)`: the first byte of a `len`-byte size field keeps its value modulo this.
pub open spec fn ebml_size_mask(len: int) -> int {
    if len == 1 {
        0x80
    } else if len == 2 {
        0x40
    } else if len == 3 {
        0x20
    } else if len == 4 {
        0x10
    } else if len == 5 {
        0x08
    } else if len == 6 {
        0x04
    } else if len == 7 {
        0x02
    } else {
        0x01
    }
}

/// `2^(7 * len) - 1`: the reserved value meaning "unknown size" for a `len`-byte field.
pub open spec fn ebml_unknown_size(len: int) -> int {
    if len == 1 {
        0x7f
    } else if len == 2 {
        0x3fff
    } else if len == 3 {
        0x1f_ffff
    } else if len == 4 {
        0x0fff_ffff
    } else if len == 5 {
        0x07_ffff_ffff
    } else if len == 6 {
        0x03ff_ffff_ffff
    } else if len == 7 {
        0x01_ffff_ffff_ffff
    } else {
        0x00ff_ffff_ffff_ffff
    }
}

/// The digits of a `len`-byte size field at `offset`: its first byte without the
/// length marker, then the remaining bytes.
pub open spec fn ebml_size_digits(s: Seq<u8>, offset: int, len: int) -> Seq<u8> {
    seq![(s[offset] as int % ebml_size_mask(len)) as u8] + s.subrange(offset + 1, offset + len)
}

/// Size field at `offset`: the element's data size (nothing when it is the reserved
/// "unknown" value or does not fit a `usize`) and the field's length.
pub open spec fn spec_ebml_size(s: Seq<u8>, offset: int) -> Option<(Option<usize>, usize)> {
    if offset < 0 || offset >= s.len() {
        None
    } else {
        let len = ebml_size_len(s[offset]);
        if len > 8 || offset + len > s.len() {
            None
        } else {
            let value = be(ebml_size_digits(s, offset, len));
            Some(
                (
                    if value == ebml_unknown_size(len) || value > usize::MAX {
                        None
                    } else {
                        Some(value as usize)
                    },
                    len as usize,
                ),
            )
        }
    }
}

/// An EBML unsigned integer element: one to four bytes, big-endian.
pub open spec fn spec_ebml_uint(t: Seq<u8>) -> Option<u32> {
    if t.len() == 0 || t.len() > 4 {
        None
    } else {
        Some(be(t) as u32)
    }
}

/// Element ids searched for the video size: Segment, Tracks, TrackEntry, Video.
pub open spec fn is_ebml_container(id: u32) -> bool {
    id == 0x1853_8067 || id == 0x1654_AE6B || id == 0xAE || id == 0xE0
}

/// Deepest nesting level that is still searched.
pub const EBML_MAX_DEPTH: usize = 8;

/// Walks the EBML elements of `s` from `offset` at nesting `depth`, carrying the last
/// PixelWidth (0xB0) and PixelHeight (0xBA) seen at this level.  A nested search that
/// succeeds decides the result; otherwise, as soon as both values are known, their
/// plausibility decides it.  A malformed element stops the walk with nothing found.
pub open spec fn ebml_walk(
    s: Seq<u8>,
    depth: int,
    offset: int,
    width: Option<u32>,
    height: Option<u32>,
) -> Option<(u32, u32)>
    decreases s.len(), s.len() - offset,
{
    if offset < 0 || offset >= s.len() {
        None
    } else {
        match spec_ebml_id(s, offset) {
            None => None,
            Some((id, id_len)) => {
                let size_at = offset + id_len;
                match spec_ebml_size(s, size_at) {
                    None => None,
                    Some((size, size_len)) => {
                        let body = size_at + size_len;
                        let end = match size {
                            Some(n) => if body + n > usize::MAX {
                                s.len() as int
                            } else {
                                body + n
                            },
                            None => s.len() as int,
                        };
                        if end > s.len() || body > end {
                            None
                        } else {
                            let content = s.subrange(body, end);
                            let width2 = if id == 0xB0 {
                                spec_ebml_uint(content)
                            } else {
                                width
                            };
                            let height2 = if id == 0xBA {
                                spec_ebml_uint(content)
                            } else {
                                height
                            };
                            let nested = if is_ebml_container(id) && depth + 1 <= EBML_MAX_DEPTH {
                                ebml_walk(content, depth + 1, 0, None, None)
                            } else {
                                None
                            };
                            if nested is Some {
                                nested
                            } else if width2 is Some && height2 is Some {
                                spec_valid_size(width2->0, height2->0)
                            } else {
                                ebml_walk(s, depth, end, width2, height2)
                            }
                        }
                    },
                }
            },
        }
    }
}

/// Video size found in the EBML elements of `s`, searched from nesting `depth`.
pub open spec fn spec_find_ebml_dimensions(s: Seq<u8>, depth: int) -> Option<(u32, u32)> {
    if depth > EBML_MAX_DEPTH {
        None
    } else {
        ebml_walk(s, depth, 0, None, None)
    }
}

/// Reads the element id at `offset` and its length.
pub fn ebml_id(bytes: &[u8], offset: usize) -> (r: Option<(u32, usize)>)
    ensures
        r == spec_ebml_id(bytes@, offset as int),
{
    let ghost s = bytes@;
    let len = bytes.len();
    if offset >= len {
        return None;
    }
    let first = bytes[offset];
    let length: usize = if first >= 0x80 {
        1
    } else if first >= 0x40 {
        2
    } else if first >= 0x20 {
        3
    } else if first >= 0x10 {
        4
    } else {
        return None;
    };
    if length > len - offset {
        return None;
    }
    let mut value: u32 = 0;
    let mut i: usize = 0;
    while i < length
        invariant
            s == bytes@,
            len == s.len(),
            offset + length <= len,
            1 <= length <= 4,
            i <= length,
            value == be(s.subrange(offset as int, offset + i)),
        decreases length - i,
    {
        proof {
            lemma_be_bound(s.subrange(offset as int, offset + i));
            lemma_pow256_mono(i as nat, 3);
            reveal_with_fuel(pow256, 4);
            lemma_be_push(s.subrange(offset as int, offset + i), s[offset + i]);
            assert(s.subrange(offset as int, offset + i).push(s[offset + i]) =~= s.subrange(
                offset as int,
                offset + i + 1,
            ));
        }
        value = value * 256 + bytes[offset + i] as u32;
        i = i + 1;
    }
    Some((value, length))
}

fn ebml_unknown_size_value(len: usize) -> (r: u64)
    requires
        1 <= len <= 8,
    ensures
        r == ebml_unknown_size(len as int),
{
    if len == 1 {
        0x7f
    } else if len == 2 {
        0x3fff
    } else if len == 3 {
        0x1f_ffff
    } else if len == 4 {
        0x0fff_ffff
    } else if len == 5 {
        0x07_ffff_ffff
    } else if len == 6 {
        0x03ff_ffff_ffff
    } else if len == 7 {
        0x01_ffff_ffff_ffff
    } else {
        0x00ff_ffff_ffff_ffff
    }
}

/// Reads the size field at `offset`: the data size, if known, and the field's length.
pub fn ebml_size(bytes: &[u8], offset: usize) -> (r: Option<(Option<usize>, usize)>)
    ensures
        r == spec_ebml_size(bytes@, offset as int),
{
    let ghost s = bytes@;
    let len = bytes.len();
    if offset >= len {
        return None;
    }
    let first = bytes[offset];
    let (length, mask): (usize, u8) = if first >= 0x80 {
        (1, 0x80)
    } else if first >= 0x40 {
        (2, 0x40)
    } else if first >= 0x20 {
        (3, 0x20)
    } else if first >= 0x10 {
        (4, 0x10)
    } else if first >= 0x08 {
        (5, 0x08)
    } else if first >= 0x04 {
        (6, 0x04)
    } else if first >= 0x02 {
        (7, 0x02)
    } else if first >= 0x01 {
        (8, 0x01)
    } else {
        return None;
    };
    if length > len - offset {
        return None;
    }
    let ghost digits = ebml_size_digits(s, offset as int, length as int);
    let mut value: u64 = (first % mask) as u64;
    let mut i: usize = 1;
    proof {
        assert(digits.subrange(0, 1) =~= seq![(first % mask) as u8]);
        reveal_with_fuel(be, 2);
        assert(seq![(first % mask) as u8].drop_last() =~= Seq::<u8>::empty());
    }
    while i < length
        invariant
            s == bytes@,
            len == s.len(),
            offset + length <= len,
            1 <= length <= 8,
            1 <= i <= length,
            digits == ebml_size_digits(s, offset as int, length as int),
            digits.len() == length,
            value == be(digits.subrange(0, i as int)),
        decreases length - i,
    {
        proof {
            lemma_be_bound(digits.subrange(0, i as int));
            lemma_pow256_mono(i as nat, 7);
            lemma_pow256_values();
            lemma_be_push(digits.subrange(0, i as int), digits[i as int]);
            assert(digits.subrange(0, i as int).push(digits[i as int]) =~= digits.subrange(
                0,
                i + 1,
            ));
            assert(digits[i as int] == s[offset + i]);
        }
        value = value * 256 + bytes[offset + i] as u64;
        i = i + 1;
    }
    proof {
        assert(digits.subrange(0, length as int) =~= digits);
    }
    let unknown = value == ebml_unknown_size_value(length);
    if unknown || value > usize::MAX as u64 {
        Some((None, length))
    } else {
        Some((Some(value as usize), length))
    }
}

/// Reads an EBML unsigned integer of one to four bytes.
pub fn ebml_uint(bytes: &[u8]) -> (r: Option<u32>)
    ensures
        r == spec_ebml_uint(bytes@),
{
    let ghost s = bytes@;
    let len = bytes.len();
    if len == 0 || len > 4 {
        return None;
    }
    let mut value: u32 = 0;
    let mut i: usize = 0;
    while i < len
        invariant
            s == bytes@,
            len == s.len(),
            1 <= len <= 4,
            i <= len,
            value == be(s.subrange(0, i as int)),
        decreases len - i,
    {
        proof {
            lemma_be_bound(s.subrange(0, i as int));
            lemma_pow256_mono(i as nat, 3);
            reveal_with_fuel(pow256, 4);
            lemma_be_push(s.subrange(0, i as int), s[i as int]);
            assert(s.subrange(0, i as int).push(s[i as int]) =~= s.subrange(0, i + 1));
        }
        value = value * 256 + bytes[i] as u32;
        i = i + 1;
    }
    proof {
        assert(s.subrange(0, len as int) =~= s);
    }
    Some(value)
}

/// Searches the EBML elements of `bytes` (at nesting `depth`) for the video size.
pub fn find_ebml_dimensions(bytes: &[u8], depth: usize) -> (r: Option<(u32, u32)>)
    ensures
        r == spec_find_ebml_dimensions(bytes@, depth as int),
    decreases bytes@.len(),
{
    if depth > EBML_MAX_DEPTH {
        return None;
    }
    let len = bytes.len();
    let mut offset: usize = 0;
    let mut width: Option<u32> = None;
    let mut height: Option<u32> = None;
    while offset < len
        invariant
            len == bytes@.len(),
            depth <= EBML_MAX_DEPTH,
            spec_find_ebml_dimensions(bytes@, depth as int) == ebml_walk(
                bytes@,
                depth as int,
                offset as int,
                width,
                height,
            ),
        decreases len - offset,
    {
        let (id, id_len) = match ebml_id(bytes, offset) {
            Some(v) => v,
            None => {
                return None;
            },
        };
        let size_at = offset + id_len;
        let (size, size_len) = match ebml_size(bytes, size_at) {
            Some(v) => v,
            None => {
                return None;
            },
        };
        let body = size_at + size_len;
        let end = match size {
            Some(n) => if n > usize::MAX - body {
                len
            } else {
                body + n
            },
            None => len,
        };
        if end > len || body > end {
            return None;
        }
        let content = slice_subrange(bytes, body, end);
        if id == 0xB0 {
            width = ebml_uint(content);
        } else if id == 0xBA {
            height = ebml_uint(content);
        } else if id == 0x1853_8067 || id == 0x1654_AE6B || id == 0xAE || id == 0xE0 {
            if let Some(d) = find_ebml_dimensions(content, depth + 1) {
                return Some(d);
            }
        }
        if let (Some(w), Some(h)) = (width, height) {
            return valid_size(w, h);
        }
        offset = end;
    }
    None
}


// ---------------------------------------------------------------------------
// By file type
// ---------------------------------------------------------------------------

/// Frame size read from the first bytes of a file, by its (lower-case) extension.
pub open spec fn spec_probe_head(ext: Seq<char>, head: Seq<u8>) -> Option<(u32, u32)> {
    if ext == "mp4"@ || ext == "m4v"@ || ext == "mov"@ {
        spec_probe_mp4(head)
    } else if ext == "mkv"@ || ext == "webm"@ {
        spec_find_ebml_dimensions(head, 0)
    } else if ext == "avi"@ {
        spec_probe_avi(head)
    } else {
        None
    }
}

/// The bytes of an optional buffer.
pub open spec fn bytes_of(head: Option<&[u8]>) -> Option<Seq<u8>> {
    match head {
        Some(h) => Some(h@),
        None => None,
    }
}

/// Frame size of the video at `path`, from `head`, the first bytes of the file
/// (nothing when they could not be read).  Paths that do not name a video give nothing.
pub open spec fn spec_resolution(path: Seq<char>, head: Option<Seq<u8>>) -> Option<(u32, u32)> {
    if !spec_is_video_path(path) {
        None
    } else {
        match head {
            None => None,
            Some(h) => match spec_extension(path) {
                Some(e) => spec_probe_head(e, h),
                None => None,
            },
        }
    }
}

/// Number of leading bytes of a file that the probes look at.
pub const HEAD_SIZE: usize = 1_000_000;

/// Reads the frame size of a video from the first bytes of its file.
pub fn probe_head(ext: &str, head: &[u8]) -> (r: Option<(u32, u32)>)
    ensures
        r == spec_probe_head(ext@, head@),
{
    if str_eq(ext, "mp4") || str_eq(ext, "m4v") || str_eq(ext, "mov") {
        probe_mp4(head)
    } else if str_eq(ext, "mkv") || str_eq(ext, "webm") {
        find_ebml_dimensions(head, 0)
    } else if str_eq(ext, "avi") {
        probe_avi(head)
    } else {
        None
    }
}

/// Frame size of the video at `path`, given the first bytes of its file.
pub fn resolution(path: &str, head: Option<&[u8]>) -> (r: Option<(u32, u32)>)
    ensures
        r == spec_resolution(path@, bytes_of(head)),
{
    if !is_video_path(path) {
        return None;
    }
    let bytes = match head {
        Some(h) => h,
        None => {
            return None;
        },
    };
    match extension(path) {
        Some(e) => probe_head(e.as_str(), bytes),
        None => None,
    }
}


/// Frame size of the video at `path`, given the first bytes of its file.
pub fn probe_resolution(path: &str, head: Option<&[u8]>) -> (r: Option<(u32, u32)>)
    ensures
        r == spec_resolution(path@, bytes_of(head)),
{
    resolution(path, head)
}


// ---------------------------------------------------------------------------
// Laws
// ---------------------------------------------------------------------------

/// A probed size is plausible: both sides positive and at most `MAX_DIMENSION`.
pub open spec fn plausible(r: Option<(u32, u32)>) -> bool {
    r matches Some((w, h)) ==> 0 < w && 0 < h && w <= MAX_DIMENSION && h <= MAX_DIMENSION
}

/// The MP4 walk only ever reports a plausible size.
pub proof fn lemma_mp4_walk_plausible(s: Seq<u8>, offset: int)
    ensures
        plausible(mp4_walk(s, offset)),
    decreases s.len(), s.len() - offset,
{
    if !(offset < 0 || offset + 8 > s.len()) {
        let size32 = be(s.subrange(offset, offset + 4));
        if !(size32 == 1 && offset + 16 > s.len()) {
            let header: int = if size32 == 1 {
                16
            } else {
                8
            };
            let size: int = if size32 == 1 {
                be(s.subrange(offset + 8, offset + 16)) as int
            } else if size32 == 0 {
                s.len() - offset
            } else {
                size32 as int
            };
            let body = offset + header;
            let end = offset + size;
            if !(size < header || end > s.len()) {
                lemma_mp4_walk_plausible(s, end);
                lemma_mp4_walk_plausible(s.subrange(body, end), 0);
            }
        }
    }
}

/// The EBML walk only ever reports a plausible size.
pub proof fn lemma_ebml_walk_plausible(
    s: Seq<u8>,
    depth: int,
    offset: int,
    width: Option<u32>,
    height: Option<u32>,
)
    ensures
        plausible(ebml_walk(s, depth, offset, width, height)),
    decreases s.len(), s.len() - offset,
{
    if !(offset < 0 || offset >= s.len()) {
        if let Some((id, id_len)) = spec_ebml_id(s, offset) {
            let size_at = offset + id_len;
            if let Some((size, size_len)) = spec_ebml_size(s, size_at) {
                let body = size_at + size_len;
                let end = match size {
                    Some(n) => if body + n > usize::MAX {
                        s.len() as int
                    } else {
                        body + n
                    },
                    None => s.len() as int,
                };
                if !(end > s.len() || body > end) {
                    let content = s.subrange(body, end);
                    let width2 = if id == 0xB0 {
                        spec_ebml_uint(content)
                    } else {
                        width
                    };
                    let height2 = if id == 0xBA {
                        spec_ebml_uint(content)
                    } else {
                        height
                    };
                    lemma_ebml_walk_plausible(content, depth + 1, 0, None, None);
                    lemma_ebml_walk_plausible(s, depth, end, width2, height2);
                }
            }
        }
    }
}

/// A Segment, Tracks, TrackEntry or Video element is searched in turn, and one
/// whose contents hold no video size (an audio track, say) is passed over: the
/// walk then goes on with the element that follows it, exactly as if it were not
/// there.  One whose contents do hold a size decides the result.  Here `end` is
/// where the element ends: after its data, or at the end of `s` for an unknown size.
pub proof fn lemma_ebml_container_passed_over(
    s: Seq<u8>,
    depth: int,
    offset: int,
    width: Option<u32>,
    height: Option<u32>,
    id: u32,
    id_len: usize,
    size: Option<usize>,
    size_len: usize,
    end: int,
)
    requires
        s.len() <= usize::MAX,
        spec_ebml_id(s, offset) == Some((id, id_len)),
        id == 0x1853_8067 || id == 0x1654_AE6B || id == 0xAE || id == 0xE0,
        spec_ebml_size(s, offset + id_len) == Some((size, size_len)),
        end == match size {
            Some(n) => offset + id_len + size_len + n,
            None => s.len() as int,
        },
        offset + id_len + size_len <= end <= s.len(),
        !(width is Some && height is Some),
    ensures
        ({
            let inner = spec_find_ebml_dimensions(
                s.subrange(offset + id_len + size_len, end),
                depth + 1,
            );
            &&& inner is None ==> ebml_walk(s, depth, offset, width, height) == ebml_walk(
                s,
                depth,
                end,
                width,
                height,
            )
            &&& inner is Some ==> ebml_walk(s, depth, offset, width, height) == inner
        }),
{
}

/// A box with a 32-bit `size` that lies within `s` is searched in turn when it is a
/// `moov`, `trak`, `mdia`, `minf`, `stbl` or `edts` box: when the boxes it holds give
/// no size (an audio track, say) the walk goes on with the box that follows it,
/// exactly as if it were not there, and otherwise their size is the result.  A box
/// of any other kind but a track header is passed over without a look inside.
pub proof fn lemma_mp4_box_passed_over(s: Seq<u8>, offset: int, size: int)
    requires
        0 <= offset,
        offset + 8 <= s.len(),
        size == be(s.subrange(offset, offset + 4)),
        8 <= size,
        offset + size <= s.len(),
    ensures
        ({
            let kind = s.subrange(offset + 4, offset + 8);
            let searched = {
                ||| kind == seq![0x6du8, 0x6f, 0x6f, 0x76]
                ||| kind == seq![0x74u8, 0x72, 0x61, 0x6b]
                ||| kind == seq![0x6du8, 0x64, 0x69, 0x61]
                ||| kind == seq![0x6du8, 0x69, 0x6e, 0x66]
                ||| kind == seq![0x73u8, 0x74, 0x62, 0x6c]
                ||| kind == seq![0x65u8, 0x64, 0x74, 0x73]
            };
            let inner = mp4_walk(s.subrange(offset + 8, offset + size), 0);
            &&& searched && inner is None ==> mp4_walk(s, offset) == mp4_walk(s, offset + size)
            &&& searched && inner is Some ==> mp4_walk(s, offset) == inner
            &&& !searched && kind != seq![0x74u8, 0x6b, 0x68, 0x64] ==> mp4_walk(s, offset)
                == mp4_walk(s, offset + size)
        }),
{
}

/// Any other element is passed over without a look inside, except PixelWidth and
/// PixelHeight: each gives its side as its data read as an unsigned integer, and
/// the walk ends with the plausibility of the size as soon as both sides are known.
/// Here `end` is where the element ends, as above.
pub proof fn lemma_ebml_other_element(
    s: Seq<u8>,
    depth: int,
    offset: int,
    width: Option<u32>,
    height: Option<u32>,
    id: u32,
    id_len: usize,
    size: Option<usize>,
    size_len: usize,
    end: int,
)
    requires
        s.len() <= usize::MAX,
        spec_ebml_id(s, offset) == Some((id, id_len)),
        id != 0x1853_8067 && id != 0x1654_AE6B && id != 0xAE && id != 0xE0,
        spec_ebml_size(s, offset + id_len) == Some((size, size_len)),
        end == match size {
            Some(n) => offset + id_len + size_len + n,
            None => s.len() as int,
        },
        offset + id_len + size_len <= end <= s.len(),
        !(width is Some && height is Some),
    ensures
        ({
            let side = spec_ebml_uint(s.subrange(offset + id_len + size_len, end));
            let w = if id == 0xB0 {
                side
            } else {
                width
            };
            let h = if id == 0xBA {
                side
            } else {
                height
            };
            &&& id != 0xB0 && id != 0xBA ==> ebml_walk(s, depth, offset, width, height)
                == ebml_walk(s, depth, end, width, height)
            &&& w is Some && h is Some ==> ebml_walk(s, depth, offset, width, height)
                == spec_valid_size(w->0, h->0)
            &&& !(w is Some && h is Some) ==> ebml_walk(s, depth, offset, width, height)
                == ebml_walk(s, depth, end, w, h)
        }),
{
}

/// The AVI walk only ever reports a plausible size.
pub proof fn lemma_avi_walk_plausible(s: Seq<u8>, offset: int)
    ensures
        plausible(avi_walk(s, offset)),
    decreases s.len() - offset,
{
    if !(offset < 0 || offset + 8 > s.len()) {
        let size = le(s.subrange(offset + 4, offset + 8));
        let end = offset + 8 + size;
        if end + size % 2 <= s.len() {
            lemma_avi_walk_plausible(s, end + size % 2);
        }
    }
}

/// Whatever the bytes, a probed frame size is plausible: both sides positive
/// and at most `MAX_DIMENSION`.
pub proof fn lemma_resolution_plausible(path: Seq<char>, head: Option<Seq<u8>>)
    ensures
        plausible(spec_resolution(path, head)),
{
    if let Some(h) = head {
        lemma_mp4_walk_plausible(h, 0);
        lemma_ebml_walk_plausible(h, 0, 0, None, None);
        lemma_avi_walk_plausible(h, 12);
    }
}

} // verus!
