use vstd::prelude::*;
use sha2::Digest;
use sha2::Sha256;
use crate::text::{decimal, digit_char, push_decimal, string_push};

verus! {

// ---------------------------------------------------------------------------
// SHA-256
// ---------------------------------------------------------------------------

/// The SHA-256 digest of `data`.
pub uninterp spec fn sha256(data: Seq<u8>) -> Seq<u8>;

/// `sha2::Sha256::digest`: the 32-byte SHA-256 digest of `data`, which depends on
/// `data` alone.  Nothing is stated of which bytes it holds.
#[verifier::external_body]
fn sha256_digest(data: &[u8]) -> (r: Vec<u8>)
    ensures
        r@ == sha256(data@),
        r@.len() == 32,
{
    Sha256::digest(data).to_vec()
}

// ---------------------------------------------------------------------------
// Hex
// ---------------------------------------------------------------------------

/// Lower-case hexadecimal digit for `d` (0 to 15).
pub open spec fn hex_digit(d: nat) -> char {
    if d < 10 {
        ((48 + d) as u8) as char
    } else {
        ((87 + d) as u8) as char
    }
}

/// Lower-case hexadecimal text of `bytes`, two digits per byte, high nibble first.
pub open spec fn hex_of(bytes: Seq<u8>) -> Seq<char>
    decreases bytes.len(),
{
    if bytes.len() == 0 {
        Seq::empty()
    } else {
        hex_of(bytes.drop_last()) + seq![
            hex_digit(bytes.last() as nat / 16),
            hex_digit(bytes.last() as nat % 16),
        ]
    }
}

fn hex_char(d: u8) -> (c: char)
    requires
        d < 16,
    ensures
        c == hex_digit(d as nat),
{
    if d < 10 {
        (d + 48) as char
    } else {
        (d + 87) as char
    }
}

/// Appends the lower-case hexadecimal text of `bytes` to `out`.
pub fn push_hex(out: &mut String, bytes: &[u8])
    ensures
        final(out)@ == old(out)@ + hex_of(bytes@),
{
    let ghost start = out@;
    let mut i: usize = 0;
    while i < bytes.len()
        invariant
            i <= bytes@.len(),
            out@ == start + hex_of(bytes@.subrange(0, i as int)),
        decreases bytes@.len() - i,
    {
        let b = bytes[i];
        string_push(out, hex_char(b / 16));
        string_push(out, hex_char(b % 16));
        proof {
            let next = bytes@.subrange(0, i + 1);
            assert(next.drop_last() =~= bytes@.subrange(0, i as int));
            assert(out@ =~= start + hex_of(next));
        }
        i = i + 1;
    }
    assert(bytes@.subrange(0, bytes@.len() as int) =~= bytes@);
}

/// Lower-case hexadecimal text of `bytes`.
pub fn hex(bytes: &[u8]) -> (r: String)
    ensures
        r@ == hex_of(bytes@),
{
    let mut r = String::new();
    push_hex(&mut r, bytes);
    assert(Seq::<char>::empty() + hex_of(bytes@) =~= hex_of(bytes@));
    r
}

// ---------------------------------------------------------------------------
// Content fingerprints
// ---------------------------------------------------------------------------

/// Bytes sampled at each end of a large file: 64 MiB.
pub const CHUNK: u64 = 64 * 1024 * 1024;

/// What to read of a file to fingerprint it: its first `head_len` bytes and, when
/// `tail` is `Some((start, len))`, also `len` bytes from offset `start`.
pub struct Sample {
    pub head_len: u64,
    pub tail: Option<(u64, u64)>,
}

/// Files of at most two chunks are hashed whole; larger ones by their first and
/// last chunk.
pub open spec fn spec_sample_plan(size: nat, chunk: nat) -> (nat, Option<(nat, nat)>) {
    if size <= chunk * 2 {
        (size, None)
    } else {
        (chunk, Some(((size - chunk) as nat, chunk)))
    }
}

/// The sampling of the first fingerprint format: the first chunk (or the whole
/// file when it is smaller), and the last chunk only for files over two chunks.
pub open spec fn spec_legacy_sample_plan(size: nat, chunk: nat) -> (nat, Option<(nat, nat)>) {
    (
        if size < chunk {
            size
        } else {
            chunk
        },
        if size > chunk * 2 {
            Some(((size - chunk) as nat, chunk))
        } else {
            None
        },
    )
}

/// A sampling plan as plain numbers.
pub open spec fn sample_view(s: Sample) -> (nat, Option<(nat, nat)>) {
    (
        s.head_len as nat,
        match s.tail {
            Some((a, b)) => Some((a as nat, b as nat)),
            None => None,
        },
    )
}

/// How a file of `size` bytes is sampled for its fingerprint.
pub fn sample_plan(size: u64, chunk: u64) -> (r: Sample)
    requires
        chunk <= u64::MAX / 2,
    ensures
        sample_view(r) == spec_sample_plan(size as nat, chunk as nat),
{
    if size <= chunk * 2 {
        Sample { head_len: size, tail: None }
    } else {
        Sample { head_len: chunk, tail: Some((size - chunk, chunk)) }
    }
}

/// How a file of `size` bytes was sampled by the first fingerprint format.
pub fn legacy_sample_plan(size: u64, chunk: u64) -> (r: Sample)
    requires
        chunk <= u64::MAX / 2,
    ensures
        sample_view(r) == spec_legacy_sample_plan(size as nat, chunk as nat),
{
    let head_len = if size < chunk {
        size
    } else {
        chunk
    };
    if size > chunk * 2 {
        Sample { head_len, tail: Some((size - chunk, chunk)) }
    } else {
        Sample { head_len, tail: None }
    }
}

/// Whether a file of `size` bytes may have been registered under a fingerprint of
/// the first format that differs from its current one.
pub fn legacy_hash_needed(size: u64) -> (r: bool)
    ensures
        r == (spec_legacy_sample_plan(size as nat, CHUNK as nat) != spec_sample_plan(
            size as nat,
            CHUNK as nat,
        )),
{
    size > CHUNK && size <= CHUNK * 2
}

/// The fingerprint text: the file size in decimal, the hex digest of the head, and
/// the hex digest of the tail (empty without one), separated by colons.
pub open spec fn spec_fingerprint(size: nat, head: Seq<u8>, tail: Option<Seq<u8>>) -> Seq<char> {
    decimal(size) + seq![':'] + hex_of(sha256(head)) + seq![':'] + match tail {
        Some(t) => hex_of(sha256(t)),
        None => Seq::empty(),
    }
}

/// The fingerprint of a file of `size` bytes from its sampled head and tail.
pub fn fingerprint(size: u64, head: &[u8], tail: Option<&[u8]>) -> (r: String)
    ensures
        r@ == spec_fingerprint(
            size as nat,
            head@,
            match tail {
                Some(t) => Some(t@),
                None => None,
            },
        ),
        count_char(r@, ':') == 2,
        (r@.last() == ':') <==> tail is None,
{
    let mut r = String::new();
    push_decimal(&mut r, size);
    string_push(&mut r, ':');
    let head_digest = sha256_digest(head);
    push_hex(&mut r, head_digest.as_slice());
    string_push(&mut r, ':');
    match tail {
        Some(t) => {
            let tail_digest = sha256_digest(t);
            push_hex(&mut r, tail_digest.as_slice());
        },
        None => {},
    }
    proof {
        let tail_text = match tail {
            Some(t) => hex_of(sha256(t@)),
            None => Seq::<char>::empty(),
        };
        assert(r@ =~= decimal(size as nat) + seq![':'] + hex_of(sha256(head@)) + seq![':']
            + tail_text);
        lemma_fingerprint_fields(
            size as nat,
            head@,
            match tail {
                Some(t) => Some(t@),
                None => None,
            },
        );
    }
    r
}


// ---------------------------------------------------------------------------
// Laws
// ---------------------------------------------------------------------------

/// The sampled ranges lie inside the file: the head starts it, the tail (when
/// there is one) ends it, and the two do not overlap.  A file of at most two
/// chunks is hashed whole.
pub proof fn lemma_sample_plan_covers(size: nat, chunk: nat)
    ensures
        ({
            let (head, tail) = spec_sample_plan(size, chunk);
            &&& head <= size
            &&& size <= chunk * 2 ==> head == size && tail is None
            &&& tail matches Some((start, len)) ==> head <= start && start + len == size
        }),
{
}

/// Fingerprints of the first format differ from the current ones only for files
/// of more than one and at most two chunks; elsewhere both sample the same bytes.
pub proof fn lemma_legacy_plan_agrees(size: nat, chunk: nat)
    requires
        !(chunk < size && size <= chunk * 2),
    ensures
        spec_legacy_sample_plan(size, chunk) == spec_sample_plan(size, chunk),
{
}

/// Number of occurrences of `c` in `s`.
pub open spec fn count_char(s: Seq<char>, c: char) -> nat
    decreases s.len(),
{
    if s.len() == 0 {
        0
    } else {
        count_char(s.drop_last(), c) + if s.last() == c {
            1nat
        } else {
            0nat
        }
    }
}

proof fn lemma_count_concat(a: Seq<char>, b: Seq<char>, c: char)
    ensures
        count_char(a + b, c) == count_char(a, c) + count_char(b, c),
    decreases b.len(),
{
    if b.len() == 0 {
        assert(a + b =~= a);
    } else {
        assert((a + b).drop_last() =~= a + b.drop_last());
        lemma_count_concat(a, b.drop_last(), c);
    }
}

proof fn lemma_digit_not_colon(d: nat)
    requires
        d < 16,
    ensures
        digit_char(d % 10) != ':',
        hex_digit(d) != ':',
{
    assert(((48 + d % 10) as u8) as char as u32 == 48 + d % 10);
    if d < 10 {
        assert(((48 + d) as u8) as char as u32 == 48 + d);
    } else {
        assert(((87 + d) as u8) as char as u32 == 87 + d);
    }
}

proof fn lemma_decimal_has_no_colon(n: nat)
    ensures
        count_char(decimal(n), ':') == 0,
    decreases n,
{
    lemma_digit_not_colon(n % 10);
    assert((n % 10) % 10 == n % 10);
    assert(count_char(Seq::<char>::empty(), ':') == 0);
    assert(decimal(n).last() == digit_char(n % 10));
    if n >= 10 {
        lemma_decimal_has_no_colon(n / 10);
        assert(decimal(n).drop_last() =~= decimal(n / 10));
    } else {
        assert(decimal(n).drop_last() =~= Seq::<char>::empty());
    }
}

proof fn lemma_hex_shape(b: Seq<u8>)
    ensures
        count_char(hex_of(b), ':') == 0,
        hex_of(b).len() == 2 * b.len(),
        b.len() > 0 ==> hex_of(b).last() != ':',
    decreases b.len(),
{
    if b.len() > 0 {
        lemma_hex_shape(b.drop_last());
        lemma_digit_not_colon(b.last() as nat / 16);
        lemma_digit_not_colon(b.last() as nat % 16);
        let pair = seq![hex_digit(b.last() as nat / 16), hex_digit(b.last() as nat % 16)];
        assert(pair.drop_last() =~= seq![hex_digit(b.last() as nat / 16)]);
        assert(seq![hex_digit(b.last() as nat / 16)].drop_last() =~= Seq::<char>::empty());
        let first = seq![hex_digit(b.last() as nat / 16)];
        assert(count_char(Seq::<char>::empty(), ':') == 0);
        assert(first.last() != ':');
        assert(count_char(first, ':') == 0);
        assert(pair.last() != ':');
        assert(count_char(pair, ':') == 0);
        lemma_count_concat(hex_of(b.drop_last()), pair, ':');
    }
}

/// A fingerprint has exactly two colons, separating the size, the head digest and
/// the tail digest; it ends with a colon when the whole file was hashed, and not
/// when a (non-empty) tail digest follows.
pub proof fn lemma_fingerprint_fields(size: nat, head: Seq<u8>, tail: Option<Seq<u8>>)
    ensures
        count_char(spec_fingerprint(size, head, tail), ':') == 2,
        tail is None ==> spec_fingerprint(size, head, tail).last() == ':',
        tail matches Some(t) && sha256(t).len() > 0 ==> spec_fingerprint(size, head, tail).last()
            != ':',
{
    let tail_text = match tail {
        Some(t) => hex_of(sha256(t)),
        None => Seq::<char>::empty(),
    };
    let d = decimal(size);
    let h = hex_of(sha256(head));
    lemma_decimal_has_no_colon(size);
    lemma_hex_shape(sha256(head));
    if let Some(t) = tail {
        lemma_hex_shape(sha256(t));
    }
    assert(seq![':'].drop_last() =~= Seq::<char>::empty());
    lemma_count_concat(d, seq![':'], ':');
    lemma_count_concat(d + seq![':'], h, ':');
    lemma_count_concat(d + seq![':'] + h, seq![':'], ':');
    lemma_count_concat(d + seq![':'] + h + seq![':'], tail_text, ':');
    if tail is None {
        assert(d + seq![':'] + h + seq![':'] + tail_text =~= d + seq![':'] + h + seq![':']);
    }
}


/// The fingerprint of a file from its content alone (its name and place play no
/// part): the size, then the digest of the sampled head and tail.
pub open spec fn spec_file_fingerprint(content: Seq<u8>, chunk: nat) -> Seq<char> {
    let (head, tail) = spec_sample_plan(content.len(), chunk);
    spec_fingerprint(
        content.len(),
        content.subrange(0, head as int),
        match tail {
            Some((start, len)) => Some(content.subrange(start as int, (start + len) as int)),
            None => None,
        },
    )
}

/// A file of at most two chunks is fingerprinted by the digest of its whole
/// content; a larger one by the digests of its first and last chunk.
pub proof fn lemma_file_fingerprint(content: Seq<u8>, chunk: nat)
    ensures
        content.len() <= chunk * 2 ==> spec_file_fingerprint(content, chunk) == decimal(
            content.len(),
        ) + seq![':'] + hex_of(sha256(content)) + seq![':'],
        content.len() > chunk * 2 ==> spec_file_fingerprint(content, chunk) == decimal(
            content.len(),
        ) + seq![':'] + hex_of(sha256(content.subrange(0, chunk as int))) + seq![':'] + hex_of(
            sha256(content.subrange(content.len() - chunk, content.len() as int)),
        ),
{
    if content.len() <= chunk * 2 {
        assert(content.subrange(0, content.len() as int) =~= content);
        assert(spec_file_fingerprint(content, chunk) =~= decimal(content.len()) + seq![':']
            + hex_of(sha256(content)) + seq![':']);
    }
}

} // verus!
