//! SHA-1 checksums of a file and of its chunks.

use sha1_smol::Sha1;
use vstd::prelude::*;
use vstd::slice::slice_subrange;

verus! {

/// `sha1_smol::Sha1`, which takes in bytes piece by piece.
#[verifier::external_type_specification]
#[verifier::external_body]
pub struct ExSha1(Sha1);

/// The bytes that a `Sha1` has taken in so far, in order.
pub uninterp spec fn taken_in(sha: Sha1) -> Seq<u8>;

/// The SHA-1 checksum of a sequence of bytes, as `sha1_smol` computes it.
pub uninterp spec fn sha1_of(data: Seq<u8>) -> Seq<u8>;

/// How many bytes a `Sha1` takes in at most: their number in bits has to fit 64 bits.
pub const MAX_HASHED: u64 = 0x1fff_ffff_ffff_ffff;

/// `Sha1::new`: nothing has been taken in yet.
#[verifier::external_body]
fn sha1_new() -> (sha: Sha1)
    ensures
        taken_in(sha) == Seq::<u8>::empty(),
{
    Sha1::new()
}

/// `Sha1::update` takes in `data` behind what was taken in before.
#[verifier::external_body]
fn sha1_update(sha: &mut Sha1, data: &[u8])
    requires
        taken_in(*old(sha)).len() + data@.len() <= MAX_HASHED,
    ensures
        taken_in(*final(sha)) == taken_in(*old(sha)) + data@,
{
    sha.update(data)
}

/// `Sha1::digest` and `Digest::bytes`: the twenty bytes of the checksum of what was taken
/// in, however it was split into pieces.
#[verifier::external_body]
fn sha1_digest(sha: &Sha1) -> (bytes: [u8; 20])
    requires
        taken_in(*sha).len() <= MAX_HASHED,
    ensures
        bytes@ == sha1_of(taken_in(*sha)),
{
    sha.digest().bytes()
}

/// A SHA-1 checksum.
#[derive(Debug, Clone, Copy, PartialEq, Eq, Hash)]
pub struct Digest {
    bytes: [u8; 20],
}

impl View for Digest {
    type V = Seq<u8>;

    closed spec fn view(&self) -> Seq<u8> {
        self.bytes@
    }
}

/// The hexadecimal digit of a number below sixteen.
pub open spec fn hex_digit(n: int) -> char {
    if n < 10 {
        (0x30 + n) as char
    } else {
        (0x57 + n) as char
    }
}

/// The two hexadecimal digits of each byte.
pub open spec fn hex(bytes: Seq<u8>) -> Seq<char> {
    Seq::new(
        2 * bytes.len(),
        |i: int|
            if i % 2 == 0 {
                hex_digit(bytes[i / 2] as int / 16)
            } else {
                hex_digit(bytes[i / 2] as int % 16)
            },
    )
}

/// The hexadecimal digit of a number below sixteen.
fn digit(n: u8) -> (c: char)
    requires
        n < 16,
    ensures
        c == hex_digit(n as int),
{
    if n < 10 {
        (0x30 + n) as char
    } else {
        (0x57 + n) as char
    }
}

impl Digest {
    /// The bytes of the checksum.
    pub fn bytes(&self) -> (bytes: [u8; 20])
        ensures
            bytes@ == self@,
    {
        self.bytes
    }

    /// The checksum in hexadecimal digits.
    pub fn to_string(&self) -> (text: String)
        ensures
            text@ == hex(self@),
    {
        let mut text = String::new();
        let mut i: usize = 0;
        while i < 20
            invariant
                i <= 20,
                text@ == hex(self@.take(i as int)),
                self@ == self.bytes@,
            decreases 20 - i,
        {
            let byte = self.bytes[i];
            text.push(digit(byte / 16));
            text.push(digit(byte % 16));
            assert(text@ =~= hex(self@.take(i as int + 1)));
            i = i + 1;
        }
        assert(self@.take(20) =~= self@);
        text
    }
}

/// A checksum in the making: it takes in bytes piece by piece.
pub struct Checksum {
    sha: Sha1,
    len: u64,
}

impl View for Checksum {
    type V = Seq<u8>;

    closed spec fn view(&self) -> Seq<u8> {
        taken_in(self.sha)
    }
}

impl Checksum {
    /// The length is that of what was taken in, and within bounds.
    #[verifier::type_invariant]
    spec fn well_formed(self) -> bool {
        self.len == taken_in(self.sha).len() && self.len <= MAX_HASHED
    }

    /// Nothing has been taken in yet.
    pub fn new() -> (checksum: Checksum)
        ensures
            checksum@ == Seq::<u8>::empty(),
    {
        Checksum { sha: sha1_new(), len: 0 }
    }

    /// Whether another `len` bytes can be taken in.
    pub fn has_room(&self, len: usize) -> (room: bool)
        ensures
            room == (self@.len() + len <= MAX_HASHED),
    {
        proof {
            use_type_invariant(self);
        }
        len as u64 <= MAX_HASHED - self.len
    }

    /// Takes in `data`, behind what was taken in before.
    pub fn update(self, data: &[u8]) -> (checksum: Checksum)
        requires
            self@.len() + data@.len() <= MAX_HASHED,
        ensures
            checksum@ == self@ + data@,
    {
        proof {
            use_type_invariant(&self);
        }
        let mut sha = self.sha;
        let len = self.len + data.len() as u64;
        sha1_update(&mut sha, data);
        Checksum { sha, len }
    }

    /// The checksum of what was taken in.
    pub fn digest(&self) -> (digest: Digest)
        ensures
            digest@ == sha1_of(self@),
    {
        proof {
            use_type_invariant(self);
        }
        Digest { bytes: sha1_digest(&self.sha) }
    }
}

/// Why checksums could not be computed.
#[derive(Debug, Clone, Copy, PartialEq, Eq, Structural)]
pub enum ChecksumError {
    /// A chunk has to hold at least one byte.
    ZeroChunkSize,
}

impl ChecksumError {
    /// What a user is told.
    pub fn message(&self) -> (text: String)
        ensures
            text@ == "Chunk size may not be zero."@,
    {
        "Chunk size may not be zero.".to_owned()
    }
}

/// The chunks of `data`: each holds `size` bytes, but the last one what is left.
pub open spec fn chunks(data: Seq<u8>, size: nat) -> Seq<Seq<u8>>
    decreases data.len(),
{
    if data.len() == 0 || size == 0 {
        seq![]
    } else if data.len() <= size {
        seq![data]
    } else {
        seq![data.take(size as int)] + chunks(data.skip(size as int), size)
    }
}

/// The checksum of each chunk.
pub open spec fn sha1_of_each(list: Seq<Seq<u8>>) -> Seq<Seq<u8>> {
    list.map_values(|chunk: Seq<u8>| sha1_of(chunk))
}

/// The checksum of the data, and that of each of its chunks.
pub open spec fn checksums_of(data: Seq<u8>, size: nat) -> (Seq<u8>, Seq<Seq<u8>>) {
    (sha1_of(data), sha1_of_each(chunks(data, size)))
}

/// The bytes of each checksum.
pub open spec fn digests(list: Seq<Digest>) -> Seq<Seq<u8>> {
    list.map_values(|digest: Digest| digest@)
}

/// The checksum of the given input.
pub fn get_sha1_checksum(data: &[u8]) -> (digest: Digest)
    requires
        data@.len() <= MAX_HASHED,
    ensures
        digest@ == sha1_of(data@),
{
    let checksum = Checksum::new().update(data);
    assert(checksum@ =~= data@);
    checksum.digest()
}

/// The checksum of the entire input, as well as of each chunk of it. The chunk size
/// must not be zero.
pub fn get_sha1_checksums(data: &[u8], chunk_size: usize) -> (sums: Result<
    (Digest, Vec<Digest>),
    ChecksumError,
>)
    requires
        data@.len() <= MAX_HASHED,
    ensures
        match sums {
            Ok((total, list)) => {
                &&& chunk_size > 0
                &&& (total@, digests(list@)) == checksums_of(data@, chunk_size as nat)
            },
            Err(ChecksumError::ZeroChunkSize) => chunk_size == 0,
        },
{
    if chunk_size == 0 {
        return Err(ChecksumError::ZeroChunkSize);
    }
    let ghost size = chunk_size as nat;
    let mut total = Checksum::new();
    let mut list: Vec<Digest> = Vec::new();
    let mut start: usize = 0;
    let ghost mut seen: Seq<Seq<u8>> = seq![];
    assert(data@.skip(0) =~= data@);
    assert(seen + chunks(data@, size) =~= chunks(data@, size));
    while start < data.len()
        invariant
            start <= data@.len() <= MAX_HASHED,
            chunk_size > 0,
            size == chunk_size as nat,
            total@ =~= data@.take(start as int),
            chunks(data@, size) == seen + chunks(data@.skip(start as int), size),
            digests(list@) =~= sha1_of_each(seen),
        decreases data@.len() - start,
    {
        let ghost rest = data@.skip(start as int);
        let end: usize = if chunk_size < data.len() - start {
            start + chunk_size
        } else {
            data.len()
        };
        let chunk = slice_subrange(data, start, end);
        total = total.update(chunk);
        let ghost before = list@;
        list.push(get_sha1_checksum(chunk));
        proof {
            assert(digests(list@) =~= digests(before).push(sha1_of(chunk@)));
            assert(sha1_of_each(seen.push(chunk@)) =~= sha1_of_each(seen).push(sha1_of(chunk@)));
            assert(data@.take(start as int) + chunk@ =~= data@.take(end as int));
            if end < data@.len() {
                assert(chunk@ =~= rest.take(size as int));
                assert(rest.skip(size as int) =~= data@.skip(end as int));
            } else {
                assert(chunk@ =~= rest);
                assert(data@.skip(end as int) =~= seq![]);
                assert(chunks(rest, size) =~= seq![chunk@] + chunks(data@.skip(end as int), size));
            }
            assert(seen + chunks(rest, size) =~= seen.push(chunk@) + chunks(
                data@.skip(end as int),
                size,
            ));
            seen = seen.push(chunk@);
        }
        start = end;
    }
    assert(data@.skip(start as int) =~= seq![]);
    assert(seen + chunks(data@.skip(start as int), size) =~= seen);
    assert(data@.take(start as int) =~= data@);
    Ok((total.digest(), list))
}

/// The chunks make up the data: put together in order they are the data, there are as
/// many as the data fills, none is empty, and all but the last are full.
pub proof fn law_chunks_make_up_data(data: Seq<u8>, size: nat)
    requires
        size > 0,
    ensures
        chunks(data, size).flatten() == data,
        chunks(data, size).len() == (data.len() + size - 1) / (size as int),
        forall|i: int|
            0 <= i < chunks(data, size).len() ==> 0 < (#[trigger] chunks(data, size)[i]).len()
                <= size,
        forall|i: int|
            0 <= i < chunks(data, size).len() - 1 ==> (#[trigger] chunks(data, size)[i]).len()
                == size,
    decreases data.len(),
{
    let all = chunks(data, size);
    let n = size as int;
    if data.len() == 0 {
        assert((size - 1) / n == 0) by (nonlinear_arith)
            requires
                n == size,
                n > 0,
        ;
        assert(all.flatten() =~= data);
    } else if data.len() <= size {
        let len = data.len() as int;
        assert((len + n - 1) / n == 1) by (nonlinear_arith)
            requires
                0 < len <= n,
        ;
        assert(all.drop_first().flatten() =~= seq![]);
        assert(all.flatten() =~= data);
    } else {
        let tail = data.skip(n);
        law_chunks_make_up_data(tail, size);
        let more = chunks(tail, size);
        assert(all.drop_first() =~= more);
        assert(all.flatten() =~= data.take(n) + tail);
        let len = data.len() as int;
        assert((len + n - 1) / n == (len - n + n - 1) / n + 1) by (nonlinear_arith)
            requires
                n > 0,
        ;
        assert forall|i: int| 0 <= i < all.len() implies 0 < (#[trigger] all[i]).len() <= size by {
            if i > 0 {
                assert(all[i] == more[i - 1]);
            }
        }
        assert forall|i: int| 0 <= i < all.len() - 1 implies (#[trigger] all[i]).len() == size by {
            if i > 0 {
                assert(all[i] == more[i - 1]);
            }
        }
    }
}

/// The checksum of the entire input is the same for every chunk size.
pub proof fn law_total_ignores_chunk_size(data: Seq<u8>, size: nat, other: nat)
    requires
        size > 0,
        other > 0,
    ensures
        checksums_of(data, size).0 == checksums_of(data, other).0,
        checksums_of(data, size).0 == sha1_of(data),
{
}

/// Where data is split at a multiple of the chunk size, its chunks and their checksums are
/// those of the one part followed by those of the other.
pub proof fn law_aligned_parts(a: Seq<u8>, b: Seq<u8>, size: nat)
    requires
        size > 0,
        a.len() % size == 0,
    ensures
        chunks(a + b, size) == chunks(a, size) + chunks(b, size),
        checksums_of(a + b, size).1 == checksums_of(a, size).1 + checksums_of(b, size).1,
    decreases a.len(),
{
    if a.len() == 0 {
        assert(a + b =~= b);
        assert(chunks(a, size) + chunks(b, size) =~= chunks(b, size));
    } else {
        let n = size as int;
        let len = a.len() as int;
        assert(len >= n && (len - n) % n == 0) by (nonlinear_arith)
            requires
                len > 0,
                n > 0,
                len % n == 0,
        ;
        let tail = a.skip(n);
        law_aligned_parts(tail, b, size);
        assert((a + b).take(n) =~= a.take(n));
        assert((a + b).skip(n) =~= tail + b);
        assert(chunks(a, size) =~= seq![a.take(n)] + chunks(tail, size)) by {
            if len == n {
                assert(a.take(n) =~= a);
                assert(tail =~= seq![]);
            }
        }
        assert(chunks(a + b, size) =~= seq![a.take(n)] + chunks(tail + b, size)) by {
            if (a + b).len() == n {
                assert(a + b =~= a.take(n));
                assert(tail + b =~= seq![]);
            }
        }
        assert(chunks(a + b, size) =~= chunks(a, size) + chunks(b, size));
    }
    assert(sha1_of_each(chunks(a + b, size)) =~= sha1_of_each(chunks(a, size)) + sha1_of_each(
        chunks(b, size),
    ));
}

/// Where one chunk holds everything, its checksum is that of the entire input.
pub proof fn law_single_chunk(data: Seq<u8>, size: nat)
    requires
        0 < data.len() <= size,
    ensures
        sha1_of_each(chunks(data, size)) == seq![sha1_of(data)],
{
    assert(sha1_of_each(chunks(data, size)) =~= seq![sha1_of(data)]);
}

/// The value of a hexadecimal digit in lower case, if it is one.
pub open spec fn digit_value(c: char) -> Option<int> {
    if '0' <= c <= '9' {
        Some(c as int - '0' as int)
    } else if 'a' <= c <= 'f' {
        Some(c as int - 'a' as int + 10)
    } else {
        None
    }
}

/// The text of a checksum has two hexadecimal digits in lower case for each byte, in order,
/// the one with the larger weight first.
pub proof fn law_hex(bytes: Seq<u8>)
    ensures
        hex(bytes).len() == 2 * bytes.len(),
        forall|i: int|
            0 <= i < bytes.len() ==> {
                let high = digit_value(hex(bytes)[2 * i]);
                let low = digit_value(hex(bytes)[2 * i + 1]);
                high is Some && low is Some && #[trigger] bytes[i] == 16 * high->0 + low->0
            },
{
}

/// The bytes of checksums stand in the same order, and there are as many.
pub proof fn law_digests(list: Seq<Digest>)
    ensures
        digests(list).len() == list.len(),
        forall|i: int| 0 <= i < list.len() ==> #[trigger] digests(list)[i] == list[i]@,
{
}

/// The checksums of the chunks are those of consecutive parts of the data: the one with
/// the index `i` is that of the bytes from `i * size` on, as many as a chunk holds.
pub proof fn law_checksum_of_each_part(data: Seq<u8>, size: nat, i: int)
    requires
        size > 0,
        0 <= i,
        i * size < data.len(),
    ensures
        i < checksums_of(data, size).1.len(),
        checksums_of(data, size).1[i] == sha1_of(
            data.subrange(
                i * size,
                if (i + 1) * size < data.len() {
                    (i + 1) * size
                } else {
                    data.len() as int
                },
            ),
        ),
    decreases i,
{
    let n = size as int;
    if i == 0 {
        assert(i * n == 0 && (i + 1) * n == n) by (nonlinear_arith)
            requires
                i == 0,
        ;
        if data.len() <= size {
            assert(data.subrange(0, data.len() as int) =~= data);
        } else {
            assert(data.subrange(0, n) =~= data.take(n));
        }
    } else {
        assert(i * n == (i - 1) * n + n && (i + 1) * n == i * n + n && (i - 1) * n >= 0)
            by (nonlinear_arith)
            requires
                i > 0,
                n > 0,
        ;
        let tail = data.skip(n);
        law_checksum_of_each_part(tail, size, i - 1);
        let end = if (i + 1) * n < data.len() {
            (i + 1) * n
        } else {
            data.len() as int
        };
        assert(tail.subrange((i - 1) * n, end - n) =~= data.subrange(i * n, end));
        assert(chunks(data, size)[i] == chunks(tail, size)[i - 1]);
    }
}

/// A checksum takes in as many bytes as have a number of bits below 2 to the power of 64.
pub proof fn law_longest_input()
    ensures
        MAX_HASHED * 8 <= u64::MAX < (MAX_HASHED + 1) * 8,
{
}

} // verus!
