//! Dynamic data: random bytes (whole or streamed in chunks), UUIDs and
//! ULIDs.
use vstd::prelude::*;

use crate::encoding::{disposition, disposition_header};
use crate::random::{new_rng, random_bytes, seeded_bytes, Draw, Generator, Origin};

verus! {

/// The most bytes a random-bytes request is answered with.
pub const MAX_BYTES: u32 = 1000000;

/// The chunk size of a byte stream when the request gives none (or zero).
pub const DEFAULT_CHUNK_SIZE: usize = 8192;

/// How many bytes a request for `n` random bytes is answered with: `n`,
/// but at most `MAX_BYTES`.
pub fn byte_count(n: u32) -> (c: usize)
    ensures
        c == if n <= MAX_BYTES { n as int } else { MAX_BYTES as int },
{
    if n <= MAX_BYTES {
        n as usize
    } else {
        MAX_BYTES as usize
    }
}

/// The chunk size of a byte stream: the requested one when it is positive,
/// `DEFAULT_CHUNK_SIZE` otherwise.
pub fn chunk_size(requested: Option<usize>) -> (c: usize)
    ensures
        c == match requested {
            Some(s) => if s > 0 { s } else { DEFAULT_CHUNK_SIZE },
            None => DEFAULT_CHUNK_SIZE,
        },
        c > 0,
{
    match requested {
        Some(s) => if s > 0 {
            s
        } else {
            DEFAULT_CHUNK_SIZE
        },
        None => DEFAULT_CHUNK_SIZE,
    }
}

/// A download of random bytes: its length, its `Content-Disposition` and
/// its bytes.
#[derive(Debug)]
pub struct BytesDownload {
    pub length: usize,
    pub disposition: String,
    pub body: Vec<u8>,
}

/// Answers a request for `n` random bytes, drawn from a generator seeded
/// with `seed` when one is given, from the system's entropy otherwise,
/// offered for download as `filename`. The bytes are always the first ones
/// the request's generator gives; with a seed that generator is fixed by
/// the seed, so equal requests get equal bytes.
pub fn bytes_download(n: u32, seed: Option<u64>, filename: Option<String>) -> (d: BytesDownload)
    ensures
        d.length == if n <= MAX_BYTES { n as int } else { MAX_BYTES as int },
        d.body.len() == d.length,
        seed matches Some(s) ==> d.body@ == seeded_bytes(Origin::Seed(s), Seq::<Draw>::empty(), d.length),
        exists|o: Origin|
            (if seed is Some { o == Origin::Seed(seed->0) } else { o is Entropy })
                && d.body@ == #[trigger] seeded_bytes(o, Seq::<Draw>::empty(), d.length),
        d.disposition@ == disposition(match filename { Some(f) => Some(f@), None => None }),
{
    let length = byte_count(n);
    let mut rng = new_rng(seed);
    let ghost origin = rng.origin();
    let body = random_bytes(&mut rng, length);
    assert(body@ == seeded_bytes(origin, Seq::<Draw>::empty(), length));
    BytesDownload { length, disposition: disposition_header(filename), body }
}

/// The lengths of the chunks in which `remaining` bytes are streamed with
/// chunks of at most `size` bytes: full chunks, then the rest.
pub open spec fn chunk_plan(remaining: nat, size: nat) -> Seq<nat>
    decreases remaining,
{
    if remaining == 0 || size == 0 {
        seq![]
    } else if remaining <= size {
        seq![remaining]
    } else {
        seq![size] + chunk_plan((remaining - size) as nat, size)
    }
}

/// The sum of a sequence of lengths.
pub open spec fn total(s: Seq<nat>) -> nat
    decreases s.len(),
{
    if s.len() == 0 {
        0
    } else {
        s[0] + total(s.skip(1))
    }
}

/// The chunks, of the lengths `plan`, that a generator of origin `origin`
/// gives after the draws `draws`, one `fill_bytes` draw each.
pub open spec fn seeded_chunks(origin: Origin, draws: Seq<Draw>, plan: Seq<nat>) -> Seq<Seq<u8>>
    decreases plan.len(),
{
    if plan.len() == 0 {
        seq![]
    } else {
        seq![seeded_bytes(origin, draws, plan[0] as usize)] + seeded_chunks(
            origin,
            draws.push(Draw::Bytes(plan[0] as usize)),
            plan.skip(1),
        )
    }
}

/// The whole stream of chunks that a request for `n` bytes in chunks of
/// the requested size, with seed `seed`, is answered with: a function of
/// these three alone.
pub open spec fn seeded_stream(seed: u64, n: u32, requested_chunk: Option<usize>) -> Seq<Seq<u8>> {
    let count: nat = if n <= MAX_BYTES { n as nat } else { MAX_BYTES as nat };
    let size: nat = match requested_chunk {
        Some(c) => if c > 0 { c as nat } else { DEFAULT_CHUNK_SIZE as nat },
        None => DEFAULT_CHUNK_SIZE as nat,
    };
    seeded_chunks(Origin::Seed(seed), Seq::<Draw>::empty(), chunk_plan(count, size))
}

/// A stream of random bytes in progress: how many bytes are still to come,
/// in chunks of at most `size` bytes.
#[derive(Debug)]
pub struct ByteStream {
    pub remaining: usize,
    pub size: usize,
}

impl ByteStream {
    /// Whether the stream is well formed: its chunk size is positive.
    pub open spec fn wf(self) -> bool {
        self.size > 0
    }

    /// The lengths of the chunks still to come.
    pub open spec fn plan(self) -> Seq<nat> {
        chunk_plan(self.remaining as nat, self.size as nat)
    }

    /// The chunks still to come from the generator `g`, when its state is
    /// known.
    pub open spec fn seeded_rest(self, g: Generator) -> Seq<Seq<u8>> {
        seeded_chunks(g.origin(), g.draws(), self.plan())
    }

    /// Starts streaming `n` random bytes (at most `MAX_BYTES`) in chunks of
    /// the requested size.
    pub fn new(n: u32, requested_chunk: Option<usize>) -> (s: ByteStream)
        ensures
            s.wf(),
            s.remaining == if n <= MAX_BYTES { n as int } else { MAX_BYTES as int },
            s.size == match requested_chunk {
                Some(c) => if c > 0 { c } else { DEFAULT_CHUNK_SIZE },
                None => DEFAULT_CHUNK_SIZE,
            },
    {
        ByteStream { remaining: byte_count(n), size: chunk_size(requested_chunk) }
    }

    /// The next chunk of the stream, drawn from `rng`; none once every byte
    /// was sent. Each chunk is the first length that the plan holds, and the
    /// rest of the plan is what remains; from a generator whose state is
    /// known, its bytes are the ones its origin and the earlier draws fix, so
    /// the chunks sent one after the other are exactly `seeded_rest`.
    pub fn next_chunk(&mut self, rng: &mut Generator) -> (c: Option<Vec<u8>>)
        requires
            old(self).wf(),
        ensures
            final(self).wf(),
            final(self).size == old(self).size,
            old(self).remaining == 0 ==> c is None && final(self).remaining == 0 && *final(rng)
                == *old(rng),
            old(self).remaining > 0 ==> (c matches Some(v) && v.len() == old(self).plan()[0]
                && final(self).plan() == old(self).plan().skip(1) && final(rng).after(
                *old(rng),
                seq![Draw::Bytes(v.len())],
            ) && (old(rng).known() ==> v@ == seeded_bytes(
                old(rng).origin(),
                old(rng).draws(),
                v.len(),
            ))),
            final(rng).known() == old(rng).known(),
            old(rng).known() ==> old(self).seeded_rest(*old(rng)) == match c {
                Some(v) => seq![v@],
                None => Seq::<Seq<u8>>::empty(),
            } + final(self).seeded_rest(*final(rng)),
    {
        if self.remaining == 0 {
            return None;
        }
        let len = if self.remaining < self.size {
            self.remaining
        } else {
            self.size
        };
        let ghost d0 = rng.draws();
        let bytes = random_bytes(rng, len);
        let ghost before = self.remaining as nat;
        self.remaining = self.remaining - len;
        proof {
            if before > self.size {
                assert(chunk_plan(before, self.size as nat).skip(1) =~= chunk_plan(
                    (before - self.size) as nat,
                    self.size as nat,
                ));
            } else {
                assert(chunk_plan(before, self.size as nat).skip(1) =~= seq![]);
            }
            assert(rng.draws() =~= d0.push(Draw::Bytes(len)));
        }
        Some(bytes)
    }
}

/// Equal requests stream equal bytes: a stream of `n` bytes in chunks of
/// the requested size, started on a generator freshly seeded with `seed`,
/// has still to send exactly `seeded_stream(seed, n, requested_chunk)`,
/// which depends on the seed, `n` and the chunk size alone, chunk
/// boundaries included.
pub proof fn law_seeded_stream_start(
    stream: ByteStream,
    g: Generator,
    seed: u64,
    n: u32,
    requested_chunk: Option<usize>,
)
    requires
        g.seed() == Some(seed),
        g.draws() == Seq::<Draw>::empty(),
        stream.remaining == if n <= MAX_BYTES { n as int } else { MAX_BYTES as int },
        stream.size == match requested_chunk {
            Some(c) => if c > 0 { c } else { DEFAULT_CHUNK_SIZE },
            None => DEFAULT_CHUNK_SIZE,
        },
    ensures
        stream.seeded_rest(g) == seeded_stream(seed, n, requested_chunk),
{
}

/// A seeded download and a seeded stream of the same request agree: when
/// the chunk size is at least the number of bytes answered, the stream sends
/// one chunk, and it holds the very bytes that `bytes_download` answers with
/// for the same `n` and seed.
pub proof fn law_download_is_single_chunk(seed: u64, n: u32, chunk: usize)
    requires
        0 < (if n <= MAX_BYTES { n as int } else { MAX_BYTES as int }) <= chunk,
    ensures
        seeded_stream(seed, n, Some(chunk)) == seq![
            seeded_bytes(
                Origin::Seed(seed),
                Seq::<Draw>::empty(),
                (if n <= MAX_BYTES { n as int } else { MAX_BYTES as int }) as usize,
            ),
        ],
{
    let count: nat = if n <= MAX_BYTES { n as nat } else { MAX_BYTES as nat };
    let o = Origin::Seed(seed);
    let e = Seq::<Draw>::empty();
    assert(chunk_plan(count, chunk as nat) == seq![count]);
    assert(seq![count].skip(1) =~= Seq::<nat>::empty());
    assert(seeded_chunks(o, e.push(Draw::Bytes(count as usize)), Seq::<nat>::empty()) =~= seq![]);
    assert(seeded_chunks(o, e, seq![count]) =~= seq![seeded_bytes(o, e, count as usize)]);
}

/// Streaming in chunks sends exactly the requested bytes: the chunk lengths
/// of a stream of `remaining` bytes add up to `remaining`, and each is
/// positive and at most the chunk size.
pub proof fn law_chunks_cover_length(remaining: nat, size: nat)
    requires
        size > 0,
    ensures
        total(chunk_plan(remaining, size)) == remaining,
        forall|i: int|
            0 <= i < chunk_plan(remaining, size).len() ==> 0 < #[trigger] chunk_plan(remaining, size)[i]
                <= size,
    decreases remaining,
{
    if remaining > size {
        law_chunks_cover_length((remaining - size) as nat, size);
        let p = chunk_plan(remaining, size);
        assert(p.skip(1) =~= chunk_plan((remaining - size) as nat, size));
        assert forall|i: int| 0 <= i < p.len() implies 0 < #[trigger] p[i] <= size by {
            if i > 0 {
                assert(p[i] == p.skip(1)[i - 1]);
            }
        }
    } else if remaining > 0 {
        assert(chunk_plan(remaining, size).skip(1) =~= Seq::<nat>::empty());
        assert(total(Seq::<nat>::empty()) == 0);
    }
}

/// Whether `c` is a lowercase hexadecimal digit.
pub open spec fn is_lower_hex(c: char) -> bool {
    ('0' <= c <= '9') || ('a' <= c <= 'f')
}

/// Whether `s` is a UUID in its hyphenated, lowercase text form
/// (`xxxxxxxx-xxxx-Vxxx-Nxxx-xxxxxxxxxxxx`) of version `version` and of the
/// RFC 4122 variant (`N` one of `8`, `9`, `a`, `b`).
pub open spec fn is_uuid_text(s: Seq<char>, version: char) -> bool {
    &&& s.len() == 36
    &&& forall|i: int|
        0 <= i < 36 ==> if i == 8 || i == 13 || i == 18 || i == 23 {
            #[trigger] s[i] == '-'
        } else {
            is_lower_hex(s[i])
        }
    &&& s[14] == version
    &&& (s[19] == '8' || s[19] == '9' || s[19] == 'a' || s[19] == 'b')
}

/// Calls `uuid::Uuid::new_v4` and renders it with `to_string`: a random
/// version 4 UUID in hyphenated lowercase form.
#[verifier::external_body]
fn new_uuid_v4() -> (s: String)
    ensures
        is_uuid_text(s@, '4'),
{
    uuid::Uuid::new_v4().to_string()
}

/// Calls `uuid::Uuid::now_v7` and renders it with `to_string`: a version 7
/// UUID (its first 48 bits the current time) in hyphenated lowercase form.
/// Its time ordering is not stated.
#[verifier::external_body]
fn new_uuid_v7() -> (s: String)
    ensures
        is_uuid_text(s@, '7'),
{
    uuid::Uuid::now_v7().to_string()
}

/// Whether `c` is a digit of Crockford's base32 alphabet (in uppercase).
pub open spec fn is_crockford_digit(c: char) -> bool {
    &&& ('0' <= c <= '9' || 'A' <= c <= 'Z')
    &&& c != 'I' && c != 'L' && c != 'O' && c != 'U'
}

/// Whether `s` is a ULID in its text form: 26 Crockford base32 digits, the
/// first at most `7` (a ULID has 128 bits).
pub open spec fn is_ulid_text(s: Seq<char>) -> bool {
    &&& s.len() == 26
    &&& forall|i: int| 0 <= i < 26 ==> is_crockford_digit(#[trigger] s[i])
    &&& '0' <= s[0] <= '7'
}

/// Calls `ulid::Ulid::generate` and renders it with `to_string`: a ULID
/// for the current time, in Crockford base32. Its time ordering is not
/// stated.
#[verifier::external_body]
fn new_ulid() -> (s: String)
    ensures
        is_ulid_text(s@),
{
    ulid::Ulid::generate().to_string()
}

/// Answers `uuid/v4`: a fresh random UUID.
pub fn uuid_v4() -> (s: String)
    ensures
        is_uuid_text(s@, '4'),
{
    new_uuid_v4()
}

/// Answers `uuid/v7`: a fresh time-ordered UUID.
pub fn uuid_v7() -> (s: String)
    ensures
        is_uuid_text(s@, '7'),
{
    new_uuid_v7()
}

/// Answers `ulid`: a fresh ULID.
pub fn ulid() -> (s: String)
    ensures
        is_ulid_text(s@),
{
    new_ulid()
}

} // verus!
