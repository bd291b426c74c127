//! The random number generator behind the random-data endpoints: ChaCha20,
//! seeded from the request when it gives a seed, from the system's entropy
//! otherwise.
//!
//! A ChaCha20 generator's state is fixed by where it came from (a seed
//! given to `seed_from_u64`, or a key drawn from the system's entropy and
//! given to `from_seed`) and the draws taken since, so each draw is named
//! as a function of the origin, the draws taken before it and its own
//! arguments.
use vstd::prelude::*;

verus! {

#[verifier::external_type_specification]
#[verifier::external_body]
pub struct ExChaCha20Rng(rand::rngs::ChaCha20Rng);

/// A draw taken from a generator, with its arguments.
pub enum Draw {
    /// `n` bytes.
    Bytes(usize),
    /// A number between two bounds, both included.
    Between(usize, usize),
    /// An ASCII letter or digit.
    Alphanumeric,
    /// A coin that comes up true one time in the given number.
    OneIn(u32),
}

/// Where a ChaCha20 generator's state came from.
pub enum Origin {
    /// `seed_from_u64` with this seed.
    Seed(u64),
    /// `from_seed` with a 32-byte key drawn from the system's entropy: its
    /// first and last sixteen bytes, each read as a little-endian number.
    Entropy(u128, u128),
}

/// A ChaCha20 generator with the record of where it came from: its origin
/// (a seed, or a key drawn from the system's entropy), the draws taken from
/// it since, and whether every draw since went through this record.
pub struct Generator {
    rng: rand::rngs::ChaCha20Rng,
    origin: Ghost<Origin>,
    draws: Ghost<Seq<Draw>>,
    recorded: Ghost<bool>,
}

impl Generator {
    /// Where the generator's state came from.
    pub closed spec fn origin(&self) -> Origin {
        self.origin@
    }

    /// The seed the generator was made from, if it was made from one.
    pub open spec fn seed(&self) -> Option<u64> {
        match self.origin() {
            Origin::Seed(s) => Some(s),
            Origin::Entropy(..) => None,
        }
    }

    /// The draws taken from the generator since it was seeded.
    pub closed spec fn draws(&self) -> Seq<Draw> {
        self.draws@
    }

    /// Whether every draw since seeding went through the record.
    pub closed spec fn recorded(&self) -> bool {
        self.recorded@
    }

    /// Whether the generator's state is known: all its draws since it was
    /// made are recorded, so each draw is the one that its origin and the
    /// draws before it fix.
    pub open spec fn known(&self) -> bool {
        self.recorded()
    }

    /// Whether `self` is `old` after the draws `more`, with nothing else
    /// changed.
    pub open spec fn after(&self, old: Generator, more: Seq<Draw>) -> bool {
        &&& self.origin() == old.origin()
        &&& self.recorded() == old.recorded()
        &&& self.draws() == old.draws() + more
    }

    /// Hands the generator to a draw that does not go through the record;
    /// from then on its state is no longer known.
    pub fn unrecorded(&mut self) -> (r: &mut rand::rngs::ChaCha20Rng)
        ensures
            final(self).origin() == old(self).origin(),
            !final(self).recorded(),
    {
        self.recorded = Ghost(false);
        &mut self.rng
    }
}

/// Calls `SeedableRng::seed_from_u64` for `ChaCha20Rng`: a generator
/// whose state is fixed by `seed`, with no draws taken yet.
#[verifier::external_body]
fn rng_from_seed(seed: u64) -> (g: Generator)
    ensures
        g.origin() == Origin::Seed(seed),
        g.draws() == Seq::<Draw>::empty(),
        g.recorded(),
{
    Generator {
        rng: <rand::rngs::ChaCha20Rng as rand::SeedableRng>::seed_from_u64(seed),
        origin: Ghost(Origin::Seed(seed)),
        draws: Ghost(Seq::empty()),
        recorded: Ghost(true),
    }
}

/// Calls `rand::make_rng`, which makes a `ChaCha20Rng` with `from_seed`
/// on a 32-byte key drawn from the system's entropy: a generator of some
/// entropy origin, with no draws taken yet. Which key was drawn is left
/// unsaid: the contract says only that there is one.
#[verifier::external_body]
fn rng_from_entropy() -> (g: Generator)
    ensures
        g.origin() is Entropy,
        g.draws() == Seq::<Draw>::empty(),
        g.recorded(),
{
    Generator {
        rng: rand::make_rng(),
        origin: Ghost(Origin::Entropy(arbitrary(), arbitrary())),
        draws: Ghost(Seq::empty()),
        recorded: Ghost(true),
    }
}

/// A generator seeded from `seed` when one is given, from the system's
/// entropy otherwise, with no draws taken yet.
pub fn new_rng(seed: Option<u64>) -> (g: Generator)
    ensures
        g.seed() == seed,
        seed matches Some(s) ==> g.origin() == Origin::Seed(s),
        seed is None ==> g.origin() is Entropy,
        g.draws() == Seq::<Draw>::empty(),
        g.recorded(),
{
    match seed {
        Some(s) => rng_from_seed(s),
        None => rng_from_entropy(),
    }
}

/// The `n` bytes that `fill_bytes` gives from a generator of origin
/// `origin` after the draws `draws`.
pub uninterp spec fn seeded_bytes(origin: Origin, draws: Seq<Draw>, n: usize) -> Seq<u8>;

/// The number that `random_range(lo..=hi)` gives from a generator of
/// origin `origin` after the draws `draws`.
pub uninterp spec fn seeded_between(origin: Origin, draws: Seq<Draw>, lo: usize, hi: usize) -> usize;

/// The character that sampling `Alphanumeric` gives from a generator of
/// origin `origin` after the draws `draws`.
pub uninterp spec fn seeded_alphanumeric(origin: Origin, draws: Seq<Draw>) -> char;

/// The outcome of `random_ratio(1, d)` on a generator of origin `origin`
/// after the draws `draws`.
pub uninterp spec fn seeded_one_in(origin: Origin, draws: Seq<Draw>, d: u32) -> bool;

/// Calls `Rng::fill_bytes` on a buffer of `n` bytes: `n` random bytes, the
/// ones the origin and the earlier draws fix when the state is known.
#[verifier::external_body]
pub(crate) fn random_bytes(g: &mut Generator, n: usize) -> (v: Vec<u8>)
    ensures
        v.len() == n,
        final(g).after(*old(g), seq![Draw::Bytes(n)]),
        old(g).known() ==> v@ == seeded_bytes(old(g).origin(), old(g).draws(), n),
{
    let mut v = vec![0u8; n];
    rand::Rng::fill_bytes(&mut g.rng, &mut v);
    g.draws = Ghost(g.draws@.push(Draw::Bytes(n)));
    v
}

/// Calls `RngExt::random_range` on `lo..=hi`: a number between `lo` and
/// `hi`, both included, the one the origin and the earlier draws fix when the
/// state is known.
#[verifier::external_body]
pub(crate) fn random_between(g: &mut Generator, lo: usize, hi: usize) -> (r: usize)
    requires
        lo <= hi,
    ensures
        lo <= r <= hi,
        final(g).after(*old(g), seq![Draw::Between(lo, hi)]),
        old(g).known() ==> r == seeded_between(old(g).origin(), old(g).draws(), lo, hi),
{
    let r = rand::RngExt::random_range(&mut g.rng, lo..=hi);
    g.draws = Ghost(g.draws@.push(Draw::Between(lo, hi)));
    r
}

/// Whether `c` is an ASCII letter or digit.
pub open spec fn is_alphanumeric(c: char) -> bool {
    ('0' <= c <= '9') || ('A' <= c <= 'Z') || ('a' <= c <= 'z')
}

/// Calls `RngExt::sample` with the `Alphanumeric` distribution: an ASCII
/// letter or digit, the one the origin and the earlier draws fix when the
/// state is known.
#[verifier::external_body]
pub(crate) fn random_alphanumeric(g: &mut Generator) -> (c: char)
    ensures
        is_alphanumeric(c),
        final(g).after(*old(g), seq![Draw::Alphanumeric]),
        old(g).known() ==> c == seeded_alphanumeric(old(g).origin(), old(g).draws()),
{
    let c = char::from(rand::RngExt::sample(&mut g.rng, rand::distr::Alphanumeric));
    g.draws = Ghost(g.draws@.push(Draw::Alphanumeric));
    c
}

/// Calls `RngExt::random_ratio(1, d)`: true with probability one in `d`;
/// the outcome the origin and the earlier draws fix when the state is known.
#[verifier::external_body]
pub(crate) fn one_in(g: &mut Generator, d: u32) -> (b: bool)
    requires
        d > 0,
    ensures
        final(g).after(*old(g), seq![Draw::OneIn(d)]),
        old(g).known() ==> b == seeded_one_in(old(g).origin(), old(g).draws(), d),
{
    let b = rand::RngExt::random_ratio(&mut g.rng, 1, d);
    g.draws = Ghost(g.draws@.push(Draw::OneIn(d)));
    b
}

} // verus!
