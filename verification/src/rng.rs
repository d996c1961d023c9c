use vstd::prelude::*;

use crate::errors::{Error, FResult};

verus! {

/// One request served by the pseudo-random generator. The sequence of
/// requests already served (the draw history) determines, together with the
/// seed, every value a seeded generator produces.
#[derive(Clone, Copy, PartialEq, Eq, Structural, Debug)]
pub enum RngEvent {
    Gen,
    Range(u64, u64),
}

#[verifier::external_type_specification]
#[verifier::external_body]
pub struct ExStdRng(rand::rngs::StdRng);

/// The value `rand::Rng::gen::<u64>` returns from a `StdRng` seeded with
/// `seed` after the draws in `history` have been made.
pub uninterp spec fn std_rng_gen(seed: u64, history: Seq<RngEvent>) -> u64;

/// The value `rand::Rng::gen_range(lo..hi)` returns from a `StdRng` seeded
/// with `seed` after the draws in `history` have been made.
pub uninterp spec fn std_rng_gen_range(seed: u64, history: Seq<RngEvent>, lo: u64, hi: u64) -> u64;

/// A generator backed by the `rand` crate's standard PRNG.
///
/// The ghost fields record how the generator was created and which draws
/// were made; the constructors and draw methods below are the only places
/// that touch them, and they keep them in step with the real generator
/// state.
pub struct Prng {
    rng: rand::rngs::StdRng,
    seed: Ghost<Option<u64>>,
    history: Ghost<Seq<RngEvent>>,
}

impl Prng {
    /// `Some(seed)` when the generator was built from an explicit seed,
    /// `None` when it was built from OS entropy.
    pub closed spec fn seed_of(&self) -> Option<u64> {
        self.seed@
    }

    /// The draws made so far.
    pub closed spec fn history_of(&self) -> Seq<RngEvent> {
        self.history@
    }

    /// A generator seeded with `seed`; `rand::SeedableRng::seed_from_u64`
    /// guarantees that the same seed reproduces the same generator state,
    /// which is what ties the draws below to `seed` and the history.
    pub(crate) fn from_seed(seed: u64) -> (r: Prng)
        ensures
            r.seed_of() == Some(seed),
            r.history_of() == Seq::<RngEvent>::empty(),
    {
        Prng { rng: stdrng_from_seed(seed), seed: Ghost(Some(seed)), history: Ghost(Seq::empty()) }
    }

    /// A generator seeded from OS entropy; nothing is assumed about the
    /// stream such a generator produces. `from_entropy` panics only when
    /// the operating system's entropy source itself fails, an
    /// environmental condition on a par with running out of memory.
    pub(crate) fn from_entropy() -> (r: Prng)
        ensures
            r.seed_of() is None,
            r.history_of() == Seq::<RngEvent>::empty(),
    {
        Prng { rng: stdrng_from_entropy(), seed: Ghost(None), history: Ghost(Seq::empty()) }
    }

    /// Relies on `rand::Rng::gen::<u64>`: advances the generator by one
    /// draw; for a seeded generator the value is the one determined by the
    /// seed and the draw history.
    #[verifier::external_body]
    pub(crate) fn next_u64(&mut self) -> (r: u64)
        ensures
            final(self).seed_of() == old(self).seed_of(),
            final(self).history_of() == old(self).history_of().push(RngEvent::Gen),
            old(self).seed_of() matches Some(s) ==> r == std_rng_gen(s, old(self).history_of()),
    {
        rand::Rng::gen(&mut self.rng)
    }

    /// Relies on `rand::Rng::gen_range(lo..hi)`: returns a value in
    /// `[lo, hi)` (it panics on an empty range, which the precondition
    /// rules out); for a seeded generator the value is the one determined
    /// by the seed and the draw history.
    #[verifier::external_body]
    pub(crate) fn next_in_range(&mut self, lo: u64, hi: u64) -> (r: u64)
        requires
            lo < hi,
        ensures
            lo <= r < hi,
            final(self).seed_of() == old(self).seed_of(),
            final(self).history_of() == old(self).history_of().push(RngEvent::Range(lo, hi)),
            old(self).seed_of() matches Some(s) ==> r == std_rng_gen_range(
                s,
                old(self).history_of(),
                lo,
                hi,
            ),
    {
        rand::Rng::gen_range(&mut self.rng, lo..hi)
    }

    /// A copy of this generator; the derived `Clone` of `StdRng` copies the
    /// state, so the copy continues the same stream.
    pub(crate) fn duplicate(&self) -> (r: Prng)
        ensures
            r.seed_of() == self.seed_of(),
            r.history_of() == self.history_of(),
    {
        Prng { rng: stdrng_clone(&self.rng), seed: self.seed, history: self.history }
    }
}

/// Relies on `rand::SeedableRng::seed_from_u64` for `StdRng`.
#[verifier::external_body]
fn stdrng_from_seed(seed: u64) -> rand::rngs::StdRng {
    <rand::rngs::StdRng as rand::SeedableRng>::seed_from_u64(seed)
}

/// Relies on `rand::SeedableRng::from_entropy` for `StdRng`.
#[verifier::external_body]
fn stdrng_from_entropy() -> rand::rngs::StdRng {
    <rand::rngs::StdRng as rand::SeedableRng>::from_entropy()
}

/// Relies on the derived `Clone` of `StdRng`, which copies the state.
#[verifier::external_body]
fn stdrng_clone(rng: &rand::rngs::StdRng) -> rand::rngs::StdRng {
    rng.clone()
}

/// A buffered byte source for file-backed randomness.
///
/// The fuzzer core never touches the file system: whoever drives it opens
/// `path` and feeds chunks of its contents into `data`. Draws consume the
/// buffer eight bytes at a time.
pub struct FileReader {
    pub path: String,
    pub data: Vec<u8>,
    pub pos: usize,
}

/// The `u64` encoded by eight bytes in little-endian order, the byte order
/// of every target this crate supports.
pub open spec fn le_u64(s: Seq<u8>) -> u64
    recommends
        s.len() == 8,
{
    (s[0] as u64) | (s[1] as u64) << 8u64 | (s[2] as u64) << 16u64 | (s[3] as u64) << 24u64 | (
    s[4] as u64) << 32u64 | (s[5] as u64) << 40u64 | (s[6] as u64) << 48u64 | (s[7] as u64)
        << 56u64
}

impl FileReader {
    /// A fresh, unfilled reader for `path`.
    pub fn new(path: String) -> (r: FileReader)
        ensures
            r.path@ == path@,
            r.data@ == Seq::<u8>::empty(),
            r.pos == 0,
    {
        FileReader { path, data: Vec::new(), pos: 0 }
    }

    /// Appends bytes read from the backing file to the buffer.
    pub fn feed(&mut self, mut chunk: Vec<u8>)
        ensures
            final(self).path@ == old(self).path@,
            final(self).pos == old(self).pos,
            final(self).data@ == old(self).data@ + chunk@,
    {
        self.data.append(&mut chunk);
    }

    /// How many buffered bytes have not been consumed yet.
    pub open spec fn avail(&self) -> int {
        self.data@.len() - self.pos
    }

    /// Reads exactly eight bytes from the buffer and decodes them; a short
    /// buffer is the file-backed analogue of a short read.
    pub fn read_u64(&mut self) -> (r: FResult<u64>)
        ensures
            old(self).avail() >= 8 ==> (final(self).pos == old(self).pos + 8 && final(self).data@
                == old(self).data@ && final(self).path@ == old(self).path@ && r == Ok::<u64, Error>(
                le_u64(old(self).data@.subrange(old(self).pos as int, old(self).pos + 8)),
            )),
            old(self).avail() < 8 ==> (*final(self) == *old(self) && r == Err::<u64, Error>(
                Error::Io,
            )),
    {
        if self.pos > self.data.len() || self.data.len() - self.pos < 8 {
            return Err(Error::Io);
        }
        let p = self.pos;
        let v: u64 = (self.data[p] as u64) | (self.data[p + 1] as u64) << 8u64 | (self.data[p
            + 2] as u64) << 16u64 | (self.data[p + 3] as u64) << 24u64 | (self.data[p
            + 4] as u64) << 32u64 | (self.data[p + 5] as u64) << 40u64 | (self.data[p
            + 6] as u64) << 48u64 | (self.data[p + 7] as u64) << 56u64;
        self.pos = p + 8;
        proof {
            let sub = old(self).data@.subrange(old(self).pos as int, old(self).pos + 8);
            assert(sub[0] == self.data@[p as int]);
            assert(sub[1] == self.data@[p + 1]);
            assert(sub[2] == self.data@[p + 2]);
            assert(sub[3] == self.data@[p + 3]);
            assert(sub[4] == self.data@[p + 4]);
            assert(sub[5] == self.data@[p + 5]);
            assert(sub[6] == self.data@[p + 6]);
            assert(sub[7] == self.data@[p + 7]);
        }
        Ok(v)
    }
}

/// The mathematical state of a random source: what the next draws depend
/// on. An entropy-seeded source has no predictable state.
pub enum RandModel {
    Seeded { seed: u64, history: Seq<RngEvent> },
    Entropy,
    File { data: Seq<u8>, pos: int },
}

/// A source whose draws are a function of its model.
pub open spec fn rand_deterministic(m: RandModel) -> bool {
    !(m is Entropy)
}

/// Whether the source can serve one more draw. Only the file-backed source
/// can run dry.
pub open spec fn can_draw(m: RandModel) -> bool {
    m matches RandModel::File { data, pos } ==> pos + 8 <= data.len()
}

/// The model after one unbounded draw.
pub open spec fn step_gen(m: RandModel) -> RandModel {
    match m {
        RandModel::Seeded { seed, history } => RandModel::Seeded {
            seed,
            history: history.push(RngEvent::Gen),
        },
        RandModel::Entropy => RandModel::Entropy,
        RandModel::File { data, pos } => RandModel::File { data, pos: pos + 8 },
    }
}

/// The model after one bounded draw.
pub open spec fn step_range(m: RandModel, lo: u64, hi: u64) -> RandModel {
    match m {
        RandModel::Seeded { seed, history } => RandModel::Seeded {
            seed,
            history: history.push(RngEvent::Range(lo, hi)),
        },
        RandModel::Entropy => RandModel::Entropy,
        RandModel::File { data, pos } => RandModel::File { data, pos: pos + 8 },
    }
}

/// The value of one unbounded draw from a deterministic source.
pub open spec fn det_gen(m: RandModel) -> u64
    recommends
        rand_deterministic(m),
{
    match m {
        RandModel::Seeded { seed, history } => std_rng_gen(seed, history),
        RandModel::Entropy => 0,
        RandModel::File { data, pos } => le_u64(data.subrange(pos, pos + 8)),
    }
}

/// The value of one bounded draw from a deterministic source. The
/// file-backed source uses the documented mask-and-add formula, which is
/// deliberately non-uniform and may fall outside `[lo, hi)`.
pub open spec fn det_range(m: RandModel, lo: u64, hi: u64) -> u64
    recommends
        rand_deterministic(m),
{
    match m {
        RandModel::Seeded { seed, history } => std_rng_gen_range(seed, history, lo, hi),
        RandModel::Entropy => 0,
        RandModel::File { data, pos } => (((le_u64(data.subrange(pos, pos + 8)) & hi) as int
            + lo as int) % 0x1_0000_0000_0000_0000) as u64,
    }
}

/// A random source: either the `rand` crate's PRNG (seeded or from
/// entropy) or a buffered file-backed source.
pub enum Rand {
    Random(Prng),
    File(FileReader),
}

impl Rand {
    /// The mathematical state of this source.
    pub open spec fn model(&self) -> RandModel {
        match self {
            Rand::Random(p) => match p.seed_of() {
                Some(s) => RandModel::Seeded { seed: s, history: p.history_of() },
                None => RandModel::Entropy,
            },
            Rand::File(f) => RandModel::File { data: f.data@, pos: f.pos as int },
        }
    }

    /// A deterministic source seeded with `seed`.
    pub fn from_seed(seed: u64) -> (r: Self)
        ensures
            r.model() == (RandModel::Seeded { seed, history: Seq::<RngEvent>::empty() }),
    {
        Rand::Random(Prng::from_seed(seed))
    }

    /// A file-backed source for `path`, with nothing buffered yet.
    pub fn from_path(path: String) -> (r: Self)
        ensures
            r.model() == (RandModel::File { data: Seq::<u8>::empty(), pos: 0 }),
            r matches Rand::File(f) && f.path@ == path@,
    {
        Rand::File(FileReader::new(path))
    }

    /// Draws a full 64-bit value.
    pub fn next_gen(&mut self) -> (r: FResult<u64>)
        ensures
            can_draw(old(self).model()) ==> {
                &&& final(self).model() == step_gen(old(self).model())
                &&& r matches Ok(v)
                &&& rand_deterministic(old(self).model()) ==> v == det_gen(old(self).model())
            },
            !can_draw(old(self).model()) ==> (*final(self) == *old(self) && r == Err::<u64, Error>(
                Error::Io,
            )),
    {
        match self {
            Rand::Random(p) => Ok(p.next_u64()),
            Rand::File(f) => f.read_u64(),
        }
    }

    /// Draws a value intended to lie in `[from, to)`. The PRNG variants
    /// guarantee the range; the file-backed variant applies the documented
    /// mask-and-add formula instead and may leave the range.
    pub fn next_range(&mut self, from: u64, to: u64) -> (r: FResult<u64>)
        requires
            from < to,
        ensures
            can_draw(old(self).model()) ==> {
                &&& final(self).model() == step_range(old(self).model(), from, to)
                &&& r matches Ok(v)
                &&& rand_deterministic(old(self).model()) ==> v == det_range(
                    old(self).model(),
                    from,
                    to,
                )
                &&& (*old(self)) is Random ==> from <= v < to
            },
            !can_draw(old(self).model()) ==> (*final(self) == *old(self) && r == Err::<u64, Error>(
                Error::Io,
            )),
    {
        match self {
            Rand::Random(p) => Ok(p.next_in_range(from, to)),
            Rand::File(f) => {
                let raw = f.read_u64()?;
                Ok((raw & to).wrapping_add(from))
            },
        }
    }
}

impl Default for Rand {
    /// An entropy-seeded PRNG.
    fn default() -> (r: Self)
        ensures
            r.model() is Entropy,
    {
        Rand::Random(Prng::from_entropy())
    }
}

impl Clone for Rand {
    /// A PRNG clones to a generator with the same state; a file-backed
    /// source clones to a fresh, unfilled reader for the same path.
    fn clone(&self) -> (r: Self)
        ensures
            self is Random ==> r.model() == self.model(),
            self matches Rand::File(f) ==> (r matches Rand::File(g) && g.path@ == f.path@
                && g.data@ == Seq::<u8>::empty() && g.pos == 0),
    {
        match self {
            Rand::Random(p) => Rand::Random(p.duplicate()),
            Rand::File(f) => Rand::File(FileReader::new(f.path.clone())),
        }
    }
}

} // verus!
