//! A random generator that keeps a record of every category it has handed out.

use vstd::prelude::*;

use rand::Rng;
use rand::SeedableRng;

verus! {

#[verifier::external_type_specification]
#[verifier::external_body]
pub struct ExStdRng(rand::rngs::StdRng);

/// A seeded generator together with the sequence of values drawn from it so far.
pub struct DrawSource {
    rng: rand::rngs::StdRng,
    drawn: Ghost<Seq<usize>>,
}

impl View for DrawSource {
    type V = Seq<usize>;

    /// Every value drawn from this source, oldest first.
    closed spec fn view(&self) -> Seq<usize> {
        self.drawn@
    }
}

/// Relies on rand's `SeedableRng::from_rng` for `StdRng`, seeded from `OsRng`:
/// it fails only when the operating system hands out no random bytes.
#[verifier::external_body]
fn fresh_rng() -> (r: Option<rand::rngs::StdRng>) {
    rand::rngs::StdRng::from_rng(rand::rngs::OsRng).ok()
}

/// Relies on rand's `Rng::gen_range(0, n)`: a value in `[0, n)`; it panics when `n == 0`.
#[verifier::external_body]
fn draw_below(rng: &mut rand::rngs::StdRng, n: usize) -> (r: usize)
    requires
        n > 0,
    ensures
        r < n,
{
    rng.gen_range(0, n)
}

impl DrawSource {
    /// A source over `rng` with nothing drawn yet.
    pub fn new(rng: rand::rngs::StdRng) -> (r: DrawSource)
        ensures
            r@ == Seq::<usize>::empty(),
    {
        DrawSource { rng, drawn: Ghost(Seq::empty()) }
    }

    /// A source seeded by the operating system, if it hands out a seed.
    pub fn from_entropy() -> (r: Option<DrawSource>)
        ensures
            r matches Some(s) ==> s@ == Seq::<usize>::empty(),
    {
        match fresh_rng() {
            Some(rng) => Some(DrawSource::new(rng)),
            None => None,
        }
    }

    /// Draws a value in `[0, n)` and records it.
    pub fn draw(&mut self, n: usize) -> (r: usize)
        requires
            n > 0,
        ensures
            r < n,
            final(self)@ == old(self)@.push(r),
    {
        let r = draw_below(&mut self.rng, n);
        self.drawn = Ghost(self.drawn@.push(r));
        r
    }
}

} // verus!
