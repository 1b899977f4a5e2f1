use vstd::prelude::*;
use rand::rngs::ThreadRng;
use rand::Rng;

verus! {

/// The thread-local random number generator of `rand`, carried through the
/// library as an opaque value.
#[verifier::external_type_specification]
#[verifier::external_body]
pub struct ExThreadRng(ThreadRng);

/// Calls `rand::thread_rng`, which hands out a handle to the calling
/// thread's generator. Nothing is claimed of the generator.
#[verifier::external_body]
fn thread_rng() -> ThreadRng {
    rand::thread_rng()
}

/// Calls `Rng::gen_range` on the range `0..hi`, which panics on an empty
/// range (hence `hi > 0`). The claim is only that the number drawn lies in
/// the range; which number comes is chance, and two calls may differ.
#[verifier::external_body]
fn gen_below(rng: &mut ThreadRng, hi: u32) -> (r: u32)
    requires
        hi > 0,
    ensures
        r < hi,
{
    rng.gen_range(0..hi)
}

/// A source of random numbers that keeps a record of every draw: the end of
/// the range asked for and the number drawn from it, in order.
pub struct Draws {
    rng: ThreadRng,
    asked: Ghost<Seq<(u32, u32)>>,
}

impl View for Draws {
    type V = Seq<(u32, u32)>;

    /// The draws made so far, each as the end of its range and the number
    /// drawn.
    closed spec fn view(&self) -> Seq<(u32, u32)> {
        self.asked@
    }
}

impl Draws {
    /// Draws from the calling thread's generator, none made yet.
    pub fn new() -> (d: Self)
        ensures
            d@ == Seq::<(u32, u32)>::empty(),
    {
        Draws { rng: thread_rng(), asked: Ghost(Seq::empty()) }
    }

    /// Draws a number below `hi` and records the draw.
    pub fn below(&mut self, hi: u32) -> (r: u32)
        requires
            hi > 0,
        ensures
            r < hi,
            final(self)@ == old(self)@.push((hi, r)),
    {
        let r = gen_below(&mut self.rng, hi);
        self.asked = Ghost(self.asked@.push((hi, r)));
        r
    }
}

} // verus!
