use vstd::prelude::*;
use rand::rngs::StdRng;
use rand::{Rng, SeedableRng};

verus! {

#[verifier::external_type_specification]
#[verifier::external_body]
pub struct ExStdRng(rand::rngs::StdRng);

/// Relies on `rand::SeedableRng::seed_from_u64` for `StdRng`: builds a
/// generator whose stream is fixed by the seed.
#[verifier::external_body]
fn seeded_rng(seed: u64) -> (r: StdRng) {
    StdRng::seed_from_u64(seed)
}

/// Relies on `rand::Rng::gen_range` over `0..n`: a value in `[0, n)`; the
/// range must be non-empty, else it panics.
#[verifier::external_body]
fn draw_below(rng: &mut StdRng, n: u32) -> (r: u32)
    requires
        n > 0,
    ensures
        r < n,
{
    rng.gen_range(0..n)
}

/// `after` is `before` followed by exactly one roll of each die in `sides`,
/// in that order, each face below its die's number of sides.
pub open spec fn rolled(before: Seq<(u32, u32)>, after: Seq<(u32, u32)>, sides: Seq<u32>) -> bool {
    &&& after.len() == before.len() + sides.len()
    &&& after.subrange(0, before.len() as int) == before
    &&& forall|i: int| 0 <= i < sides.len() ==> #[trigger] after[before.len() + i].0 == sides[i]
        && after[before.len() + i].1 < sides[i]
}

/// The faces of the rolls that `after` holds beyond `before`.
pub open spec fn drawn(before: Seq<(u32, u32)>, after: Seq<(u32, u32)>) -> Seq<u32> {
    Seq::new((after.len() - before.len()) as nat, |i: int| after[before.len() + i].1)
}

/// `after` is `before` with more rolls after it.
pub open spec fn extends(before: Seq<(u32, u32)>, after: Seq<(u32, u32)>) -> bool {
    after.len() >= before.len() && after.subrange(0, before.len() as int) == before
}

/// The faces drawn over two spans of rolls, one after the other, are those
/// of the first span followed by those of the second.
pub proof fn lemma_drawn_concat(a: Seq<(u32, u32)>, b: Seq<(u32, u32)>, c: Seq<(u32, u32)>)
    requires
        extends(a, b),
        extends(b, c),
    ensures
        extends(a, c),
        drawn(a, c) == drawn(a, b) + drawn(b, c),
{
    assert(c.subrange(0, a.len() as int) =~= b.subrange(0, a.len() as int)) by {
        assert forall|i: int| 0 <= i < a.len() implies c.subrange(0, a.len() as int)[i] == b.subrange(0, a.len() as int)[i] by {
            assert(c[i] == c.subrange(0, b.len() as int)[i]);
        }
    }
    assert forall|i: int| 0 <= i < b.len() - a.len() implies #[trigger] c[a.len() + i] == b[a.len() + i] by {
        assert(c[a.len() + i] == c.subrange(0, b.len() as int)[a.len() + i]);
    }
    assert(drawn(a, c) =~= drawn(a, b) + drawn(b, c));
}

/// A seeded source of uniform die rolls that remembers, as ghost state,
/// every roll it has produced: `(sides, face)` pairs in order.
pub struct Dice {
    rng: StdRng,
    rolls: Ghost<Seq<(u32, u32)>>,
}

impl Dice {
    /// Every roll ever produced, oldest first.
    pub closed spec fn log(&self) -> Seq<(u32, u32)> {
        self.rolls@
    }

    /// A fresh die stream fixed by `seed`.
    pub fn new(seed: u64) -> (d: Dice)
        ensures
            d.log() == Seq::<(u32, u32)>::empty(),
    {
        Dice { rng: seeded_rng(seed), rolls: Ghost(Seq::empty()) }
    }

    /// Rolls a die with `sides` faces, numbered from 0.
    pub fn roll(&mut self, sides: u32) -> (face: u32)
        requires
            sides > 0,
        ensures
            face < sides,
            final(self).log() == old(self).log().push((sides, face)),
    {
        let face = draw_below(&mut self.rng, sides);
        self.rolls = Ghost(self.rolls@.push((sides, face)));
        face
    }
    /// Rolls one die of each number of sides in `sides`, in order, and
    /// returns the faces.
    pub fn roll_all(&mut self, sides: &Vec<u32>) -> (faces: Vec<u32>)
        requires
            forall|j: int| 0 <= j < sides@.len() ==> 0 < #[trigger] sides@[j],
        ensures
            rolled(old(self).log(), final(self).log(), sides@),
            faces@ == drawn(old(self).log(), final(self).log()),
            forall|j: int| 0 <= j < faces@.len() ==> #[trigger] faces@[j] < sides@[j],
    {
        let ghost before = self.log();
        let mut faces: Vec<u32> = Vec::new();
        let mut i: usize = 0;
        assert(before.subrange(0, before.len() as int) =~= before);
        assert(faces@ =~= drawn(before, self.log()));
        while i < sides.len()
            invariant
                i <= sides@.len(),
                forall|j: int| 0 <= j < sides@.len() ==> 0 < #[trigger] sides@[j],
                faces@.len() == i,
                forall|j: int| 0 <= j < i ==> #[trigger] faces@[j] < sides@[j],
                rolled(before, self.log(), sides@.take(i as int)),
                faces@ == drawn(before, self.log()),
            decreases sides@.len() - i,
        {
            let ghost prev = self.log();
            let f = self.roll(sides[i]);
            faces.push(f);
            i += 1;
            proof {
                let after = self.log();
                assert(after.subrange(0, before.len() as int) =~= prev.subrange(0, before.len() as int));
                assert forall|j: int| 0 <= j < i implies #[trigger] after[before.len() + j].0 == sides@.take(i as int)[j]
                    && after[before.len() + j].1 < sides@.take(i as int)[j] by {
                    if j < i - 1 {
                        assert(after[before.len() + j] == prev[before.len() + j]);
                        assert(prev[before.len() + j].0 == sides@.take(i - 1)[j]);
                        assert(sides@.take(i - 1)[j] == sides@.take(i as int)[j]);
                    }
                }
                assert(faces@ =~= drawn(before, after));
                assert(after.len() == before.len() + sides@.take(i as int).len());
                assert(after.subrange(0, before.len() as int) == before);
            }
        }
        assert(sides@.take(i as int) =~= sides@);
        faces
    }
}

} // verus!
