//! The seven-piece bag: one piece of every shape, dealt in a random order,
//! refilled and reshuffled as soon as it runs empty.

use rand::seq::SliceRandom;
use vstd::prelude::*;
use crate::piece::Piece;
use crate::shape::{get_shape, shape_at, Kind};

verus! {

#[verifier::external_type_specification]
#[verifier::external_body]
pub struct ExThreadRng(rand::rngs::ThreadRng);

/// Calls `rand::rng`, which hands out this thread's random generator. Nothing
/// is claimed of the generator. (On its first use in a thread `rand` seeds it
/// from the operating system and panics where the system gives no entropy.)
#[verifier::external_body]
fn thread_rng() -> (rng: rand::rngs::ThreadRng) {
    rand::rng()
}

/// Calls `SliceRandom::shuffle` on the seven shapes. The claim: the shapes
/// come back in some order, each as often as before (the source swaps
/// elements in place). Which order comes out is left open: it is chance.
#[verifier::external_body]
fn shuffle_kinds(kinds: &mut [Kind; 7], rng: &mut rand::rngs::ThreadRng)
    ensures
        final(kinds)@.to_multiset() == old(kinds)@.to_multiset(),
{
    kinds.shuffle(rng);
}

/// The seven shapes, one of each.
pub open spec fn all_kinds() -> Seq<Kind> {
    seq![Kind::I, Kind::L, Kind::J, Kind::S, Kind::Z, Kind::O, Kind::T]
}

/// An order in which the seven shapes can be dealt: each exactly once.
pub open spec fn is_full_set(order: Seq<Kind>) -> bool {
    &&& order.len() == 7
    &&& order.to_multiset() == all_kinds().to_multiset()
}

pub struct Bag {
    pieces: [Option<Piece>; 7],
    idx: usize,
    order: Ghost<Seq<Kind>>,
}

impl Bag {
    /// The order in which the current fill deals its shapes.
    pub closed spec fn order(&self) -> Seq<Kind> {
        self.order@
    }

    /// How many pieces of the current fill have been dealt.
    pub closed spec fn position(&self) -> int {
        self.idx as int
    }

    /// What slot `i` of the bag holds.
    pub closed spec fn slot(&self, i: int) -> Option<Piece> {
        self.pieces@[i]
    }

    /// The shape that the next deal hands out.
    pub open spec fn upcoming(&self) -> Kind {
        self.order()[self.position()]
    }

    /// `after` is this bag once it has dealt a piece: the next slot of the
    /// same fill, or a fresh fill after the seventh deal.
    pub open spec fn deals(&self, after: Bag) -> bool {
        &&& after.wf()
        &&& self.position() < 6 ==> after.order() == self.order() && after.position()
            == self.position() + 1
        &&& self.position() == 6 ==> after.position() == 0
    }

    /// Every slot holds a fresh piece of the shape that the order puts there.
    pub open spec fn is_refilled(&self) -> bool {
        &&& is_full_set(self.order())
        &&& forall|i: int|
            0 <= i < 7 ==> (#[trigger] self.slot(i) matches Some(p) && p.is_fresh(self.order()[i]))
    }

    pub open spec fn slots_wf(&self) -> bool {
        &&& 0 <= self.position() < 7
        &&& self.order().len() == 7
        &&& forall|i: int| 0 <= i < self.position() ==> #[trigger] self.slot(i) is None
        &&& forall|i: int|
            self.position() <= i < 7 ==> (#[trigger] self.slot(i) matches Some(p) && p.is_fresh(
                self.order()[i],
            ))
    }

    /// The slots already dealt are empty, the others hold fresh pieces in the
    /// order of the fill, and the fill holds each shape once.
    pub open spec fn wf(&self) -> bool {
        &&& self.slots_wf()
        &&& is_full_set(self.order())
        &&& 0 <= self.position() < 7
    }

    /// The seven shapes in a random order.
    fn shuffled_order() -> (order: [Kind; 7])
        ensures
            is_full_set(order@),
    {
        let mut kinds = [Kind::I; 7];
        for i in 0..7usize
            invariant
                forall|j: int| 0 <= j < i ==> kinds@[j] == shape_at(j),
        {
            kinds[i] = get_shape(i as u8);
        }
        assert(kinds@ =~= all_kinds()) by {
            assert(kinds@.len() == 7);
            assert forall|j: int| 0 <= j < 7 implies kinds@[j] == all_kinds()[j] by {
                assert(kinds@[j] == shape_at(j));
            }
        }
        let mut rng = thread_rng();
        shuffle_kinds(&mut kinds, &mut rng);
        kinds
    }

    /// Seven fresh pieces of the given shapes, in their order.
    fn pieces_in_order(order: &[Kind; 7]) -> (pieces: [Option<Piece>; 7])
        ensures
            forall|i: int|
                0 <= i < 7 ==> (#[trigger] pieces@[i] matches Some(p) && p.is_fresh(order@[i])),
    {
        let mut pieces: [Option<Piece>; 7] = [None; 7];
        for i in 0..7usize
            invariant
                forall|j: int|
                    0 <= j < i ==> (#[trigger] pieces@[j] matches Some(p) && p.is_fresh(
                        order@[j],
                    )),
        {
            pieces[i] = Some(Piece::new(order[i]));
        }
        pieces
    }

    /// A bag that deals the seven shapes in the given order, then refills
    /// at random.
    pub fn from_order(order: [Kind; 7]) -> (bag: Self)
        requires
            is_full_set(order@),
        ensures
            bag.wf(),
            bag.order() == order@,
            bag.position() == 0,
    {
        let pieces = Self::pieces_in_order(&order);
        let bag = Self { pieces, idx: 0, order: Ghost(order@) };
        assert forall|i: int| 0 <= i < 7 implies (#[trigger] bag.slot(i) matches Some(p)
            && p.is_fresh(bag.order()[i])) by {
            assert(bag.slot(i) == pieces@[i]);
        }
        bag
    }

    /// A bag filled with the seven shapes in a random order.
    pub fn new() -> (bag: Self)
        ensures
            bag.wf(),
            bag.position() == 0,
    {
        Self::from_order(Self::shuffled_order())
    }

    /// Puts seven fresh pieces, one of each shape, into the bag in a random
    /// order; the count of pieces dealt is left as it was.
    pub fn fill(&mut self)
        ensures
            final(self).is_refilled(),
            final(self).position() == old(self).position(),
    {
        let order = Self::shuffled_order();
        self.pieces = Self::pieces_in_order(&order);
        self.order = Ghost(order@);
        assert forall|i: int| 0 <= i < 7 implies (#[trigger] self.slot(i) matches Some(p)
            && p.is_fresh(self.order()[i])) by {
            assert(self.slot(i) == self.pieces@[i]);
        }
    }

    /// Deals the next piece; after the seventh the bag is refilled.
    pub fn piece_owned(&mut self) -> (piece: Option<Piece>)
        requires
            old(self).wf(),
        ensures
            old(self).deals(*final(self)),
            piece matches Some(p) && p.is_fresh(old(self).upcoming()),
    {
        let slot = self.pieces[self.idx];
        assert(slot == old(self).slot(old(self).position()));
        if let Some(piece) = slot {
            self.pieces[self.idx] = None;
            assert forall|i: int| 0 <= i < 7 implies #[trigger] self.slot(i) == (if i == old(
                self,
            ).position() {
                None
            } else {
                old(self).slot(i)
            }) by {}
            let ghost cleared = *self;
            self.idx += 1;
            if self.idx > 6 {
                self.fill();
                let ghost filled = *self;
                self.idx = 0;
                assert(self.order() == filled.order());
                assert(self.slots_wf()) by {
                    assert forall|i: int| 0 <= i < 7 implies (#[trigger] self.slot(i) matches Some(p)
                        && p.is_fresh(self.order()[i])) by {
                        assert(self.slot(i) == filled.slot(i));
                    }
                }
            } else {
                assert(self.slots_wf()) by {
                    assert forall|i: int| 0 <= i < self.position() implies #[trigger] self.slot(i) is None by {
                        assert(self.slot(i) == cleared.slot(i));
                    }
                    assert forall|i: int| self.position() <= i < 7 implies (#[trigger] self.slot(i) matches Some(p)
                        && p.is_fresh(self.order()[i])) by {
                        assert(old(self).slot(i) == self.slot(i));
                        assert(old(self).position() <= i < 7);
                        assert(old(self).order() == self.order());
                    }
                }
            }
            Some(piece)
        } else {
            None
        }
    }
}

/// Every fill of the bag deals each of the seven shapes exactly once.
pub proof fn lemma_each_shape_once(bag: Bag, shape: Kind)
    requires
        bag.wf(),
    ensures
        bag.order().no_duplicates(),
        bag.order().contains(shape),
{
    broadcast use vstd::seq_lib::group_to_multiset_ensures;

    let all = all_kinds();
    assert(all.no_duplicates());
    all.lemma_multiset_has_no_duplicates();
    assert(all[0] == Kind::I && all[1] == Kind::L && all[2] == Kind::J && all[3] == Kind::S
        && all[4] == Kind::Z && all[5] == Kind::O && all[6] == Kind::T);
    assert(all.contains(shape));
    assert forall|x: Kind| bag.order().to_multiset().contains(x) implies bag.order().to_multiset().count(x) == 1 by {
        assert(all.to_multiset().contains(x));
    }
    bag.order().lemma_multiset_has_no_duplicates_conv();
    assert(all.to_multiset().count(shape) > 0);
}

} // verus!
