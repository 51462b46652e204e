use vstd::prelude::*;

verus! {

use std::collections::VecDeque;
use vstd::seq_lib::*;

use crate::shape::{ShapeType, spec_shape_code};

/// The permutation that the seeded shuffle produces from the given 32-byte
/// round seed; a fixed function of its arguments, since the generator is
/// fully determined by the seed.
pub uninterp spec fn shuffled_of(round_seed: Seq<u8>, codes: Seq<usize>) -> Seq<usize>;

/// The seven shape codes in their canonical order.
pub open spec fn canon_codes() -> Seq<usize> {
    seq![1usize, 2, 3, 4, 5, 6, 7]
}

/// The shape kind encoded by a grid-cell code (1..=7); other values fall
/// back to the first kind.
pub open spec fn type_of_code(c: usize) -> ShapeType {
    if c == 2 {
        ShapeType::L
    } else if c == 3 {
        ShapeType::O
    } else if c == 4 {
        ShapeType::S
    } else if c == 5 {
        ShapeType::I
    } else if c == 6 {
        ShapeType::J
    } else if c == 7 {
        ShapeType::T
    } else {
        ShapeType::Z
    }
}

/// The 32-byte round seed incremented as a little-endian integer, with
/// carry, wrapping around after the last byte.
pub open spec fn inc_bytes(s: Seq<u8>, i: int) -> Seq<u8>
    decreases s.len() - i,
{
    if i < 0 || i >= s.len() {
        s
    } else if s[i] == 255 {
        inc_bytes(s.update(i, 0), i + 1)
    } else {
        inc_bytes_done(s, i)
    }
}

/// Helper for `inc_bytes`: the byte at `i` has room, so only it changes.
pub open spec fn inc_bytes_done(s: Seq<u8>, i: int) -> Seq<u8> {
    s.update(i, (s[i] + 1) as u8)
}

/// The round seed one refill later.
pub open spec fn evolve(s: Seq<u8>) -> Seq<u8> {
    inc_bytes(s, 0)
}

/// The round seed used by refill number `k`: the game seed advanced `k`
/// times.
pub open spec fn fill_seed_at(seed0: Seq<u8>, k: nat) -> Seq<u8>
    decreases k,
{
    if k == 0 {
        seed0
    } else {
        evolve(fill_seed_at(seed0, (k - 1) as nat))
    }
}

/// The code of the `i`-th shape the bag ever hands out, for a given game
/// seed: element `i % 7` of refill number `i / 7`.
pub open spec fn bag_code_at(seed0: Seq<u8>, i: nat) -> usize {
    shuffled_of(fill_seed_at(seed0, i / 7), canon_codes())[i as int % 7]
}

/// Refill number `k` holds each of the seven codes exactly once.
pub open spec fn window_fair(seed0: Seq<u8>, start: nat) -> bool {
    Seq::new(7, |i: int| bag_code_at(seed0, (start + i) as nat)).to_multiset()
        == canon_codes().to_multiset()
}

/// The seeded seven-bag randomizer: a queue of upcoming shapes, refilled
/// with one freshly shuffled set of all seven kinds whenever it runs low,
/// so that at least seven lookahead entries always remain.
pub struct Bag {
    pub bag: VecDeque<ShapeType>,
    pub fill_seed: Vec<u8>,
    pub seed: Ghost<Seq<u8>>,
    pub popped: Ghost<nat>,
}

impl Bag {
    /// The queue agrees with the seed-determined stream: entry `j` is shape
    /// number `popped + j`, the stored round seed belongs to the next
    /// refill, and every complete refill window still in the queue is fair.
    pub open spec fn coherent(self) -> bool {
        &&& self.fill_seed@.len() == 32
        &&& (self.popped@ + self.bag@.len()) % 7 == 0
        &&& self.fill_seed@ == fill_seed_at(
            self.seed@,
            ((self.popped@ + self.bag@.len()) / 7) as nat,
        )
        &&& forall|j: int|
            0 <= j < self.bag@.len() ==> #[trigger] self.bag@[j] == type_of_code(
                bag_code_at(self.seed@, (self.popped@ + j) as nat),
            )
        &&& forall|j: int|
            0 <= j < self.bag@.len() && (self.popped@ + j) % 7 == 0 && j + 7 <= self.bag@.len()
                ==> #[trigger] window_fair(self.seed@, (self.popped@ + j) as nat)
    }

    pub open spec fn wf(self) -> bool {
        &&& self.coherent()
        &&& self.bag@.len() == 14 - (self.popped@ % 7)
    }

    #[verifier::loop_isolation(false)]
    pub fn new(seed: &[u8; 32]) -> (b: Bag)
        ensures
            b.wf(),
            b.seed@ == seed@,
            b.popped@ == 0,
    {
        let mut fill_seed: Vec<u8> = Vec::new();
        let mut i: usize = 0;
        while i < 32
            invariant
                i <= 32,
                fill_seed@ =~= seed@.take(i as int),
            decreases 32 - i,
        {
            fill_seed.push(seed[i]);
            i += 1;
        }
        proof {
            assert(fill_seed@ =~= seed@);
        }

        let mut b = Bag {
            bag: VecDeque::new(),
            fill_seed,
            seed: Ghost(seed@),
            popped: Ghost(0),
        };
        b.fill();
        b
    }

    /// Removes and returns the front shape, refilling so that at least
    /// seven lookahead entries remain.
    pub fn pop(&mut self) -> (t: ShapeType)
        requires
            old(self).wf(),
        ensures
            final(self).wf(),
            final(self).seed == old(self).seed,
            final(self).popped@ == old(self).popped@ + 1,
            t == type_of_code(bag_code_at(old(self).seed@, old(self).popped@)),
    {
        let shape = self.bag.pop_front();
        proof {
            self.popped@ = self.popped@ + 1;
            assert forall|j: int|
                0 <= j < self.bag@.len() && (self.popped@ + j) % 7 == 0 && j + 7
                    <= self.bag@.len() implies #[trigger] window_fair(
                self.seed@,
                (self.popped@ + j) as nat,
            ) by {
                assert(window_fair(old(self).seed@, (old(self).popped@ + (j + 1)) as nat));
            }
        }
        self.fill();
        match shape {
            Some(t) => t,
            None => ShapeType::Z,
        }
    }

    /// The first `n` upcoming shapes (or all of them, when fewer remain),
    /// without disturbing the queue.
    #[verifier::loop_isolation(false)]
    pub fn peek(&self, n: usize) -> (v: Vec<ShapeType>)
        ensures
            v@.len() == (if n <= self.bag@.len() {
                n as int
            } else {
                self.bag@.len() as int
            }),
            forall|j: int| 0 <= j < v@.len() ==> #[trigger] v@[j] == self.bag@[j],
    {
        let mut v: Vec<ShapeType> = Vec::new();
        let count = if n <= self.bag.len() {
            n
        } else {
            self.bag.len()
        };
        let mut i: usize = 0;
        while i < count
            invariant
                i <= count,
                count <= self.bag@.len(),
                v@.len() == i,
                forall|j: int| 0 <= j < i ==> #[trigger] v@[j] == self.bag@[j],
            decreases count - i,
        {
            v.push(self.bag[i]);
            i += 1;
        }
        v
    }

    /// Tops the queue back up: an empty queue takes two fresh sets, a
    /// queue down to seven takes one, and a longer queue is left alone.
    fn fill(&mut self)
        requires
            old(self).coherent(),
            old(self).bag@.len() == 0 || old(self).bag@.len() >= 7,
        ensures
            final(self).coherent(),
            final(self).seed == old(self).seed,
            final(self).popped == old(self).popped,
            final(self).bag@.len() == (if old(self).bag@.len() == 0 {
                14int
            } else if old(self).bag@.len() == 7 {
                14int
            } else {
                old(self).bag@.len() as int
            }),
            forall|j: int|
                0 <= j < old(self).bag@.len() ==> #[trigger] final(self).bag@[j] == old(
                    self,
                ).bag@[j],
    {
        let len = self.bag.len();
        if len == 0 {
            self.fill_7();
            self.fill_7();
        } else if len == 7 {
            self.fill_7();
        }
    }

    /// Appends one freshly shuffled set of all seven shapes and advances
    /// the round seed.
    #[verifier::loop_isolation(false)]
    fn fill_7(&mut self)
        requires
            old(self).coherent(),
        ensures
            final(self).coherent(),
            final(self).seed == old(self).seed,
            final(self).popped == old(self).popped,
            final(self).bag@.len() == old(self).bag@.len() + 7,
            forall|j: int|
                0 <= j < old(self).bag@.len() ==> #[trigger] final(self).bag@[j] == old(
                    self,
                ).bag@[j],
    {
        let ghost rounds = ((old(self).popped@ + old(self).bag@.len()) / 7) as nat;
        let ghost start = (old(self).popped@ + old(self).bag@.len()) as nat;

        let codes: Vec<usize> = vec![1, 2, 3, 4, 5, 6, 7];
        proof {
            assert(codes@ =~= canon_codes());
        }
        let shuffled = shuffled_codes(&self.fill_seed, codes);
        proof {
            broadcast use vstd::seq_lib::group_to_multiset_ensures;

            assert(shuffled@.to_multiset().len() == canon_codes().to_multiset().len());
            assert(canon_codes().to_multiset().len() == 7);
            assert(shuffled@.len() == 7);
            assert(start == 7 * rounds) by {
                assert((old(self).popped@ + old(self).bag@.len()) % 7 == 0);
            }
            assert forall|i: int| 0 <= i < 7 implies bag_code_at(self.seed@, (start + i) as nat)
                == shuffled@[i] by {
                assert((7 * rounds + i) / 7 == rounds && (7 * rounds + i) % 7 == i) by (nonlinear_arith)
                    requires
                        0 <= i < 7,
                        rounds >= 0,
                ;
            }
            assert(window_fair(self.seed@, start)) by {
                assert(Seq::new(7, |i: int| bag_code_at(self.seed@, (start + i) as nat))
                    =~= shuffled@);
            }
        }

        self.evolve_seed();

        let mut i: usize = 0;
        while i < 7
            invariant
                i <= 7,
                shuffled@.len() == 7,
                self.bag@.len() == old(self).bag@.len() + i,
                self.fill_seed@ == evolve(fill_seed_at(self.seed@, rounds)),
                self.seed == old(self).seed,
                self.popped == old(self).popped,
                forall|j: int|
                    0 <= j < old(self).bag@.len() ==> #[trigger] self.bag@[j] == old(self).bag@[j],
                forall|j: int|
                    0 <= j < i ==> #[trigger] self.bag@[old(self).bag@.len() + j] == type_of_code(
                        shuffled@[j],
                    ),
            decreases 7 - i,
        {
            let code = shuffled[i];
            let t = shape_from_code(code);
            self.bag.push_back(t);
            i += 1;
        }

        proof {
            assert(fill_seed_at(self.seed@, (rounds + 1) as nat) == evolve(
                fill_seed_at(self.seed@, rounds),
            ));
            assert(((self.popped@ + self.bag@.len()) / 7) as nat == rounds + 1) by {
                assert(self.popped@ + self.bag@.len() == 7 * rounds + 7);
                assert((7 * rounds + 7) / 7 == rounds + 1) by (nonlinear_arith)
                    requires
                        rounds >= 0,
                ;
            }
            assert((self.popped@ + self.bag@.len()) % 7 == 0) by {
                assert(self.popped@ + self.bag@.len() == 7 * (rounds + 1));
                assert((7 * (rounds + 1)) % 7 == 0) by (nonlinear_arith)
                    requires
                        rounds >= 0,
                ;
            }
            assert forall|j: int| 0 <= j < self.bag@.len() implies #[trigger] self.bag@[j]
                == type_of_code(bag_code_at(self.seed@, (self.popped@ + j) as nat)) by {
                if j >= old(self).bag@.len() {
                    assert(self.bag@[old(self).bag@.len() + (j - old(self).bag@.len())]
                        == type_of_code(shuffled@[j - old(self).bag@.len()]));
                    assert(self.bag@[j] == type_of_code(shuffled@[j - old(self).bag@.len()]));
                    assert(bag_code_at(self.seed@, (start + (j - old(self).bag@.len())) as nat)
                        == shuffled@[j - old(self).bag@.len()]);
                }
            }
            assert forall|j: int|
                0 <= j < self.bag@.len() && (self.popped@ + j) % 7 == 0 && j + 7
                    <= self.bag@.len() implies #[trigger] window_fair(
                self.seed@,
                (self.popped@ + j) as nat,
            ) by {
                if j + 7 <= old(self).bag@.len() {
                    assert(window_fair(old(self).seed@, (old(self).popped@ + j) as nat));
                } else {
                    assert(self.popped@ + j == start) by {
                        assert((self.popped@ + j) % 7 == 0);
                        assert(start % 7 == 0) by {
                            assert(start == 7 * rounds);
                            assert((7 * rounds) % 7 == 0) by (nonlinear_arith)
                                requires
                                    rounds >= 0,
                            ;
                        }
                        assert(start <= self.popped@ + j < start + 7);
                    }
                }
            }
        }
    }

    /// Advances the stored round seed by one refill.
    #[verifier::loop_isolation(false)]
    fn evolve_seed(&mut self)
        requires
            old(self).fill_seed@.len() == 32,
        ensures
            final(self).fill_seed@.len() == 32,
            final(self).fill_seed@ == evolve(old(self).fill_seed@),
            final(self).bag == old(self).bag,
            final(self).seed == old(self).seed,
            final(self).popped == old(self).popped,
    {
        let mut i: usize = 0;
        let mut done = false;
        while !done && i < 32
            invariant
                i <= 32,
                self.bag == old(self).bag,
                self.seed == old(self).seed,
                self.popped == old(self).popped,
                self.fill_seed@.len() == 32,
                !done ==> evolve(old(self).fill_seed@) == inc_bytes(self.fill_seed@, i as int),
                done ==> self.fill_seed@ == evolve(old(self).fill_seed@),
            decreases 32 - i,
        {
            let b = self.fill_seed[i];
            if b == 255 {
                self.fill_seed[i] = 0;
                proof {
                    assert(inc_bytes(old(self).fill_seed@, 0) == inc_bytes(self.fill_seed@, i as int + 1));
                }
            } else {
                self.fill_seed[i] = b + 1;
                done = true;
            }
            i += 1;
        }
        proof {
            if !done {
                assert(inc_bytes(self.fill_seed@, 32) == self.fill_seed@);
            }
        }
    }
}

/// A well-formed bag always offers at least seven lookahead entries: the
/// queue is topped back up to a full two sets before a pop returns.
pub proof fn lemma_bag_lookahead(b: Bag)
    requires
        b.wf(),
    ensures
        b.bag@.len() >= 7,
{
}

/// Two well-formed bags built from the same seed that have handed out the
/// same number of shapes hold identical queues: the whole draw sequence is
/// a function of the seed alone.
pub proof fn lemma_bag_determinism(a: Bag, b: Bag)
    requires
        a.wf(),
        b.wf(),
        a.seed@ == b.seed@,
        a.popped@ == b.popped@,
    ensures
        a.bag@ == b.bag@,
{
    assert(a.bag@.len() == b.bag@.len());
    assert forall|j: int| 0 <= j < a.bag@.len() implies a.bag@[j] == b.bag@[j] by {
        assert(a.bag@[j] == type_of_code(bag_code_at(a.seed@, (a.popped@ + j) as nat)));
        assert(b.bag@[j] == type_of_code(bag_code_at(b.seed@, (b.popped@ + j) as nat)));
    }
    assert(a.bag@ =~= b.bag@);
}

/// At a refill boundary (after a multiple of seven pops), the next seven
/// shapes in the queue carry each of the seven codes exactly once.
pub proof fn lemma_bag_fairness(b: Bag)
    requires
        b.wf(),
        b.popped@ % 7 == 0,
    ensures
        Seq::new(7, |i: int| spec_shape_code(b.bag@[i]) as usize).to_multiset()
            == canon_codes().to_multiset(),
{
    broadcast use vstd::seq_lib::group_to_multiset_ensures;

    assert(window_fair(b.seed@, (b.popped@ + 0) as nat));
    assert(window_fair(b.seed@, b.popped@));
    let win = Seq::new(7, |i: int| bag_code_at(b.seed@, (b.popped@ + i) as nat));
    assert(win.to_multiset() == canon_codes().to_multiset());
    assert forall|i: int| 0 <= i < 7 implies spec_shape_code(b.bag@[i]) as usize == win[i] by {
        assert(b.bag@[i] == type_of_code(bag_code_at(b.seed@, (b.popped@ + i) as nat)));
        assert(win.contains(win[i]));
        assert(canon_codes().to_multiset().count(win[i]) > 0);
        assert(canon_codes().contains(win[i]));
        let k = choose|k: int| 0 <= k < canon_codes().len() && canon_codes()[k] == win[i];
        assert(1 <= win[i] <= 7);
    }
    assert(Seq::new(7, |i: int| spec_shape_code(b.bag@[i]) as usize) =~= win);
}

/// Relies on rand::rngs::StdRng (built with rand::SeedableRng::from_seed)
/// and rand::seq::SliceRandom::shuffle: the generator is fully determined
/// by its 32-byte seed, so the shuffle permutes the given codes into an
/// order that depends on the round seed and the codes alone, moving every
/// element into the result.
#[verifier::external_body]
fn shuffled_codes(round_seed: &Vec<u8>, codes: Vec<usize>) -> (r: Vec<usize>)
    requires
        round_seed@.len() == 32,
    ensures
        r@ == shuffled_of(round_seed@, codes@),
        r@.to_multiset() == codes@.to_multiset(),
{
    let mut seed = [0u8; 32];
    seed.copy_from_slice(round_seed);
    let mut rng: rand::rngs::StdRng = rand::SeedableRng::from_seed(seed);
    let mut r = codes;
    rand::seq::SliceRandom::shuffle(r.as_mut_slice(), &mut rng);
    r
}

/// The shape kind for a grid-cell code.
pub fn shape_from_code(c: usize) -> (t: ShapeType)
    ensures
        t == type_of_code(c),
{
    if c == 2 {
        ShapeType::L
    } else if c == 3 {
        ShapeType::O
    } else if c == 4 {
        ShapeType::S
    } else if c == 5 {
        ShapeType::I
    } else if c == 6 {
        ShapeType::J
    } else if c == 7 {
        ShapeType::T
    } else {
        ShapeType::Z
    }
}

} // verus!
