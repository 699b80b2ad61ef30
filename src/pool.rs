use crate::puzzle::{generate_candidate, is_solvable, Puzzle};
use hashbrown::HashSet;
use vstd::prelude::*;

verus! {

/// A generated puzzle that the engine judged solvable; it is well formed by
/// construction.
pub struct SolvablePuzzle {
    puzzle: Puzzle,
}

impl SolvablePuzzle {
    #[verifier::type_invariant]
    spec fn inv(self) -> bool {
        self.puzzle.well_formed() && self.puzzle.is_solvable_spec()
    }

    pub closed spec fn spec_puzzle(self) -> Puzzle {
        self.puzzle
    }

    pub fn height(&self) -> (r: usize)
        ensures
            r == self.spec_puzzle().height,
    {
        self.puzzle.height
    }

    pub fn width(&self) -> (r: usize)
        ensures
            r == self.spec_puzzle().width,
    {
        self.puzzle.width
    }

    /// The puzzle, which is well formed and solvable.
    pub fn puzzle(&self) -> (r: &Puzzle)
        ensures
            *r == self.spec_puzzle(),
            r.well_formed(),
            r.is_solvable_spec(),
    {
        proof {
            use_type_invariant(self);
        }
        &self.puzzle
    }

    /// A second copy of the same puzzle.
    pub fn duplicate(&self) -> (r: SolvablePuzzle)
        ensures
            r.spec_puzzle().same_as(&self.spec_puzzle()),
            r.spec_puzzle().rows() == self.spec_puzzle().rows(),
            r.spec_puzzle().columns() == self.spec_puzzle().columns(),
    {
        proof {
            use_type_invariant(self);
        }
        SolvablePuzzle { puzzle: self.puzzle.duplicate() }
    }

    /// Gives up the wrapper, keeping what it guaranteed.
    pub fn into_puzzle(self) -> (r: Puzzle)
        ensures
            r == self.spec_puzzle(),
            r.well_formed(),
            r.is_solvable_spec(),
    {
        proof {
            use_type_invariant(&self);
        }
        self.puzzle
    }
}

/// The puzzles that a list of solvable puzzles holds.
pub open spec fn puzzles_of(s: Seq<SolvablePuzzle>) -> Seq<Puzzle> {
    s.map_values(|c: SolvablePuzzle| c.spec_puzzle())
}

/// Keeps a generated puzzle exactly when the engine finds it solvable.
pub fn keep_if_solvable(p: Puzzle) -> (r: Option<SolvablePuzzle>)
    requires
        p.well_formed(),
    ensures
        (r is Some) == p.is_solvable_spec(),
        r matches Some(c) ==> c.spec_puzzle() == p,
{
    if is_solvable(&p) {
        Some(SolvablePuzzle { puzzle: p })
    } else {
        None
    }
}

/// One generation attempt: a random grid of the given size, kept only if the
/// engine finds it solvable.
pub fn draw_candidate(height: usize, width: usize) -> (r: Option<SolvablePuzzle>)
    requires
        height * width <= isize::MAX,
    ensures
        r matches Some(c) ==> {
            &&& c.spec_puzzle().height == height
            &&& c.spec_puzzle().width == width
            &&& c.spec_puzzle().well_formed()
            &&& c.spec_puzzle().is_solvable_spec()
        },
        r is None ==> exists|p: Puzzle|
            #[trigger] p.well_formed() && p.height == height && p.width == width
                && !p.is_solvable_spec(),
{
    let p = generate_candidate(width, height);
    let ghost g = p;
    let r = keep_if_solvable(p);
    proof {
        if r is None {
            assert(g.well_formed() && g.height == height && g.width == width
                && !g.is_solvable_spec());
        }
    }
    r
}

/// The key under which puzzles are told apart: size and grid.
pub open spec fn grid_key(p: Puzzle) -> (usize, usize, Seq<Seq<u8>>) {
    (p.height, p.width, p.grid())
}

/// A hash set of (height, width, grid) keys.
#[verifier::external_body]
pub struct GridSet {
    set: HashSet<(usize, usize, Vec<Vec<u8>>)>,
}

/// The keys that a grid set holds.
pub uninterp spec fn grid_set_contents(s: GridSet) -> Set<(usize, usize, Seq<Seq<u8>>)>;

/// Relies on `hashbrown::HashSet::new`: the set is empty.
#[verifier::external_body]
fn grid_set_new() -> (r: GridSet)
    ensures
        grid_set_contents(r) == Set::<(usize, usize, Seq<Seq<u8>>)>::empty(),
{
    GridSet { set: HashSet::new() }
}

/// Relies on `hashbrown::HashSet::contains`: whether an equal key is held.
#[verifier::external_body]
fn grid_set_contains(s: &GridSet, key: &(usize, usize, Vec<Vec<u8>>)) -> (r: bool)
    ensures
        r == grid_set_contents(*s).contains((key.0, key.1, key.2.deep_view())),
{
    s.set.contains(key)
}

/// Relies on `hashbrown::HashSet::insert`: afterwards the key is held, and
/// nothing else changed.
#[verifier::external_body]
fn grid_set_insert(s: &mut GridSet, key: (usize, usize, Vec<Vec<u8>>))
    ensures
        grid_set_contents(*final(s)) == grid_set_contents(*old(s)).insert(
            (key.0, key.1, key.2.deep_view()),
        ),
{
    s.set.insert(key);
}

/// What became of a candidate offered to a job's shared state.
pub enum Offer {
    Inserted,
    Duplicate,
    QuotaReached,
}

/// The shared state of one dimension job: the accepted puzzles, all of the
/// job's size, pairwise distinct, solvable, and never more than the quota.
pub struct GenerationState {
    height: usize,
    width: usize,
    quota: usize,
    accepted: Vec<SolvablePuzzle>,
    seen: GridSet,
}

impl GenerationState {
    /// The state's invariant, which `new` establishes and `offer` keeps.
    pub closed spec fn wf(self) -> bool {
        &&& self.members().len() <= self.quota
        &&& forall|k: (usize, usize, Seq<Seq<u8>>)|
            #[trigger] grid_set_contents(self.seen).contains(k) <==> exists|i: int|
                0 <= i < self.members().len() && #[trigger] grid_key(self.members()[i]) == k
        &&& forall|i: int|
            0 <= i < self.members().len() ==> {
                &&& (#[trigger] self.members()[i]).well_formed()
                &&& self.members()[i].is_solvable_spec()
                &&& self.members()[i].height == self.height
                &&& self.members()[i].width == self.width
            }
        &&& forall|i: int, j: int|
            0 <= i < j < self.members().len() ==> !#[trigger] self.members()[i].same_as(
                &self.members()[j],
            )
    }

    pub closed spec fn members(self) -> Seq<Puzzle> {
        puzzles_of(self.accepted@)
    }

    pub closed spec fn spec_quota(self) -> nat {
        self.quota as nat
    }

    pub closed spec fn spec_height(self) -> usize {
        self.height
    }

    pub closed spec fn spec_width(self) -> usize {
        self.width
    }

    pub open spec fn is_full_spec(self) -> bool {
        self.members().len() >= self.spec_quota()
    }

    /// Whether some accepted puzzle is structurally equal to `p`.
    pub open spec fn holds(self, p: Puzzle) -> bool {
        exists|i: int| 0 <= i < self.members().len() && (#[trigger] self.members()[i]).same_as(&p)
    }

    /// A fresh, empty state for a job of the given size and quota.
    pub fn new(height: usize, width: usize, quota: usize) -> (r: GenerationState)
        ensures
            r.wf(),
            r.members() == Seq::<Puzzle>::empty(),
            r.spec_height() == height,
            r.spec_width() == width,
            r.spec_quota() == quota,
    {
        GenerationState { height, width, quota, accepted: Vec::new(), seen: grid_set_new() }
    }

    pub fn height(&self) -> (r: usize)
        ensures
            r == self.spec_height(),
    {
        self.height
    }

    pub fn width(&self) -> (r: usize)
        ensures
            r == self.spec_width(),
    {
        self.width
    }

    pub fn quota(&self) -> (r: usize)
        ensures
            r == self.spec_quota(),
    {
        self.quota
    }

    pub fn len(&self) -> (r: usize)
        ensures
            r == self.members().len(),
    {
        self.accepted.len()
    }

    /// Whether the job's quota has been met.
    pub fn is_full(&self) -> (r: bool)
        ensures
            r == self.is_full_spec(),
    {
        self.accepted.len() >= self.quota
    }

    /// Decides on one candidate under the job's exclusive section: refused
    /// once the quota is met, refused when an equal puzzle is already held,
    /// else inserted.
    pub fn offer(&mut self, candidate: SolvablePuzzle) -> (r: Offer)
        requires
            old(self).wf(),
            candidate.spec_puzzle().height == old(self).spec_height(),
            candidate.spec_puzzle().width == old(self).spec_width(),
        ensures
            final(self).wf(),
            final(self).spec_height() == old(self).spec_height(),
            final(self).spec_width() == old(self).spec_width(),
            final(self).spec_quota() == old(self).spec_quota(),
            old(self).is_full_spec() ==> r == Offer::QuotaReached && final(self).members()
                == old(self).members(),
            !old(self).is_full_spec() && old(self).holds(candidate.spec_puzzle()) ==> r
                == Offer::Duplicate && final(self).members() == old(self).members(),
            !old(self).is_full_spec() && !old(self).holds(candidate.spec_puzzle()) ==> r
                == Offer::Inserted && final(self).members() == old(self).members().push(
                candidate.spec_puzzle(),
            ),
    {
        proof {
            use_type_invariant(&candidate);
        }
        if self.accepted.len() >= self.quota {
            return Offer::QuotaReached;
        }
        let key = (candidate.puzzle.height, candidate.puzzle.width, candidate.puzzle.grid_copy());
        let ghost ck = grid_key(candidate.spec_puzzle());
        assert((key.0, key.1, key.2.deep_view()) == ck);
        if grid_set_contains(&self.seen, &key) {
            proof {
                let i = choose|i: int|
                    0 <= i < self.members().len() && #[trigger] grid_key(self.members()[i]) == ck;
                assert(self.members()[i].same_as(&candidate.spec_puzzle()));
            }
            return Offer::Duplicate;
        }
        proof {
            assert forall|i: int| 0 <= i < self.members().len() implies !(
            #[trigger] self.members()[i]).same_as(&candidate.spec_puzzle()) by {
                if self.members()[i].same_as(&candidate.spec_puzzle()) {
                    assert(grid_key(self.members()[i]) == ck);
                }
            }
        }
        grid_set_insert(&mut self.seen, key);
        self.accepted.push(candidate);
        proof {
            assert(self.members() == old(self).members().push(candidate.spec_puzzle()));
            let m = self.members();
            assert(m[m.len() - 1] == candidate.spec_puzzle());
            assert forall|k: (usize, usize, Seq<Seq<u8>>)|
                #[trigger] grid_set_contents(self.seen).contains(k) <==> exists|i: int|
                    0 <= i < m.len() && #[trigger] grid_key(m[i]) == k by {
                if grid_set_contents(self.seen).contains(k) && k != ck {
                    assert(grid_set_contents(old(self).seen).contains(k));
                    let i = choose|i: int|
                        0 <= i < old(self).members().len() && #[trigger] grid_key(
                            old(self).members()[i],
                        ) == k;
                    assert(m[i] == old(self).members()[i]);
                }
                if k == ck {
                    assert(grid_key(m[m.len() - 1]) == k);
                }
                if exists|i: int| 0 <= i < m.len() && #[trigger] grid_key(m[i]) == k {
                    let i = choose|i: int| 0 <= i < m.len() && #[trigger] grid_key(m[i]) == k;
                    if i < m.len() - 1 {
                        assert(m[i] == old(self).members()[i]);
                        assert(grid_set_contents(old(self).seen).contains(k));
                    }
                }
            }
        }
        Offer::Inserted
    }

    /// The accepted puzzles, in the order of their acceptance.
    pub fn into_puzzles(self) -> (r: Vec<SolvablePuzzle>)
        ensures
            puzzles_of(r@) == self.members(),
    {
        self.accepted
    }
}

/// A job whose state is full holds exactly its quota of puzzles, all of the
/// job's size, well formed, solvable and pairwise structurally distinct.
pub proof fn lemma_filled_job(s: GenerationState)
    requires
        s.wf(),
        s.is_full_spec(),
    ensures
        s.members().len() == s.spec_quota(),
        forall|i: int|
            0 <= i < s.members().len() ==> {
                &&& (#[trigger] s.members()[i]).well_formed()
                &&& s.members()[i].is_solvable_spec()
                &&& s.members()[i].height == s.spec_height()
                &&& s.members()[i].width == s.spec_width()
            },
        forall|i: int, j: int|
            0 <= i < j < s.members().len() ==> !#[trigger] s.members()[i].same_as(&s.members()[j]),
{
}

/// Two runs of one job, each filled, hold the same number of puzzles, though
/// not necessarily the same puzzles.
pub proof fn lemma_reruns_same_size(a: GenerationState, b: GenerationState)
    requires
        a.wf(),
        b.wf(),
        a.is_full_spec(),
        b.is_full_spec(),
        a.spec_quota() == b.spec_quota(),
    ensures
        a.members().len() == b.members().len(),
{
    lemma_filled_job(a);
    lemma_filled_job(b);
}

/// The concatenation of the jobs' puzzle lists, in job order.
pub open spec fn concat_spec(batches: Seq<Vec<SolvablePuzzle>>) -> Seq<SolvablePuzzle> {
    batches.map_values(|b: Vec<SolvablePuzzle>| b@).flatten()
}

/// Joins each job's puzzles, in job order, into the final collection.
pub fn concat_batches(batches: Vec<Vec<SolvablePuzzle>>) -> (r: Vec<SolvablePuzzle>)
    ensures
        r@ == concat_spec(batches@),
{
    let mut rest = batches;
    let mut out: Vec<SolvablePuzzle> = Vec::new();
    while rest.len() > 0
        invariant
            out@ + concat_spec(rest@) == concat_spec(batches@),
        decreases rest@.len(),
    {
        let ghost before = rest@;
        let mut b = rest.remove(0);
        proof {
            assert(before.map_values(|b: Vec<SolvablePuzzle>| b@).drop_first() == rest@.map_values(
                |b: Vec<SolvablePuzzle>| b@,
            ));
            assert(concat_spec(before) == b@ + concat_spec(rest@));
        }
        let ghost (mid, taken) = (out@, b@);
        out.append(&mut b);
        proof {
            assert(mid + (taken + concat_spec(rest@)) == (mid + taken) + concat_spec(rest@));
        }
    }
    proof {
        assert(concat_spec(rest@) == Seq::<SolvablePuzzle>::empty());
        assert(out@ + Seq::<SolvablePuzzle>::empty() == out@);
    }
    out
}

} // verus!
