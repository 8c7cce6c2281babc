//! The identity allocator: it hands out the ids of notifications and
//! remembers which of them are in use.

use std::collections::HashSet;
use vstd::prelude::*;
use vstd::set_lib::{
    lemma_int_range, lemma_len_subset, lemma_map_size, lemma_subset_equality, set_int_range,
};

verus! {

broadcast use vstd::std_specs::hash::group_hash_axioms;

/// The id after `id`: ids run from 1 to the largest number and then start
/// again at 1. Zero is no id.
pub open spec fn successor(id: u32) -> u32 {
    if id == u32::MAX {
        1
    } else {
        (id + 1) as u32
    }
}

/// The id that stands `steps` ids after `from`.
pub open spec fn advance(from: u32, steps: nat) -> u32
    decreases steps,
{
    if steps == 0 {
        from
    } else {
        successor(advance(from, (steps - 1) as nat))
    }
}

/// How many ids after `from` the id `to` stands.
pub open spec fn distance(from: u32, to: u32) -> int {
    if to >= from {
        to - from
    } else {
        to - from + u32::MAX
    }
}

/// What an allocator knows: where it looks next, and the ids in use.
pub struct RegistryState {
    pub next: u32,
    pub used: Set<u32>,
}

impl RegistryState {
    /// The allocator never looks at zero and never holds it as used.
    pub open spec fn wf(self) -> bool {
        &&& self.next != 0
        &&& !self.used.contains(0)
        &&& self.used.finite()
    }

    /// The state of a new allocator: nothing is in use, and it looks at 1.
    pub open spec fn fresh() -> RegistryState {
        RegistryState { next: 1, used: Set::empty() }
    }

    /// `id` is an id that is not in use.
    pub open spec fn is_free(self, id: u32) -> bool {
        id != 0 && !self.used.contains(id)
    }

    /// Some id is not in use.
    pub open spec fn has_free(self) -> bool {
        exists|id: u32| self.is_free(id)
    }

    /// The id that stands `steps` after the one looked at next is free, and
    /// none before it is.
    pub open spec fn first_free_after(self, steps: nat) -> bool {
        &&& self.is_free(advance(self.next, steps))
        &&& forall|earlier: nat| earlier < steps ==> !self.is_free(advance(self.next, earlier))
    }

    /// The first free id, counting from the one looked at next.
    pub open spec fn next_free(self) -> u32 {
        advance(self.next, choose|steps: nat| self.first_free_after(steps))
    }

    /// Allocation: the first free id is handed out and marked as used, and
    /// the allocator looks past it next.
    pub open spec fn allocate(self) -> (u32, RegistryState) {
        let id = self.next_free();
        (id, RegistryState { next: successor(id), used: self.used.insert(id) })
    }

    /// The id is in use from now on, whether it was handed out or not.
    pub open spec fn mark_used(self, id: u32) -> RegistryState {
        RegistryState { next: self.next, used: self.used.insert(id) }
    }

    /// Release: the id is no longer in use.
    pub open spec fn release(self, id: u32) -> RegistryState {
        RegistryState { next: self.next, used: self.used.remove(id) }
    }

    /// The ids that `count` allocations in a row hand out, and the state
    /// after them.
    pub open spec fn allocate_many(self, count: nat) -> (Seq<u32>, RegistryState)
        decreases count,
    {
        if count == 0 {
            (Seq::empty(), self)
        } else {
            let (ids, state) = self.allocate_many((count - 1) as nat);
            let (id, after) = state.allocate();
            (ids.push(id), after)
        }
    }
}

/// Where the first free id stands `steps` after the one looked at next, it
/// is the id that allocation hands out.
pub proof fn lemma_first_free_is_next(state: RegistryState, steps: nat)
    requires
        state.first_free_after(steps),
    ensures
        state.next_free() == advance(state.next, steps),
{
    let chosen = choose|k: nat| state.first_free_after(k);
    assert(state.first_free_after(chosen));
    if chosen < steps {
        assert(!state.is_free(advance(state.next, chosen)));
    }
    if steps < chosen {
        assert(!state.is_free(advance(state.next, steps)));
    }
}

/// The id before `id` in the cycle of ids.
pub open spec fn predecessor(id: u32) -> u32 {
    if id == 1 {
        u32::MAX
    } else {
        (id - 1) as u32
    }
}

/// Walking on from one id reaches every other: `to` stands `distance(from,
/// to)` ids after `from`.
pub proof fn lemma_advance_reaches(from: u32, to: u32)
    requires
        from != 0,
        to != 0,
    ensures
        advance(from, distance(from, to) as nat) == to,
    decreases distance(from, to),
{
    if from != to {
        lemma_advance_reaches(from, predecessor(to));
    }
}

/// Where the id that stands `bound` after the one looked at next is free, a
/// first free id stands there or before.
pub proof fn lemma_first_free_exists(state: RegistryState, bound: nat)
    requires
        state.is_free(advance(state.next, bound)),
    ensures
        exists|steps: nat| steps <= bound && state.first_free_after(steps),
    decreases bound,
{
    if exists|earlier: nat| earlier < bound && state.is_free(advance(state.next, earlier)) {
        let earlier = choose|earlier: nat|
            earlier < bound && state.is_free(advance(state.next, earlier));
        lemma_first_free_exists(state, earlier);
        let steps = choose|steps: nat| steps <= earlier && state.first_free_after(steps);
        assert(steps <= bound && state.first_free_after(steps));
    } else {
        assert(state.first_free_after(bound));
    }
}

/// Where an id is free, allocation hands out a free id: one that is not zero
/// and not in use.
pub proof fn lemma_next_free_is_free(state: RegistryState)
    requires
        state.wf(),
        state.has_free(),
    ensures
        state.is_free(state.next_free()),
{
    let free = choose|id: u32| state.is_free(id);
    lemma_advance_reaches(state.next, free);
    lemma_first_free_exists(state, distance(state.next, free) as nat);
    let steps = choose|steps: nat| state.first_free_after(steps);
    assert(state.first_free_after(steps));
}

/// Allocation keeps the allocator consistent, and the id that it hands out
/// is in use afterwards.
pub proof fn lemma_allocate_keeps_wf(state: RegistryState)
    requires
        state.wf(),
        state.has_free(),
    ensures
        state.allocate().1.wf(),
        state.allocate().1.used.contains(state.allocate().0),
        state.used.subset_of(state.allocate().1.used),
{
    lemma_next_free_is_free(state);
}

/// The set of all ids has as many elements as the largest number.
pub proof fn lemma_count_of_ids()
    ensures
        Set::new(|id: u32| id != 0).finite(),
        Set::new(|id: u32| id != 0).len() == u32::MAX,
{
    let ids = Set::new(|id: u32| id != 0);
    let numbers = set_int_range(1, u32::MAX + 1);
    let cast = |i: int| i as u32;
    lemma_int_range(1, u32::MAX + 1);
    assert(numbers.map(cast) =~= ids) by {
        assert forall|id: u32| ids.contains(id) implies numbers.map(cast).contains(id) by {
            assert(numbers.contains(id as int) && cast(id as int) == id);
        }
    }
    assert(vstd::relations::injective_on(cast, numbers));
    lemma_map_size(numbers, ids, cast);
}

/// Some id is free just when fewer ids are in use than there are ids.
pub proof fn lemma_free_id_by_count(state: RegistryState)
    requires
        state.wf(),
    ensures
        state.has_free() <==> state.used.len() < u32::MAX,
{
    let ids = Set::new(|id: u32| id != 0);
    lemma_count_of_ids();
    assert(state.used.subset_of(ids));
    lemma_len_subset(state.used, ids);
    if state.used.len() < u32::MAX {
        if !state.has_free() {
            assert forall|id: u32| ids.contains(id) implies state.used.contains(id) by {
                assert(!state.is_free(id));
            }
            assert(ids.subset_of(state.used));
            lemma_len_subset(ids, state.used);
        }
    } else {
        lemma_subset_equality(state.used, ids);
        assert forall|id: u32| !state.is_free(id) by {
            if id != 0 {
                assert(ids.contains(id));
            }
        }
    }
}

/// The allocator of notification ids.
#[derive(Debug)]
pub struct IdentityRegistry {
    next_id: u32,
    used_ids: HashSet<u32>,
}

impl View for IdentityRegistry {
    type V = RegistryState;

    closed spec fn view(&self) -> RegistryState {
        RegistryState { next: self.next_id, used: self.used_ids@ }
    }
}

impl IdentityRegistry {
    /// An allocator with no id in use.
    pub fn new() -> (registry: Self)
        ensures
            registry@ == RegistryState::fresh(),
            registry@.wf(),
    {
        IdentityRegistry { next_id: 1, used_ids: HashSet::new() }
    }

    /// Whether the id is in use.
    pub fn is_used(&self, id: u32) -> (used: bool)
        ensures
            used == self@.used.contains(id),
    {
        self.used_ids.contains(&id)
    }

    /// Whether an id is left to hand out.
    pub fn has_free_id(&self) -> (free: bool)
        requires
            self@.wf(),
        ensures
            free == self@.has_free(),
    {
        proof {
            lemma_free_id_by_count(self@);
        }
        self.used_ids.len() < u32::MAX as usize
    }

    /// Hands out the first free id, counting from the one looked at next and
    /// starting again at 1 after the largest number, and marks it as used.
    pub fn allocate(&mut self) -> (id: u32)
        requires
            old(self)@.wf(),
            old(self)@.has_free(),
        ensures
            id == old(self)@.allocate().0,
            final(self)@ == old(self)@.allocate().1,
            final(self)@.wf(),
            old(self)@.is_free(id),
    {
        let ghost start = self@;
        let ghost free = choose|id: u32| start.is_free(id);
        let ghost steps = 0nat;
        while self.used_ids.contains(&self.next_id)
            invariant
                self.used_ids@ == start.used,
                start.wf(),
                start.is_free(free),
                self.next_id == advance(start.next, steps),
                self.next_id != 0,
                forall|earlier: nat| earlier < steps ==> !start.is_free(advance(start.next, earlier)),
            decreases distance(self.next_id, free),
        {
            if self.next_id == u32::MAX {
                self.next_id = 1;
            } else {
                self.next_id += 1;
            }
            proof {
                steps = steps + 1;
            }
        }
        let id = self.next_id;
        proof {
            lemma_first_free_is_next(start, steps);
        }
        self.used_ids.insert(id);
        if id == u32::MAX {
            self.next_id = 1;
        } else {
            self.next_id = id + 1;
        }
        id
    }

    /// Marks the id as in use, so that it is not handed out. Nothing changes
    /// where it was in use.
    pub fn mark_used(&mut self, id: u32)
        requires
            id != 0,
        ensures
            final(self)@ == old(self)@.mark_used(id),
            old(self)@.wf() ==> final(self)@.wf(),
    {
        self.used_ids.insert(id);
    }

    /// Marks the id as no longer in use. Nothing changes where it was not in
    /// use.
    pub fn release(&mut self, id: u32)
        ensures
            final(self)@ == old(self)@.release(id),
            old(self)@.wf() ==> final(self)@.wf(),
    {
        self.used_ids.remove(&id);
    }
}

/// A new allocator hands out 1, 2, 3 and so on: its first `count` ids are
/// the numbers from 1 to `count`, in ascending order.
pub proof fn lemma_fresh_ids_count_up(count: nat)
    requires
        count <= u32::MAX,
    ensures
        RegistryState::fresh().allocate_many(count).0 == Seq::new(count, |i: int| (i + 1) as u32),
        RegistryState::fresh().allocate_many(count).1 == (RegistryState {
            next: successor(count as u32),
            used: Set::new(|id: u32| 1 <= id <= count),
        }),
    decreases count,
{
    let fresh = RegistryState::fresh();
    if count == 0 {
        assert(fresh.allocate_many(0).0 =~= Seq::new(0, |i: int| (i + 1) as u32));
        assert(fresh.used =~= Set::new(|id: u32| 1 <= id <= 0));
        assert(successor(0) == 1);
    } else {
        let before = (count - 1) as nat;
        lemma_fresh_ids_count_up(before);
        let (ids, state) = fresh.allocate_many(before);
        assert(state.next == count);
        assert(state.first_free_after(0));
        lemma_first_free_is_next(state, 0);
        assert(state.allocate().0 == count);
        assert(ids.push(count as u32) =~= Seq::new(count, |i: int| (i + 1) as u32));
        assert(state.used.insert(count as u32) =~= Set::new(|id: u32| 1 <= id <= count));
    }
}

/// After the largest number, allocation starts again at 1: where the
/// allocator looks at the largest number, that number is in use and 1 is not,
/// it hands out 1.
pub proof fn lemma_allocation_wraps(state: RegistryState)
    requires
        state.wf(),
        state.next == u32::MAX,
        state.used.contains(u32::MAX),
        !state.used.contains(1),
    ensures
        state.allocate().0 == 1,
        state.allocate().1.next == 2,
{
    reveal_with_fuel(advance, 2);
    assert(state.first_free_after(1)) by {
        assert forall|earlier: nat| earlier < 1 implies !state.is_free(
            advance(state.next, earlier),
        ) by {
            assert(earlier == 0);
        }
    }
    lemma_first_free_is_next(state, 1);
}

} // verus!
