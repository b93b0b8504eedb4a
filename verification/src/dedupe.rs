//! Collapsing of concurrent identical calls: per key, the first caller
//! computes and every caller that arrives before the result is there
//! subscribes to it.

use std::collections::HashMap;
use vstd::prelude::*;

use crate::eval::EvalError;
use crate::json::{Json, JsonValue};

verus! {

broadcast use vstd::std_specs::hash::group_hash_axioms;

/// What is known of one key.
pub enum Slot {
    /// A computation is under way; these callers wait for it, the producer
    /// first.
    Pending { callers: Vec<u64> },
    /// The value is there, and is kept.
    Done(Json),
}

/// The mathematical content of a [`Slot`].
pub ghost enum SlotModel {
    Pending(Seq<u64>),
    Done(JsonValue),
}

/// The mathematical content of a slot.
pub open spec fn slot_model(slot: Slot) -> SlotModel {
    match slot {
        Slot::Pending { callers } => SlotModel::Pending(callers@),
        Slot::Done(v) => SlotModel::Done(v@),
    }
}

/// What a caller that arrives has to do.
#[derive(Debug, PartialEq, Eq)]
pub enum Arrival {
    /// Nothing is under way for the key: the caller computes.
    Compute,
    /// A computation is under way: the caller waits for its result.
    Subscribe,
    /// The value is there.
    Ready(Json),
}

/// The mathematical content of an [`Arrival`].
pub ghost enum ArrivalModel {
    Compute,
    Subscribe,
    Ready(JsonValue),
}

impl View for Arrival {
    type V = ArrivalModel;

    open spec fn view(&self) -> ArrivalModel {
        match self {
            Arrival::Compute => ArrivalModel::Compute,
            Arrival::Subscribe => ArrivalModel::Subscribe,
            Arrival::Ready(v) => ArrivalModel::Ready(v@),
        }
    }
}

/// The mathematical content of a [`Dedupe`]: whether values are kept, and
/// what is known of each key.
pub ghost struct DedupeModel {
    pub persist: bool,
    pub slots: Map<u64, SlotModel>,
}

/// `callers` without the first occurrence of `caller`.
pub open spec fn without(callers: Seq<u64>, caller: u64) -> Seq<u64>
    decreases callers.len(),
{
    if callers.len() == 0 {
        callers
    } else if callers[0] == caller {
        callers.skip(1)
    } else {
        seq![callers[0]] + without(callers.skip(1), caller)
    }
}

proof fn lemma_without(callers: Seq<u64>, caller: u64, at: int)
    requires
        0 <= at < callers.len(),
        callers[at] == caller,
        forall|j: int| 0 <= j < at ==> callers[j] != caller,
    ensures
        without(callers, caller) == callers.remove(at),
    decreases callers.len(),
{
    if at == 0 {
        assert(callers.skip(1) =~= callers.remove(0));
    } else {
        let rest = callers.skip(1);
        assert forall|j: int| 0 <= j < at - 1 implies rest[j] != caller by {
            assert(rest[j] == callers[j + 1]);
        }
        lemma_without(rest, caller, at - 1);
        assert(seq![callers[0]] + rest.remove(at - 1) =~= callers.remove(at));
    }
}

impl DedupeModel {
    /// The arrival of `caller` for `key`.
    pub open spec fn arrive(self, key: u64, caller: u64) -> (ArrivalModel, DedupeModel) {
        if !self.slots.contains_key(key) {
            (
                ArrivalModel::Compute,
                DedupeModel {
                    slots: self.slots.insert(key, SlotModel::Pending(seq![caller])),
                    ..self
                },
            )
        } else {
            match self.slots[key] {
                SlotModel::Pending(callers) => (
                    ArrivalModel::Subscribe,
                    DedupeModel {
                        slots: self.slots.insert(key, SlotModel::Pending(callers.push(caller))),
                        ..self
                    },
                ),
                SlotModel::Done(v) => (ArrivalModel::Ready(v), self),
            }
        }
    }

    /// The callers to whom the result of the computation for `key` goes:
    /// all that wait for it.
    pub open spec fn receivers(self, key: u64) -> Seq<u64> {
        if self.slots.contains_key(key) {
            match self.slots[key] {
                SlotModel::Pending(callers) => callers,
                SlotModel::Done(_) => Seq::empty(),
            }
        } else {
            Seq::empty()
        }
    }

    /// The state after the computation for `key` has ended with `result`.
    /// The slot is given up, so that the next caller computes again,
    /// unless values are kept and the result is a value.
    pub open spec fn complete(self, key: u64, result: Result<JsonValue, EvalError>) -> DedupeModel {
        if self.slots.contains_key(key) && self.slots[key] is Pending {
            match result {
                Ok(v) => if self.persist {
                    DedupeModel { slots: self.slots.insert(key, SlotModel::Done(v)), ..self }
                } else {
                    DedupeModel { slots: self.slots.remove(key), ..self }
                },
                Err(_) => DedupeModel { slots: self.slots.remove(key), ..self },
            }
        } else {
            self
        }
    }

    /// The state after `caller` has given up waiting for `key`. The slot
    /// goes with its last caller.
    pub open spec fn cancel(self, key: u64, caller: u64) -> DedupeModel {
        if self.slots.contains_key(key) {
            match self.slots[key] {
                SlotModel::Pending(callers) => if callers.contains(caller) {
                    if callers.len() == 1 {
                        DedupeModel { slots: self.slots.remove(key), ..self }
                    } else {
                        DedupeModel {
                            slots: self.slots.insert(
                                key,
                                SlotModel::Pending(without(callers, caller)),
                            ),
                            ..self
                        }
                    }
                } else {
                    self
                },
                SlotModel::Done(_) => self,
            }
        } else {
            self
        }
    }

    /// Whether the producer for `key` may be stopped once `caller` has
    /// given up: only where nobody else waits.
    pub open spec fn abandons(self, key: u64, caller: u64) -> bool {
        self.slots.contains_key(key) && self.slots[key] == SlotModel::Pending(seq![caller])
    }

    /// The state after the callers have arrived for `key`, one after the
    /// other.
    pub open spec fn arrive_all(self, key: u64, callers: Seq<u64>) -> DedupeModel
        decreases callers.len(),
    {
        if callers.len() == 0 {
            self
        } else {
            self.arrive_all(key, callers.drop_last()).arrive(key, callers.last()).1
        }
    }

    /// What each of the callers has to do that arrive for `key`, one after
    /// the other.
    pub open spec fn arrivals(self, key: u64, callers: Seq<u64>) -> Seq<ArrivalModel> {
        Seq::new(
            callers.len(),
            |i: int| self.arrive_all(key, callers.take(i)).arrive(key, callers[i]).0,
        )
    }
}

/// Of the callers that arrive for a key for which nothing is under way,
/// the first computes and every other one subscribes; all of them wait for
/// the one result.
pub proof fn lemma_one_computation(m: DedupeModel, key: u64, callers: Seq<u64>)
    requires
        !m.slots.contains_key(key),
        callers.len() > 0,
    ensures
        m.arrive_all(key, callers).slots == m.slots.insert(key, SlotModel::Pending(callers)),
        m.arrive_all(key, callers).receivers(key) == callers,
        m.arrivals(key, callers)[0] == ArrivalModel::Compute,
        forall|i: int| 1 <= i < callers.len() ==> m.arrivals(key, callers)[i] == ArrivalModel::Subscribe,
    decreases callers.len(),
{
    if callers.len() == 1 {
        assert(callers.drop_last() =~= Seq::<u64>::empty());
        assert(m.arrive_all(key, callers.drop_last()) == m);
        assert(seq![callers.last()] =~= callers);
        assert(callers.take(0) =~= Seq::<u64>::empty());
        assert(m.arrive_all(key, callers.take(0)) == m);
    } else {
        let front = callers.drop_last();
        lemma_one_computation(m, key, front);
        assert(front.push(callers.last()) =~= callers);
        assert(m.arrive_all(key, callers).slots =~= m.slots.insert(
            key,
            SlotModel::Pending(callers),
        ));
        assert(callers.take(0) =~= front.take(0));
        assert(m.arrivals(key, front)[0] == ArrivalModel::Compute);
        assert forall|i: int| 1 <= i < callers.len() implies m.arrivals(key, callers)[i]
            == ArrivalModel::Subscribe by {
            if i < front.len() {
                assert(callers.take(i) =~= front.take(i));
                assert(m.arrivals(key, front)[i] == ArrivalModel::Subscribe);
            } else {
                assert(callers.take(i) =~= front);
            }
        }
    }
}

/// After the one computation has ended, the state is as before the
/// callers arrived, so that the next caller computes again; unless values
/// are kept and the result is a value, which every later caller then gets.
pub proof fn lemma_after_completion(
    m: DedupeModel,
    key: u64,
    callers: Seq<u64>,
    result: Result<JsonValue, EvalError>,
    next: u64,
)
    requires
        !m.slots.contains_key(key),
        callers.len() > 0,
    ensures
        m.arrive_all(key, callers).complete(key, result).arrive(key, next).0 == match result {
            Ok(v) => if m.persist {
                ArrivalModel::Ready(v)
            } else {
                ArrivalModel::Compute
            },
            Err(_) => ArrivalModel::Compute,
        },
        !(m.persist && result is Ok) ==> m.arrive_all(key, callers).complete(key, result) == m,
{
    lemma_one_computation(m, key, callers);
    let before = m.arrive_all(key, callers);
    lemma_arrive_all_keeps_persist(m, key, callers);
    assert(before.slots.remove(key) =~= m.slots);
}

proof fn lemma_arrive_all_keeps_persist(m: DedupeModel, key: u64, callers: Seq<u64>)
    ensures
        m.arrive_all(key, callers).persist == m.persist,
    decreases callers.len(),
{
    if callers.len() > 0 {
        lemma_arrive_all_keeps_persist(m, key, callers.drop_last());
    }
}

/// The table that collapses concurrent identical calls.
pub struct Dedupe {
    persist: bool,
    slots: HashMap<u64, Slot>,
}

impl View for Dedupe {
    type V = DedupeModel;

    closed spec fn view(&self) -> DedupeModel {
        DedupeModel {
            persist: self.persist,
            slots: self.slots@.map_values(|slot: Slot| slot_model(slot)),
        }
    }
}

/// The result of a computation as a mathematical value.
pub open spec fn result_model(result: Result<Json, EvalError>) -> Result<JsonValue, EvalError> {
    match result {
        Ok(v) => Ok(v@),
        Err(e) => Err(e),
    }
}

impl Dedupe {
    /// An empty table. With `persist`, a value once computed is kept and
    /// handed to every later caller.
    pub fn new(persist: bool) -> (r: Self)
        ensures
            r@.persist == persist,
            r@.slots == Map::<u64, SlotModel>::empty(),
    {
        let r = Dedupe { persist, slots: HashMap::new() };
        assert(r@.slots =~= Map::<u64, SlotModel>::empty());
        r
    }

    /// Registers `caller` for `key` and says what it has to do.
    pub fn arrive(&mut self, key: u64, caller: u64) -> (r: Arrival)
        ensures
            r@ == old(self)@.arrive(key, caller).0,
            final(self)@ == old(self)@.arrive(key, caller).1,
    {
        let ghost before = self.slots@;
        match self.slots.remove(&key) {
            None => {
                let mut callers: Vec<u64> = Vec::new();
                callers.push(caller);
                assert(callers@ =~= seq![caller]);
                self.slots.insert(key, Slot::Pending { callers });
                assert(self@.slots =~= old(self)@.arrive(key, caller).1.slots);
                Arrival::Compute
            },
            Some(Slot::Pending { callers }) => {
                let mut callers = callers;
                callers.push(caller);
                self.slots.insert(key, Slot::Pending { callers });
                assert(self@.slots =~= old(self)@.arrive(key, caller).1.slots);
                Arrival::Subscribe
            },
            Some(Slot::Done(v)) => {
                let copy = v.clone();
                self.slots.insert(key, Slot::Done(v));
                assert(self.slots@ =~= before);
                Arrival::Ready(copy)
            },
        }
    }

    /// Ends the computation for `key` with `result`, and hands back the
    /// callers to whom the result goes.
    pub fn complete(&mut self, key: u64, result: &Result<Json, EvalError>) -> (receivers: Vec<u64>)
        ensures
            receivers@ == old(self)@.receivers(key),
            final(self)@ == old(self)@.complete(key, result_model(*result)),
    {
        let ghost before = self.slots@;
        match self.slots.remove(&key) {
            Some(Slot::Pending { callers }) => {
                match result {
                    Ok(v) => {
                        if self.persist {
                            self.slots.insert(key, Slot::Done(v.clone()));
                        }
                    },
                    Err(_) => {},
                }
                assert(self@.slots =~= old(self)@.complete(key, result_model(*result)).slots);
                callers
            },
            Some(slot) => {
                self.slots.insert(key, slot);
                assert(self.slots@ =~= before);
                Vec::new()
            },
            None => {
                assert(self.slots@ =~= before);
                Vec::new()
            },
        }
    }

    /// Takes `caller` off the callers that wait for `key`, and says whether
    /// the producer may be stopped because nobody waits any more.
    pub fn cancel(&mut self, key: u64, caller: u64) -> (abandoned: bool)
        ensures
            abandoned == old(self)@.abandons(key, caller),
            final(self)@ == old(self)@.cancel(key, caller),
    {
        let ghost before = self.slots@;
        match self.slots.remove(&key) {
            Some(Slot::Pending { callers }) => {
                let mut callers = callers;
                let ghost waiting = callers@;
                let mut i: usize = 0;
                let mut found: Option<usize> = None;
                while i < callers.len()
                    invariant_except_break
                        found is None,
                        forall|j: int| 0 <= j < i ==> waiting[j] != caller,
                    invariant
                        i <= callers.len(),
                        callers@ == waiting,
                    ensures
                        callers@ == waiting,
                        match found {
                            Some(at) => at < waiting.len() && waiting[at as int] == caller
                                && forall|j: int| 0 <= j < at ==> waiting[j] != caller,
                            None => !waiting.contains(caller),
                        },
                    decreases callers.len() - i,
                {
                    if callers[i] == caller {
                        found = Some(i);
                        break ;
                    }
                    i += 1;
                }
                match found {
                    Some(at) => {
                        proof {
                            lemma_without(waiting, caller, at as int);
                            assert(waiting.contains(caller));
                        }
                        if callers.len() == 1 {
                            assert(waiting =~= seq![caller]);
                            assert(self@.slots =~= old(self)@.cancel(key, caller).slots);
                            true
                        } else {
                            callers.remove(at);
                            self.slots.insert(key, Slot::Pending { callers });
                            assert(self@.slots =~= old(self)@.cancel(key, caller).slots);
                            assert(waiting != seq![caller]);
                            false
                        }
                    },
                    None => {
                        self.slots.insert(key, Slot::Pending { callers });
                        assert(self.slots@ =~= before);
                        assert(waiting != seq![caller]) by {
                            assert(seq![caller][0] == caller);
                        }
                        false
                    },
                }
            },
            Some(slot) => {
                self.slots.insert(key, slot);
                assert(self.slots@ =~= before);
                false
            },
            None => {
                assert(self.slots@ =~= before);
                false
            },
        }
    }
}

} // verus!
