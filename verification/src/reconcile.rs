//! Reconciliation: what becomes of each input slot when the list of bound
//! names changes.
//!
//! A slot is a name with a value. Values are carried as the 64 bits of an
//! IEEE 754 double; they are moved, never computed with.

use crate::expr::{binding_index, lemma_first_position, lemma_no_position, names_of};
use vstd::prelude::*;

verus! {

/// The value of a slot that is new: the bits of positive zero.
pub const DEFAULT_VALUE: u64 = 0;

/// What becomes of an old slot.
#[derive(Clone, Copy, Debug, PartialEq, Eq)]
pub enum OldSlot {
    /// Its name is still bound: the slot moves to `new_index` with `value`.
    Keep { new_index: usize, value: u64 },
    /// Its name is no longer bound.
    Drop,
}

/// Where a new slot comes from.
#[derive(Clone, Copy, Debug, PartialEq, Eq)]
pub enum NewSlot {
    /// Its name was bound before, at `old_index`, to `value`.
    Kept { old_index: usize, value: u64 },
    /// Its name was not bound before: the slot starts with `value`.
    Insert { value: u64 },
}

/// The pin of a binding: pin 0 is the text input, pin `i + 1` belongs to
/// binding `i`.
pub open spec fn pin_of(index: int) -> int {
    index + 1
}

/// What the owner of the wires has to do for a patch. Pins and wires are
/// those from before the patch: the actions of one patch are to be carried
/// out together, every wire that goes or moves taken away before any moved
/// wire is made at its new pin.
#[derive(Clone, Copy, Debug, PartialEq, Eq)]
pub enum PinAction {
    /// Remove every wire that ends in `pin`.
    Sever { pin: usize },
    /// Let every wire that ended in `from` end in `to`.
    Move { from: usize, to: usize },
}

/// The difference between an old list of slots and a new list of names.
#[derive(Debug, PartialEq, Eq)]
pub struct Patch {
    /// For each old slot, in order, what becomes of it.
    pub old_slots: Vec<OldSlot>,
    /// For each new slot, in order, where it comes from.
    pub new_slots: Vec<NewSlot>,
}

/// The mathematical model of a [`Patch`].
pub struct PatchView {
    pub old_slots: Seq<OldSlot>,
    pub new_slots: Seq<NewSlot>,
}

impl View for Patch {
    type V = PatchView;

    open spec fn view(&self) -> PatchView {
        PatchView { old_slots: self.old_slots@, new_slots: self.new_slots@ }
    }
}

impl NewSlot {
    /// The value that the slot starts with.
    pub open spec fn initial(self) -> u64 {
        match self {
            NewSlot::Kept { value, .. } => value,
            NewSlot::Insert { value } => value,
        }
    }

    /// The value that the slot starts with.
    pub fn value(&self) -> (v: u64)
        ensures
            v == self.initial(),
    {
        match self {
            NewSlot::Kept { value, .. } => *value,
            NewSlot::Insert { value } => *value,
        }
    }
}

/// What becomes of old slot `i`: it is kept, at the first place where the new
/// names hold its name, or dropped if they do not hold it.
pub open spec fn old_slot(
    old_names: Seq<Seq<char>>,
    old_values: Seq<u64>,
    new_names: Seq<Seq<char>>,
    i: int,
) -> OldSlot {
    match new_names.index_of_first(old_names[i]) {
        Some(j) => OldSlot::Keep { new_index: j as usize, value: old_values[i] },
        None => OldSlot::Drop,
    }
}

/// Where new slot `j` comes from: the first old slot of its name, or nowhere
/// if the old names do not hold it.
pub open spec fn new_slot(
    old_names: Seq<Seq<char>>,
    old_values: Seq<u64>,
    new_names: Seq<Seq<char>>,
    j: int,
) -> NewSlot {
    match old_names.index_of_first(new_names[j]) {
        Some(i) => NewSlot::Kept { old_index: i as usize, value: old_values[i] },
        None => NewSlot::Insert { value: DEFAULT_VALUE },
    }
}

/// The patch from the old slots to the new names.
pub open spec fn patch_of(
    old_names: Seq<Seq<char>>,
    old_values: Seq<u64>,
    new_names: Seq<Seq<char>>,
) -> PatchView {
    PatchView {
        old_slots: Seq::new(
            old_names.len(),
            |i: int| old_slot(old_names, old_values, new_names, i),
        ),
        new_slots: Seq::new(
            new_names.len(),
            |j: int| new_slot(old_names, old_values, new_names, j),
        ),
    }
}

impl PatchView {
    /// The values of the new slots, in order.
    pub open spec fn values(self) -> Seq<u64> {
        Seq::new(self.new_slots.len(), |j: int| self.new_slots[j].initial())
    }

    /// Whether each kept slot moves to a place among the new slots.
    pub open spec fn in_range(self) -> bool {
        forall|i: int|
            0 <= i < self.old_slots.len() ==> (#[trigger] self.old_slots[i] matches OldSlot::Keep {
                new_index,
                ..
            } ==> new_index < self.new_slots.len())
    }

    /// What is to be done to the wires of the first `n` old slots, in the
    /// order of the slots.
    pub open spec fn actions(self, n: int) -> Seq<PinAction>
        decreases n,
    {
        if n <= 0 {
            Seq::empty()
        } else {
            match action_of(self.old_slots[n - 1], n - 1) {
                Some(action) => self.actions(n - 1).push(action),
                None => self.actions(n - 1),
            }
        }
    }
}

/// What is to be done to the wires of old slot `i`: a dropped slot has its
/// pin severed, a kept slot that changes place has its wires moved to its new
/// pin, and one that stays put has nothing done to it.
pub open spec fn action_of(slot: OldSlot, i: int) -> Option<PinAction> {
    match slot {
        OldSlot::Drop => Some(PinAction::Sever { pin: pin_of(i) as usize }),
        OldSlot::Keep { new_index, .. } => if new_index == i {
            None
        } else {
            Some(
                PinAction::Move { from: pin_of(i) as usize, to: pin_of(new_index as int) as usize },
            )
        },
    }
}

/// Compares an old list of slots with a new list of names.
///
/// Each old slot whose name is among the new names is kept, with its value,
/// at the place of that name; every other old slot is dropped. Each new name
/// that was not bound before gets a slot with [`DEFAULT_VALUE`].
pub fn reconcile(
    old_bindings: &Vec<String>,
    old_values: &Vec<u64>,
    new_bindings: &Vec<String>,
) -> (patch: Patch)
    requires
        old_bindings.len() == old_values.len(),
    ensures
        patch@ == patch_of(names_of(old_bindings@), old_values@, names_of(new_bindings@)),
        patch@.in_range(),
{
    let ghost old_names = names_of(old_bindings@);
    let ghost new_names = names_of(new_bindings@);
    let mut old_slots: Vec<OldSlot> = Vec::new();
    let mut i: usize = 0;
    while i < old_bindings.len()
        invariant
            i <= old_bindings.len(),
            old_bindings.len() == old_values.len(),
            old_names == names_of(old_bindings@),
            new_names == names_of(new_bindings@),
            old_slots.len() == i,
            forall|k: int|
                0 <= k < i ==> old_slots[k] == old_slot(old_names, old_values@, new_names, k),
            forall|k: int|
                0 <= k < i ==> (#[trigger] old_slots[k] matches OldSlot::Keep { new_index, .. }
                    ==> new_index < new_bindings.len()),
        decreases old_bindings.len() - i,
    {
        let slot = match binding_index(new_bindings, &old_bindings[i]) {
            Some(j) => OldSlot::Keep { new_index: j, value: old_values[i] },
            None => OldSlot::Drop,
        };
        old_slots.push(slot);
        i = i + 1;
    }
    let mut new_slots: Vec<NewSlot> = Vec::new();
    let mut j: usize = 0;
    while j < new_bindings.len()
        invariant
            j <= new_bindings.len(),
            old_bindings.len() == old_values.len(),
            old_names == names_of(old_bindings@),
            new_names == names_of(new_bindings@),
            new_slots.len() == j,
            forall|k: int|
                0 <= k < j ==> new_slots[k] == new_slot(old_names, old_values@, new_names, k),
        decreases new_bindings.len() - j,
    {
        let slot = match binding_index(old_bindings, &new_bindings[j]) {
            Some(i) => NewSlot::Kept { old_index: i, value: old_values[i] },
            None => NewSlot::Insert { value: DEFAULT_VALUE },
        };
        new_slots.push(slot);
        j = j + 1;
    }
    let patch = Patch { old_slots, new_slots };
    assert(patch@.old_slots =~= patch_of(old_names, old_values@, new_names).old_slots);
    assert(patch@.new_slots =~= patch_of(old_names, old_values@, new_names).new_slots);
    patch
}

impl Patch {
    /// The values of the new slots, in order: carried over where the name
    /// was bound before, the default where it was not.
    pub fn apply(&self) -> (values: Vec<u64>)
        ensures
            values@ == self@.values(),
    {
        let mut values: Vec<u64> = Vec::new();
        let mut j: usize = 0;
        while j < self.new_slots.len()
            invariant
                j <= self.new_slots.len(),
                values.len() == j,
                forall|k: int| 0 <= k < j ==> values[k] == self.new_slots[k].initial(),
            decreases self.new_slots.len() - j,
        {
            values.push(self.new_slots[j].value());
            j = j + 1;
        }
        assert(values@ =~= self@.values());
        values
    }

    /// What is to be done to the wires: for each old slot in order, sever
    /// the pin of a dropped one and move the wires of a kept one that changes
    /// place.
    pub fn pin_actions(&self) -> (actions: Vec<PinAction>)
        requires
            self@.in_range(),
        ensures
            actions@ == self@.actions(self.old_slots.len() as int),
    {
        let mut actions: Vec<PinAction> = Vec::new();
        let mut i: usize = 0;
        while i < self.old_slots.len()
            invariant
                i <= self.old_slots.len(),
                self@.in_range(),
                actions@ == self@.actions(i as int),
            decreases self.old_slots.len() - i,
        {
            match self.old_slots[i] {
                OldSlot::Drop => {
                    actions.push(PinAction::Sever { pin: i + 1 });
                },
                OldSlot::Keep { new_index, .. } => {
                    assert(self@.old_slots[i as int] is Keep && new_index < self.new_slots.len());
                    if new_index != i {
                        actions.push(PinAction::Move { from: i + 1, to: new_index + 1 });
                    }
                },
            }
            i = i + 1;
        }
        actions
    }
}

/// In a list without duplicates, each name is first found where it stands.
pub proof fn lemma_found_in_place(names: Seq<Seq<char>>, i: int)
    requires
        names.no_duplicates(),
        0 <= i < names.len(),
    ensures
        names.index_of_first(names[i]) == Some(i),
{
    lemma_first_position(names, names[i], i);
}

/// Reconciling a list of bindings with itself keeps every slot in its place
/// with its value, and asks for nothing to be done to any wire.
pub proof fn lemma_reconcile_identity(names: Seq<Seq<char>>, values: Seq<u64>)
    requires
        names.no_duplicates(),
        names.len() == values.len(),
        names.len() <= usize::MAX,
    ensures
        ({
            let patch = patch_of(names, values, names);
            &&& patch.old_slots.len() == names.len()
            &&& patch.new_slots.len() == names.len()
            &&& forall|i: int|
                0 <= i < names.len() ==> #[trigger] patch.old_slots[i] == (OldSlot::Keep {
                    new_index: i as usize,
                    value: values[i],
                })
            &&& forall|i: int|
                0 <= i < names.len() ==> #[trigger] patch.new_slots[i] == (NewSlot::Kept {
                    old_index: i as usize,
                    value: values[i],
                })
            &&& patch.values() == values
            &&& patch.actions(names.len() as int) == Seq::<PinAction>::empty()
        }),
{
    let patch = patch_of(names, values, names);
    assert forall|i: int| 0 <= i < names.len() implies #[trigger] patch.old_slots[i]
        == (OldSlot::Keep { new_index: i as usize, value: values[i] }) by {
        lemma_found_in_place(names, i);
    }
    assert forall|i: int| 0 <= i < names.len() implies #[trigger] patch.new_slots[i]
        == (NewSlot::Kept { old_index: i as usize, value: values[i] }) by {
        lemma_found_in_place(names, i);
    }
    assert forall|i: int| 0 <= i < names.len() implies #[trigger] patch.values()[i]
        == values[i] by {
        assert(patch.new_slots[i].initial() == values[i]);
    }
    assert(patch.values() =~= values);
    assert forall|i: int| 0 <= i < names.len() implies (#[trigger] patch.old_slots[i] matches OldSlot::Keep {
        new_index,
        ..
    } && new_index == i) by {
        assert(patch.old_slots[i] == (OldSlot::Keep { new_index: i as usize, value: values[i] }));
    }
    lemma_no_action_in_place(patch, names.len() as int);
}

/// Slots that are all kept where they are ask for no action.
pub proof fn lemma_no_action_in_place(patch: PatchView, n: int)
    requires
        0 <= n <= patch.old_slots.len() <= usize::MAX,
        forall|i: int|
            0 <= i < n ==> (#[trigger] patch.old_slots[i] matches OldSlot::Keep { new_index, .. }
                && new_index == i),
    ensures
        patch.actions(n) == Seq::<PinAction>::empty(),
    decreases n,
{
    if n > 0 {
        lemma_no_action_in_place(patch, n - 1);
        assert(patch.old_slots[n - 1] is Keep);
    }
}

/// When no name is bound any more, every old slot is dropped and there is no
/// new slot.
pub proof fn lemma_reconcile_to_none(old_names: Seq<Seq<char>>, old_values: Seq<u64>)
    ensures
        ({
            let patch = patch_of(old_names, old_values, Seq::empty());
            &&& patch.new_slots.len() == 0
            &&& patch.old_slots.len() == old_names.len()
            &&& forall|i: int|
                0 <= i < old_names.len() ==> #[trigger] patch.old_slots[i] == OldSlot::Drop
        }),
{
    let none = Seq::<Seq<char>>::empty();
    let patch = patch_of(old_names, old_values, none);
    assert forall|i: int| 0 <= i < old_names.len() implies #[trigger] patch.old_slots[i]
        == OldSlot::Drop by {
        lemma_no_position(none, old_names[i]);
    }
}

/// Between two lists without duplicates the two sides of a patch agree: an
/// old slot is kept at a new place exactly if the new slot at that place is
/// kept from it, and both carry the value of the old slot. A name that stays
/// bound keeps its value.
pub proof fn lemma_reconcile_sides(
    old_names: Seq<Seq<char>>,
    old_values: Seq<u64>,
    new_names: Seq<Seq<char>>,
    i: int,
    j: int,
)
    requires
        old_names.no_duplicates(),
        new_names.no_duplicates(),
        old_names.len() == old_values.len(),
        0 <= i < old_names.len() <= usize::MAX,
        0 <= j < new_names.len() <= usize::MAX,
    ensures
        ({
            let patch = patch_of(old_names, old_values, new_names);
            &&& old_names[i] == new_names[j] <==> patch.old_slots[i] == (OldSlot::Keep {
                new_index: j as usize,
                value: old_values[i],
            })
            &&& old_names[i] == new_names[j] <==> patch.new_slots[j] == (NewSlot::Kept {
                old_index: i as usize,
                value: old_values[i],
            })
            &&& old_names[i] == new_names[j] ==> patch.values()[j] == old_values[i]
            &&& !old_names.contains(new_names[j]) <==> patch.new_slots[j] == (NewSlot::Insert {
                value: DEFAULT_VALUE,
            })
            &&& !new_names.contains(old_names[i]) <==> patch.old_slots[i] == OldSlot::Drop
        }),
{
    lemma_found_in_place(old_names, i);
    lemma_found_in_place(new_names, j);
    new_names.index_of_first_ensures(old_names[i]);
    old_names.index_of_first_ensures(new_names[j]);
}

/// The actions of a patch are those of its slots, and no others.
pub proof fn lemma_actions_of_slots(patch: PatchView, n: int, action: PinAction)
    requires
        0 <= n <= patch.old_slots.len(),
    ensures
        patch.actions(n).contains(action) <==> exists|i: int|
            0 <= i < n && #[trigger] action_of(patch.old_slots[i], i) == Some(action),
    decreases n,
{
    if n > 0 {
        lemma_actions_of_slots(patch, n - 1, action);
        let before = patch.actions(n - 1);
        let last = action_of(patch.old_slots[n - 1], n - 1);
        if patch.actions(n).contains(action) {
            let k = choose|k: int| 0 <= k < patch.actions(n).len() && patch.actions(n)[k] == action;
            if k < before.len() {
                assert(before[k] == action);
                assert(before.contains(action));
            } else {
                assert(last == Some(action));
            }
        }
        if exists|i: int| 0 <= i < n && #[trigger] action_of(patch.old_slots[i], i) == Some(action) {
            let i = choose|i: int|
                0 <= i < n && #[trigger] action_of(patch.old_slots[i], i) == Some(action);
            if i < n - 1 {
                assert(before.contains(action));
                let k = choose|k: int| 0 <= k < before.len() && before[k] == action;
                assert(patch.actions(n)[k] == action);
            } else {
                assert(patch.actions(n)[before.len() as int] == action);
            }
        }
    }
}

/// The pin of an inserted slot is free of old wires: if there was an old slot
/// at its place, that slot is dropped or moves away, so that its pin is
/// severed or its wires are moved.
pub proof fn lemma_inserted_pin_is_vacated(
    old_names: Seq<Seq<char>>,
    old_values: Seq<u64>,
    new_names: Seq<Seq<char>>,
    j: int,
)
    requires
        0 <= j < new_names.len(),
        j < old_names.len() <= usize::MAX,
        new_names.len() <= usize::MAX,
        patch_of(old_names, old_values, new_names).new_slots[j] is Insert,
    ensures
        action_of(patch_of(old_names, old_values, new_names).old_slots[j], j) is Some,
{
    old_names.index_of_first_ensures(new_names[j]);
    new_names.index_of_first_ensures(old_names[j]);
    assert(old_names[j] != new_names[j]);
}

/// The pin that a kept slot moves to is free of old wires: if there was an
/// old slot at that place, it is dropped or moves away itself, so that its
/// pin is severed or its wires are moved. No name is bound twice among the
/// old slots.
pub proof fn lemma_target_pin_is_vacated(
    old_names: Seq<Seq<char>>,
    old_values: Seq<u64>,
    new_names: Seq<Seq<char>>,
    i: int,
    j: int,
)
    requires
        old_names.no_duplicates(),
        0 <= i < old_names.len() <= usize::MAX,
        0 <= j < old_names.len(),
        new_names.len() <= usize::MAX,
        i != j,
        patch_of(old_names, old_values, new_names).old_slots[i] matches OldSlot::Keep {
            new_index,
            ..
        } && new_index == j,
    ensures
        action_of(patch_of(old_names, old_values, new_names).old_slots[j], j) is Some,
{
    new_names.index_of_first_ensures(old_names[i]);
    new_names.index_of_first_ensures(old_names[j]);
}

} // verus!
