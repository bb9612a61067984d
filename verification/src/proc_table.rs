//! The procedure table: which procedures are registered, where their code lives, what each
//! may do, which of them is the entry procedure and which is executing.

use vstd::prelude::*;
use crate::capability::{
    capability_views, count_capabilities, count_of_type, count_of_type_bounded,
    valid_capability_list, validate_capability_list, Capability, CapabilityView,
};
use crate::error::KernelError;
use crate::identity::{same_key, zero_identity, zero_key, ProcedureKey};
use crate::word::Address;

verus! {

/// What the table holds for one procedure.
pub struct ProcedureRecord {
    /// Where the procedure's code lives.
    pub address: Seq<u8>,
    /// What the procedure may do.
    pub capabilities: Seq<CapabilityView>,
}

/// What a procedure table is: a map from identities to records, and the two registers.
pub struct TableView {
    /// The registered procedures.
    pub procedures: Map<Seq<u8>, ProcedureRecord>,
    /// The identity of the entry procedure.
    pub entry: Seq<u8>,
    /// The identity of the procedure that is executing; the zero identity when none is.
    pub current: Seq<u8>,
}

impl TableView {
    /// The table of a kernel that was just deployed: no procedure, both registers zero.
    pub open spec fn empty() -> TableView {
        TableView {
            procedures: Map::empty(),
            entry: zero_identity(),
            current: zero_identity(),
        }
    }

    /// The table with `record` stored under `key`, in place of what was there.
    pub open spec fn with_procedure(self, key: Seq<u8>, record: ProcedureRecord) -> TableView {
        TableView { procedures: self.procedures.insert(key, record), ..self }
    }

    /// The table with nothing stored under `key`.
    pub open spec fn without_procedure(self, key: Seq<u8>) -> TableView {
        TableView { procedures: self.procedures.remove(key), ..self }
    }

    /// The table with `key` in the entry register.
    pub open spec fn with_entry(self, key: Seq<u8>) -> TableView {
        TableView { entry: key, ..self }
    }

    /// The table with `key` in the current register.
    pub open spec fn with_current(self, key: Seq<u8>) -> TableView {
        TableView { current: key, ..self }
    }

    /// The address stored under `key`, if anything is.
    pub open spec fn address_of(self, key: Seq<u8>) -> Option<Seq<u8>> {
        if self.procedures.contains_key(key) {
            Some(self.procedures[key].address)
        } else {
            None
        }
    }

    /// The capabilities stored under `key`; none if nothing is stored there.
    pub open spec fn capabilities_of(self, key: Seq<u8>) -> Seq<CapabilityView> {
        if self.procedures.contains_key(key) {
            self.procedures[key].capabilities
        } else {
            Seq::empty()
        }
    }
}

/// What is stored under an identity is what was last inserted there: its address, its
/// capabilities, and so the count of its capabilities of each type. Other identities keep
/// what they had.
pub proof fn insert_then_lookup(
    table: TableView,
    key: Seq<u8>,
    record: ProcedureRecord,
    other: Seq<u8>,
    tag: u8,
)
    ensures
        table.with_procedure(key, record).address_of(key) == Some(record.address),
        table.with_procedure(key, record).capabilities_of(key) == record.capabilities,
        count_of_type(table.with_procedure(key, record).capabilities_of(key), tag)
            == count_of_type(record.capabilities, tag),
        other != key ==> table.with_procedure(key, record).address_of(other) == table.address_of(
            other,
        ),
        other != key ==> table.with_procedure(key, record).capabilities_of(other)
            == table.capabilities_of(other),
        table.with_procedure(key, record).entry == table.entry,
        table.with_procedure(key, record).current == table.current,
{
}

/// Nothing is stored under an identity that was removed, or in a table that is empty.
pub proof fn lookup_miss(table: TableView, key: Seq<u8>, tag: u8)
    ensures
        table.without_procedure(key).address_of(key) is None,
        count_of_type(table.without_procedure(key).capabilities_of(key), tag) == 0,
        TableView::empty().address_of(key) is None,
        count_of_type(TableView::empty().capabilities_of(key), tag) == 0,
{
}

struct Slot {
    key: ProcedureKey,
    address: Address,
    caps: Vec<Capability>,
}

spec fn record_of(slot: Slot) -> ProcedureRecord {
    ProcedureRecord { address: slot.address@, capabilities: capability_views(slot.caps@) }
}

spec fn holds(slots: Seq<Slot>, key: Seq<u8>) -> bool {
    exists|i: int| 0 <= i < slots.len() && (#[trigger] slots[i]).key@ == key
}

spec fn index_of(slots: Seq<Slot>, key: Seq<u8>) -> int {
    choose|i: int| 0 <= i < slots.len() && (#[trigger] slots[i]).key@ == key
}

spec fn distinct(slots: Seq<Slot>) -> bool {
    forall|i: int, j: int|
        0 <= i < j < slots.len() ==> (#[trigger] slots[i]).key@ != (#[trigger] slots[j]).key@
}

spec fn storable(slots: Seq<Slot>) -> bool {
    forall|i: int|
        0 <= i < slots.len() ==> valid_capability_list(
            capability_views((#[trigger] slots[i]).caps@),
        )
}

spec fn procedures_of(slots: Seq<Slot>) -> Map<Seq<u8>, ProcedureRecord> {
    Map::new(|key: Seq<u8>| holds(slots, key), |key: Seq<u8>| record_of(slots[index_of(slots, key)]))
}

proof fn lemma_slot_found(slots: Seq<Slot>, i: int)
    requires
        distinct(slots),
        0 <= i < slots.len(),
    ensures
        holds(slots, slots[i].key@),
        index_of(slots, slots[i].key@) == i,
        procedures_of(slots)[slots[i].key@] == record_of(slots[i]),
{
    let key = slots[i].key@;
    let j = index_of(slots, key);
    assert(0 <= j < slots.len() && slots[j].key@ == key);
}

proof fn lemma_slot_added(slots: Seq<Slot>, slot: Slot)
    requires
        distinct(slots),
        !holds(slots, slot.key@),
    ensures
        distinct(slots.push(slot)),
        procedures_of(slots.push(slot)) == procedures_of(slots).insert(slot.key@, record_of(slot)),
{
    let after = slots.push(slot);
    assert forall|i: int, j: int| 0 <= i < j < after.len() implies (#[trigger] after[i]).key@ != (
    #[trigger] after[j]).key@ by {
        if j == slots.len() {
            assert(slots[i].key@ != slot.key@);
        } else {
            assert(slots[i].key@ != slots[j].key@);
        }
    }
    let want = procedures_of(slots).insert(slot.key@, record_of(slot));
    assert forall|key: Seq<u8>| procedures_of(after).contains_key(key) == want.contains_key(
        key,
    ) by {
        if holds(slots, key) {
            let i = index_of(slots, key);
            assert(after[i].key@ == key);
        }
        if key == slot.key@ {
            assert(after[slots.len() as int].key@ == key);
        }
        if holds(after, key) {
            let i = index_of(after, key);
            if i < slots.len() {
                assert(slots[i].key@ == key);
            }
        }
    }
    assert forall|key: Seq<u8>| procedures_of(after).contains_key(key) implies procedures_of(
        after,
    )[key] == want[key] by {
        let i = index_of(after, key);
        lemma_slot_found(after, i);
        if i < slots.len() {
            lemma_slot_found(slots, i);
        }
    }
    assert(procedures_of(after) =~= want);
}

proof fn lemma_slot_replaced(slots: Seq<Slot>, at: int, slot: Slot)
    requires
        distinct(slots),
        0 <= at < slots.len(),
        slots[at].key@ == slot.key@,
    ensures
        distinct(slots.update(at, slot)),
        procedures_of(slots.update(at, slot)) == procedures_of(slots).insert(
            slot.key@,
            record_of(slot),
        ),
{
    let after = slots.update(at, slot);
    assert forall|i: int, j: int| 0 <= i < j < after.len() implies (#[trigger] after[i]).key@ != (
    #[trigger] after[j]).key@ by {
        assert(slots[i].key@ != slots[j].key@);
    }
    let want = procedures_of(slots).insert(slot.key@, record_of(slot));
    assert forall|key: Seq<u8>| procedures_of(after).contains_key(key) == want.contains_key(
        key,
    ) by {
        if holds(slots, key) {
            let i = index_of(slots, key);
            assert(after[i].key@ == key);
        }
        if key == slot.key@ {
            assert(after[at].key@ == key);
        }
        if holds(after, key) {
            let i = index_of(after, key);
            assert(slots[i].key@ == key);
        }
    }
    assert forall|key: Seq<u8>| procedures_of(after).contains_key(key) implies procedures_of(
        after,
    )[key] == want[key] by {
        let i = index_of(after, key);
        lemma_slot_found(after, i);
        lemma_slot_found(slots, i);
    }
    assert(procedures_of(after) =~= want);
}

proof fn lemma_slot_removed(slots: Seq<Slot>, at: int)
    requires
        distinct(slots),
        0 <= at < slots.len(),
    ensures
        distinct(slots.remove(at)),
        procedures_of(slots.remove(at)) == procedures_of(slots).remove(slots[at].key@),
{
    let after = slots.remove(at);
    let gone = slots[at].key@;
    assert forall|i: int| 0 <= i < after.len() implies #[trigger] after[i] == slots[if i < at {
        i
    } else {
        i + 1
    }] by {}
    assert forall|i: int, j: int| 0 <= i < j < after.len() implies (#[trigger] after[i]).key@ != (
    #[trigger] after[j]).key@ by {
        let si = if i < at { i } else { i + 1 };
        let sj = if j < at { j } else { j + 1 };
        assert(slots[si].key@ != slots[sj].key@);
    }
    let want = procedures_of(slots).remove(gone);
    assert forall|key: Seq<u8>| procedures_of(after).contains_key(key) == want.contains_key(
        key,
    ) by {
        if holds(slots, key) && key != gone {
            let i = index_of(slots, key);
            let ai = if i < at { i } else { i - 1 };
            assert(after[ai].key@ == key);
        }
        if holds(after, key) {
            let i = index_of(after, key);
            let si = if i < at { i } else { i + 1 };
            assert(slots[si].key@ == key);
            if key == gone {
                if si < at {
                    assert(slots[si].key@ != slots[at].key@);
                } else {
                    assert(slots[at].key@ != slots[si].key@);
                }
            }
        }
    }
    assert forall|key: Seq<u8>| procedures_of(after).contains_key(key) implies procedures_of(
        after,
    )[key] == want[key] by {
        let i = index_of(after, key);
        let si = if i < at { i } else { i + 1 };
        lemma_slot_found(after, i);
        lemma_slot_found(slots, si);
    }
    assert(procedures_of(after) =~= want);
}

/// The procedure table of one kernel.
///
/// An identity has at most one record, and every stored capability list is valid.
pub struct ProcedureTable {
    slots: Vec<Slot>,
    entry: ProcedureKey,
    current: ProcedureKey,
}

impl View for ProcedureTable {
    type V = TableView;

    closed spec fn view(&self) -> TableView {
        TableView {
            procedures: procedures_of(self.slots@),
            entry: self.entry@,
            current: self.current@,
        }
    }
}

impl ProcedureTable {
    #[verifier::type_invariant]
    spec fn sound(self) -> bool {
        distinct(self.slots@) && storable(self.slots@)
    }

    /// The table of a kernel that was just deployed.
    pub fn new() -> (table: ProcedureTable)
        ensures
            table@ == TableView::empty(),
    {
        let table = ProcedureTable { slots: Vec::new(), entry: zero_key(), current: zero_key() };
        assert(table@.procedures =~= Map::empty());
        table
    }

    fn find(&self, identity: &ProcedureKey) -> (at: Option<usize>)
        ensures
            match at {
                Some(i) => i < self.slots@.len() && self.slots@[i as int].key@ == identity@,
                None => !holds(self.slots@, identity@),
            },
    {
        let mut i: usize = 0;
        while i < self.slots.len()
            invariant
                i <= self.slots@.len(),
                forall|j: int| 0 <= j < i ==> (#[trigger] self.slots@[j]).key@ != identity@,
            decreases self.slots@.len() - i,
        {
            if same_key(&self.slots[i].key, identity) {
                return Some(i);
            }
            i = i + 1;
        }
        None
    }

    /// Stores a procedure under `identity`, in place of any that was stored there.
    ///
    /// Fails, and leaves the table as it was, exactly when the capability list is not valid.
    pub fn insert(
        &mut self,
        identity: ProcedureKey,
        address: Address,
        capability_list: Vec<Capability>,
    ) -> (done: Result<(), KernelError>)
        ensures
            valid_capability_list(capability_views(capability_list@)) ==> {
                &&& done is Ok
                &&& final(self)@ == old(self)@.with_procedure(
                    identity@,
                    ProcedureRecord {
                        address: address@,
                        capabilities: capability_views(capability_list@),
                    },
                )
            },
            !valid_capability_list(capability_views(capability_list@)) ==> {
                &&& done == Err::<(), KernelError>(KernelError::InvalidCapabilityList)
                &&& final(self)@ == old(self)@
            },
    {
        proof {
            use_type_invariant(&*self);
        }
        if !validate_capability_list(&capability_list) {
            return Err(KernelError::InvalidCapabilityList);
        }
        let found = self.find(&identity);
        let slot = Slot { key: identity, address, caps: capability_list };
        let mut slots: Vec<Slot> = Vec::new();
        std::mem::swap(&mut slots, &mut self.slots);
        match found {
            Some(at) => {
                proof {
                    lemma_slot_replaced(slots@, at as int, slot);
                }
                slots.set(at, slot);
            },
            None => {
                proof {
                    lemma_slot_added(slots@, slot);
                }
                slots.push(slot);
            },
        }
        self.slots = slots;
        Ok(())
    }

    /// Removes the procedure stored under `identity`, if there is one, and says whether
    /// there was.
    pub fn remove(&mut self, identity: &ProcedureKey) -> (was_there: bool)
        ensures
            was_there == old(self)@.procedures.contains_key(identity@),
            final(self)@ == old(self)@.without_procedure(identity@),
    {
        proof {
            use_type_invariant(&*self);
        }
        match self.find(identity) {
            Some(at) => {
                let mut slots: Vec<Slot> = Vec::new();
                std::mem::swap(&mut slots, &mut self.slots);
                proof {
                    lemma_slot_removed(slots@, at as int);
                }
                slots.remove(at);
                self.slots = slots;
                true
            },
            None => {
                assert(self@.procedures =~= self@.procedures.remove(identity@));
                false
            },
        }
    }

    /// The address stored under `identity`; `None` exactly when nothing is stored there.
    pub fn lookup_address(&self, identity: &ProcedureKey) -> (address: Option<Address>)
        ensures
            match address {
                Some(a) => self@.address_of(identity@) == Some(a@),
                None => self@.address_of(identity@) is None,
            },
    {
        proof {
            use_type_invariant(self);
        }
        match self.find(identity) {
            Some(at) => {
                proof {
                    lemma_slot_found(self.slots@, at as int);
                }
                Some(self.slots[at].address)
            },
            None => None,
        }
    }

    /// The capabilities stored under `identity`; `None` exactly when nothing is stored
    /// there.
    pub fn capabilities(&self, identity: &ProcedureKey) -> (list: Option<&Vec<Capability>>)
        ensures
            match list {
                Some(caps) => self@.procedures.contains_key(identity@) && capability_views(caps@)
                    == self@.procedures[identity@].capabilities,
                None => !self@.procedures.contains_key(identity@),
            },
    {
        proof {
            use_type_invariant(self);
        }
        match self.find(identity) {
            Some(at) => {
                proof {
                    lemma_slot_found(self.slots@, at as int);
                }
                Some(&self.slots[at].caps)
            },
            None => None,
        }
    }

    /// How many capabilities of the type with wire number `type_tag` the procedure under
    /// `identity` holds; 0 if nothing is stored there.
    pub fn capability_count(&self, identity: &ProcedureKey, type_tag: u8) -> (count: u32)
        ensures
            count == count_of_type(self@.capabilities_of(identity@), type_tag),
    {
        proof {
            use_type_invariant(self);
        }
        match self.find(identity) {
            Some(at) => {
                proof {
                    lemma_slot_found(self.slots@, at as int);
                    count_of_type_bounded(capability_views(self.slots@[at as int].caps@), type_tag);
                }
                count_capabilities(&self.slots[at].caps, type_tag) as u32
            },
            None => 0,
        }
    }

    /// Puts `identity` in the entry register. Never fails.
    pub fn set_entry_identity(&mut self, identity: ProcedureKey) -> (done: Result<(), KernelError>)
        ensures
            done is Ok,
            final(self)@ == old(self)@.with_entry(identity@),
    {
        proof {
            use_type_invariant(&*self);
        }
        self.entry = identity;
        Ok(())
    }

    /// The identity in the entry register.
    pub fn get_entry_identity(&self) -> (identity: ProcedureKey)
        ensures
            identity@ == self@.entry,
    {
        self.entry
    }

    /// Puts `identity` in the current register. Never fails.
    pub fn set_current_identity(&mut self, identity: ProcedureKey) -> (done: Result<
        (),
        KernelError,
    >)
        ensures
            done is Ok,
            final(self)@ == old(self)@.with_current(identity@),
    {
        proof {
            use_type_invariant(&*self);
        }
        self.current = identity;
        Ok(())
    }

    /// The identity in the current register.
    pub fn get_current_identity(&self) -> (identity: ProcedureKey)
        ensures
            identity@ == self@.current,
    {
        self.current
    }
}

} // verus!
