//! SDK functions that the guest calls and that have no implementation.

use crate::cpu::Registers;
use crate::error::SimulatorError;
use crate::isa::reg;
use crate::search::{dictionary_le, name_bytes};
use vstd::prelude::*;
use vstd::string::*;

verus! {

/// What happens when the guest calls a function without an implementation.
#[derive(Clone, Copy, Debug, PartialEq, Eq, Structural)]
pub enum UnknownHlePolicy {
    /// Record the call and return zero.
    Report,
    /// Record the call and stop, unless the function is allowed.
    Stop,
}

impl Default for UnknownHlePolicy {
    fn default() -> (policy: UnknownHlePolicy)
        ensures
            policy == UnknownHlePolicy::Report,
    {
        UnknownHlePolicy::Report
    }
}

/// The calls of one function without an implementation.
#[derive(Clone, Debug, PartialEq, Eq)]
pub struct UnknownHleCall {
    pub name: String,
    pub count: u64,
    pub import_address: u32,
    pub first_pc: u32,
    pub first_arguments: [u32; 4],
}

/// Recorded calls in the order of their names, and what to do about them.
pub struct UnknownHleLog {
    pub policy: UnknownHlePolicy,
    pub allowlist: Vec<String>,
    pub calls: Vec<UnknownHleCall>,
}

/// Whether a name is in a list.
pub open spec fn lists(names: Seq<String>, name: Seq<char>) -> bool {
    exists|i: int| 0 <= i < names.len() && #[trigger] names[i]@ == name
}

/// First recorded call whose name is not in front of `name`.
pub open spec fn place_of(calls: Seq<UnknownHleCall>, name: Seq<char>, from: int) -> int
    decreases calls.len() - from,
{
    if 0 <= from < calls.len() && !dictionary_le(
        vstd::utf8::encode_utf8(name),
        name_bytes(calls[from].name),
    ) {
        place_of(calls, name, from + 1)
    } else {
        from
    }
}

/// Whether calls of a function are recorded.
pub open spec fn recorded(calls: Seq<UnknownHleCall>, name: Seq<char>) -> bool {
    let place = place_of(calls, name, 0);
    place < calls.len() && calls[place].name@ == name
}

/// The first argument registers.
pub open spec fn argument_registers(regs: Seq<u32>) -> Seq<u32> {
    seq![reg(regs, 4), reg(regs, 5), reg(regs, 6), reg(regs, 7)]
}

/// Whether names are in strict dictionary order.
pub open spec fn strictly_ordered(calls: Seq<UnknownHleCall>) -> bool {
    forall|i: int, j: int|
        0 <= i < j < calls.len() ==> !dictionary_le(
            name_bytes(#[trigger] calls[j].name),
            name_bytes(#[trigger] calls[i].name),
        )
}

pub proof fn lemma_place(calls: Seq<UnknownHleCall>, name: Seq<char>, from: int)
    requires
        0 <= from <= calls.len(),
    ensures
        from <= place_of(calls, name, from) <= calls.len(),
        forall|i: int|
            from <= i < place_of(calls, name, from) ==> !dictionary_le(
                vstd::utf8::encode_utf8(name),
                name_bytes((#[trigger] calls[i]).name),
            ),
        place_of(calls, name, from) < calls.len() ==> dictionary_le(
            vstd::utf8::encode_utf8(name),
            name_bytes(calls[place_of(calls, name, from)].name),
        ),
    decreases calls.len() - from,
{
    if from < calls.len() && !dictionary_le(
        vstd::utf8::encode_utf8(name),
        name_bytes(calls[from].name),
    ) {
        lemma_place(calls, name, from + 1);
    }
}

/// Names are recorded under one entry each: where the place of a name holds
/// another one, no entry has it.
pub proof fn law_one_entry_per_name(calls: Seq<UnknownHleCall>, name: Seq<char>, index: int)
    requires
        strictly_ordered(calls),
        0 <= index < calls.len(),
        calls[index].name@ == name,
    ensures
        place_of(calls, name, 0) == index,
        recorded(calls, name),
{
    lemma_place(calls, name, 0);
    let place = place_of(calls, name, 0);
    crate::search::lemma_dictionary_total(name_bytes(calls[index].name), name_bytes(calls[index].name));
    if place < index {
        assert(!dictionary_le(name_bytes(calls[index].name), name_bytes(calls[place].name)));
    }
}

/// What recording a call does. The first call of a function is kept, and later ones
/// are counted. Where calls stop the machine, unless the function is allowed, the
/// call itself is reported.
pub open spec fn unknown_recorded(
    before: UnknownHleLog,
    after: UnknownHleLog,
    regs: Seq<u32>,
    name: Seq<char>,
    import_address: u32,
    return_address: u32,
    result: Result<(), SimulatorError>,
) -> bool {
    let calls = before.calls@;
    let place = place_of(calls, name, 0);
    let call = after.calls@[place];
    let pc = return_address.wrapping_sub(8);
    &&& after.policy == before.policy
    &&& after.allowlist == before.allowlist
    &&& call.name@ == name
    &&& if recorded(calls, name) {
        &&& after.calls@ == calls.update(place, call)
        &&& call.count == if calls[place].count == u64::MAX {
            u64::MAX
        } else {
            (calls[place].count + 1) as u64
        }
        &&& call.import_address == calls[place].import_address
        &&& call.first_pc == calls[place].first_pc
        &&& call.first_arguments == calls[place].first_arguments
    } else {
        &&& after.calls@ == calls.insert(place, call)
        &&& call.count == 1
        &&& call.import_address == import_address
        &&& call.first_pc == pc
        &&& call.first_arguments@ == argument_registers(regs)
    }
    &&& if before.policy == UnknownHlePolicy::Report || lists(before.allowlist@, name) {
        result is Ok
    } else {
        &&& result is Err
        &&& result->Err_0 matches SimulatorError::UnknownHle {
            name: reported,
            pc: at,
            import_address: address,
            arguments,
        } && reported@ == name && at == pc && address == import_address && arguments@
            == argument_registers(regs)
    }
}

impl UnknownHleLog {
    /// Calls are in strict order of their names.
    pub open spec fn wf(&self) -> bool {
        strictly_ordered(self.calls@)
    }

    /// Nothing recorded, nothing allowed.
    pub fn new() -> (log: UnknownHleLog)
        ensures
            log.wf(),
            log.policy == UnknownHlePolicy::Report,
            log.allowlist@.len() == 0,
            log.calls@.len() == 0,
    {
        UnknownHleLog { policy: UnknownHlePolicy::Report, allowlist: Vec::new(), calls: Vec::new() }
    }

    /// Sets what happens when such a function is called.
    pub fn set_unknown_hle_policy(&mut self, policy: UnknownHlePolicy)
        ensures
            *final(self) == (UnknownHleLog { policy, ..*old(self) }),
    {
        self.policy = policy;
    }

    /// Replaces the names that are allowed.
    pub fn set_unknown_hle_allowlist(&mut self, names: Vec<String>)
        ensures
            *final(self) == (UnknownHleLog { allowlist: names, ..*old(self) }),
    {
        self.allowlist = names;
    }

    /// The recorded calls, in the order of their names.
    pub fn unknown_hle_calls(&self) -> (calls: &Vec<UnknownHleCall>)
        ensures
            *calls == self.calls,
    {
        &self.calls
    }

    /// Forgets the recorded calls.
    pub fn clear_unknown_hle_calls(&mut self)
        ensures
            final(self).wf(),
            final(self).calls@.len() == 0,
            final(self).policy == old(self).policy,
            final(self).allowlist == old(self).allowlist,
    {
        self.calls.clear();
    }

    fn is_allowed(&self, name: &str) -> (allowed: bool)
        ensures
            allowed == lists(self.allowlist@, name@),
    {
        let mut index: usize = 0;
        while index < self.allowlist.len()
            invariant
                index <= self.allowlist@.len(),
                forall|i: int| 0 <= i < index ==> #[trigger] self.allowlist@[i]@ != name@,
            decreases self.allowlist@.len() - index,
        {
            if crate::text::text_equal(self.allowlist[index].as_str(), name) {
                return true;
            }
            index = index + 1;
        }
        false
    }

    /// Records a call. Fails where the policy is to stop and the function is not allowed.
    pub fn record_unknown_hle(
        &mut self,
        regs: &Registers,
        name: &str,
        import_address: u32,
        return_address: u32,
    ) -> (result: Result<(), SimulatorError>)
        requires
            old(self).wf(),
        ensures
            final(self).wf(),
            unknown_recorded(
                *old(self),
                *final(self),
                regs.file(),
                name@,
                import_address,
                return_address,
                result,
            ),
    {
        let first_pc: u32 = return_address.wrapping_sub(8);
        let arguments: [u32; 4] = [regs.read(4), regs.read(5), regs.read(6), regs.read(7)];
        assert(arguments@ =~= argument_registers(regs.file()));
        let ghost calls = self.calls@;
        let mut place: usize = 0;
        while place < self.calls.len() && !crate::search::dictionary_before(
            name.as_bytes(),
            self.calls[place].name.as_str().as_bytes(),
        )
            invariant
                place <= self.calls@.len(),
                self.calls@ == calls,
                self.policy == old(self).policy,
                self.allowlist == old(self).allowlist,
                place_of(calls, name@, 0) == place_of(calls, name@, place as int),
            decreases self.calls@.len() - place,
        {
            place = place + 1;
        }
        proof {
            lemma_place(calls, name@, 0);
        }
        if place < self.calls.len() && crate::text::text_equal(
            self.calls[place].name.as_str(),
            name,
        ) {
            let old_call = self.calls.remove(place);
            let count: u64 = old_call.count.saturating_add(1);
            self.calls.insert(
                place,
                UnknownHleCall {
                    name: old_call.name,
                    count,
                    import_address: old_call.import_address,
                    first_pc: old_call.first_pc,
                    first_arguments: old_call.first_arguments,
                },
            );
            assert(self.calls@ =~= calls.update(place as int, self.calls@[place as int]));
            proof {
                assert forall|i: int, j: int|
                    0 <= i < j < self.calls@.len() implies !dictionary_le(
                    name_bytes(#[trigger] self.calls@[j].name),
                    name_bytes(#[trigger] self.calls@[i].name),
                ) by {
                    assert(self.calls@[i].name == calls[i].name);
                    assert(self.calls@[j].name == calls[j].name);
                }
            }
        } else {
            self.calls.insert(
                place,
                UnknownHleCall {
                    name: name.to_owned(),
                    count: 1,
                    import_address,
                    first_pc,
                    first_arguments: arguments,
                },
            );
            proof {
                lemma_insert_keeps_order(calls, self.calls@, name@, place as int);
            }
        }
        let stops: bool = match self.policy {
            UnknownHlePolicy::Stop => !self.is_allowed(name),
            UnknownHlePolicy::Report => false,
        };
        if stops {
            return Err(
                SimulatorError::UnknownHle {
                    name: name.to_owned(),
                    pc: first_pc,
                    import_address,
                    arguments,
                },
            );
        }
        Ok(())
    }
}

proof fn lemma_insert_keeps_order(
    before: Seq<UnknownHleCall>,
    after: Seq<UnknownHleCall>,
    name: Seq<char>,
    place: int,
)
    requires
        strictly_ordered(before),
        place == place_of(before, name, 0),
        0 <= place <= before.len(),
        after == before.insert(place, after[place]),
        after[place].name@ == name,
        place < before.len() ==> before[place].name@ != name,
    ensures
        strictly_ordered(after),
{
    broadcast use vstd::utf8::group_utf8_lib;

    lemma_place(before, name, 0);
    let bytes = vstd::utf8::encode_utf8(name);
    assert forall|i: int, j: int| 0 <= i < j < after.len() implies !dictionary_le(
        name_bytes(#[trigger] after[j].name),
        name_bytes(#[trigger] after[i].name),
    ) by {
        if i < place && j == place {
            assert(after[i] == before[i]);
        } else if i == place {
            let other = name_bytes(before[j - 1].name);
            assert(after[j] == before[j - 1]);
            let first = name_bytes(before[place].name);
            crate::search::lemma_dictionary_total(bytes, first);
            if dictionary_le(first, bytes) {
                assert(vstd::utf8::decode_utf8(bytes) == name);
                assert(vstd::utf8::decode_utf8(first) == before[place].name@);
            }
            if j - 1 > place && dictionary_le(other, bytes) {
                crate::search::lemma_dictionary_transitive(other, bytes, first);
            }
        } else if j < place {
            assert(after[i] == before[i] && after[j] == before[j]);
        } else if i < place {
            assert(after[i] == before[i] && after[j] == before[j - 1]);
        } else {
            assert(after[i] == before[i - 1] && after[j] == before[j - 1]);
        }
    }
}

} // verus!
