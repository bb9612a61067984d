//! The kernel: its interface to callers, and the state machine that decides on every
//! invocation whether to run the entry procedure or to serve a system call.

use vstd::prelude::*;
use crate::capability::{
    count_of_type, decode_capabilities, decode_capability_list, valid_capability_list,
};
use crate::error::KernelError;
use crate::identity::{
    is_zero_key, name_identity, procedure_key, zero_identity, zero_key, ProcedureKey,
};
use crate::proc_table::{ProcedureRecord, ProcedureTable, TableView};
use crate::syscall::{authorized, list_authorizes, parse_syscall, SysCall, SysCallView};
use crate::word::{all_zero, bytes_between, word_views, zero_address, Address, Word};

verus! {

/// What the kernel withholds from the budget that it passes on to the entry procedure, so
/// that it can finish its own work after the nested call.
pub const KERNEL_RESERVE: u64 = 10000;

/// What the kernel does with a system call that no capability of the caller authorizes.
#[derive(Clone, Copy, Debug, PartialEq, Eq, Structural)]
pub enum DenialPolicy {
    /// The invocation succeeds and nothing happens. This is the default.
    Ignore,
    /// The invocation fails with [`KernelError::Denied`].
    Abort,
}

/// What the embedder has to do after the kernel has decided on an invocation.
#[derive(Debug, PartialEq, Eq)]
pub enum Action {
    /// Run the entry procedure: call the code at `address` with `payload`, which is the
    /// payload of this invocation, and at most `budget`; then report back with
    /// [`complete`].
    RunEntry { address: Address, budget: u64, payload: Vec<u8> },
    /// Call the code of a procedure at `address` with `payload`.
    CallProcedure { address: Address, payload: Vec<u8> },
    /// Write `value` to the storage slot `key`.
    WriteStore { key: Word, value: Word },
    /// Emit a log with `topics` and `data`.
    EmitLog { topics: Vec<Word>, data: Vec<u8> },
    /// Call the external account at `address` with `payload`, sending the amount `value`.
    CallAccount { address: Address, value: Word, payload: Vec<u8> },
    /// Nothing: the request was served inside the kernel, or it was denied and ignored.
    Nothing,
}

/// What an action is, in terms of byte sequences.
pub enum ActionView {
    RunEntry { address: Seq<u8>, budget: u64, payload: Seq<u8> },
    CallProcedure { address: Seq<u8>, payload: Seq<u8> },
    WriteStore { key: Seq<u8>, value: Seq<u8> },
    EmitLog { topics: Seq<Seq<u8>>, data: Seq<u8> },
    CallAccount { address: Seq<u8>, value: Seq<u8>, payload: Seq<u8> },
    Nothing,
}

impl View for Action {
    type V = ActionView;

    open spec fn view(&self) -> ActionView {
        match *self {
            Action::RunEntry { address, budget, payload } => ActionView::RunEntry {
                address: address@,
                budget,
                payload: payload@,
            },
            Action::CallProcedure { address, payload } => ActionView::CallProcedure {
                address: address@,
                payload: payload@,
            },
            Action::WriteStore { key, value } => ActionView::WriteStore {
                key: key@,
                value: value@,
            },
            Action::EmitLog { topics, data } => ActionView::EmitLog {
                topics: word_views(topics@),
                data: data@,
            },
            Action::CallAccount { address, value, payload } => ActionView::CallAccount {
                address: address@,
                value: value@,
                payload: payload@,
            },
            Action::Nothing => ActionView::Nothing,
        }
    }
}

/// The model of what [`call`] returns.
pub open spec fn step_view(step: Result<Action, KernelError>) -> Result<ActionView, KernelError> {
    match step {
        Ok(action) => Ok(action@),
        Err(e) => Err(e),
    }
}

/// What a kernel is: its procedure table with the two registers, its policy on denials, and
/// the mode flag that it keeps for the embedder.
pub struct KernelView {
    /// The procedure table.
    pub table: TableView,
    /// The flag that `toggle_syscall` flips and `get_mode` reports. The kernel keeps it for
    /// the embedder and decides nothing by it.
    pub syscall_mode: bool,
    /// What happens to a system call that is not authorized.
    pub denial: DenialPolicy,
}

impl KernelView {
    /// The kernel as it is deployed: an empty table, the mode flag off, denials ignored.
    pub open spec fn deployed() -> KernelView {
        KernelView {
            table: TableView::empty(),
            syscall_mode: false,
            denial: DenialPolicy::Ignore,
        }
    }

    /// Whether no procedure is executing.
    pub open spec fn idle(self) -> bool {
        self.table.current == zero_identity()
    }

    /// The kernel with `table` as its procedure table.
    pub open spec fn with_table(self, table: TableView) -> KernelView {
        KernelView { table, ..self }
    }

    /// What registering a procedure does: the capability words are decoded, the list is
    /// validated, and only then is the record stored.
    pub open spec fn register(self, key: Seq<u8>, address: Seq<u8>, words: Seq<Seq<u8>>) -> (
        KernelView,
        Result<(), KernelError>,
    ) {
        match decode_capabilities(words) {
            None => (self, Err(KernelError::MalformedCapability)),
            Some(capabilities) => if !valid_capability_list(capabilities) {
                (self, Err(KernelError::InvalidCapabilityList))
            } else {
                (
                    self.with_table(
                        self.table.with_procedure(key, ProcedureRecord { address, capabilities }),
                    ),
                    Ok(()),
                )
            },
        }
    }

    /// What the constructor does: it registers the entry procedure under the identity that
    /// `name` encodes and puts that identity in the entry register.
    pub open spec fn construct(self, name: Seq<char>, address: Seq<u8>, words: Seq<Seq<u8>>) -> (
        KernelView,
        Result<(), KernelError>,
    ) {
        let key = name_identity(name);
        let (registered, done) = self.register(key, address, words);
        if done is Ok {
            (registered.with_table(registered.table.with_entry(key)), done)
        } else {
            (self, done)
        }
    }

    /// What serving an authorized request does.
    pub open spec fn perform(self, request: SysCallView) -> (
        KernelView,
        Result<ActionView, KernelError>,
    ) {
        match request {
            SysCallView::Call { procedure, payload } => match self.table.address_of(procedure) {
                None => (self, Err(KernelError::UnknownProcedure)),
                Some(address) => (self, Ok(ActionView::CallProcedure { address, payload })),
            },
            SysCallView::Register { procedure, address, capabilities } => {
                let (registered, done) = self.register(procedure, address, capabilities);
                match done {
                    Ok(_) => (registered, Ok(ActionView::Nothing)),
                    Err(e) => (self, Err(e)),
                }
            },
            SysCallView::Delete { procedure } => (
                self.with_table(self.table.without_procedure(procedure)),
                Ok(ActionView::Nothing),
            ),
            SysCallView::Write { key, value } => (self, Ok(ActionView::WriteStore { key, value })),
            SysCallView::Log { topics, data } => (self, Ok(ActionView::EmitLog { topics, data })),
            SysCallView::AccountCall { address, value, payload } => (
                self,
                Ok(ActionView::CallAccount { address, value, payload }),
            ),
        }
    }

    /// Where the code of the entry procedure lives: the address stored under the entry
    /// identity, unless that is the zero identity, which names no procedure.
    pub open spec fn entry_address(self) -> Option<Seq<u8>> {
        if self.table.entry == zero_identity() {
            None
        } else {
            self.table.address_of(self.table.entry)
        }
    }

    /// What one invocation does to the kernel, and what it hands to the embedder.
    ///
    /// The current register alone decides. Idle, the kernel resolves the entry procedure,
    /// marks it as executing and asks for its code to be run on the same payload with what
    /// is left of the budget after the reserve; the zero identity names no procedure, so
    /// with it in the entry register there is no entry procedure. Executing, the kernel
    /// reads the payload as a request of the executing procedure and serves it if a
    /// capability of that procedure authorizes it.
    pub open spec fn dispatch(self, input: Seq<u8>, gas_left: u64) -> (
        KernelView,
        Result<ActionView, KernelError>,
    ) {
        if self.idle() {
            match self.entry_address() {
                None => (self, Err(KernelError::MissingEntryProcedure)),
                Some(address) => if gas_left < KERNEL_RESERVE {
                    (self, Err(KernelError::BudgetExhausted))
                } else {
                    (
                        self.with_table(self.table.with_current(self.table.entry)),
                        Ok(
                            ActionView::RunEntry {
                                address,
                                budget: (gas_left - KERNEL_RESERVE) as u64,
                                payload: input,
                            },
                        ),
                    )
                },
            }
        } else {
            match parse_syscall(input) {
                None => (self, Err(KernelError::MalformedSyscall)),
                Some(request) => if list_authorizes(
                    self.table.capabilities_of(self.table.current),
                    request,
                ) {
                    self.perform(request)
                } else {
                    match self.denial {
                        DenialPolicy::Ignore => (self, Ok(ActionView::Nothing)),
                        DenialPolicy::Abort => (self, Err(KernelError::Denied)),
                    }
                },
            }
        }
    }

    /// The kernel after the nested call into the entry procedure is over: idle.
    pub open spec fn leave(self) -> KernelView {
        self.with_table(self.table.with_current(zero_identity()))
    }
}

/// The kernel's state: the procedure table with its registers, the policy on denials, and
/// the mode flag.
pub struct KernelContract {
    table: ProcedureTable,
    syscall_mode: bool,
    denial: DenialPolicy,
}

impl View for KernelContract {
    type V = KernelView;

    closed spec fn view(&self) -> KernelView {
        KernelView { table: self.table@, syscall_mode: self.syscall_mode, denial: self.denial }
    }
}

impl KernelContract {
    /// The kernel as it is deployed.
    pub fn new() -> (kernel: KernelContract)
        ensures
            kernel@ == KernelView::deployed(),
    {
        KernelContract {
            table: ProcedureTable::new(),
            syscall_mode: false,
            denial: DenialPolicy::Ignore,
        }
    }

    /// The procedure table, to look at.
    pub fn table(&self) -> (table: &ProcedureTable)
        ensures
            table@ == self@.table,
    {
        &self.table
    }

    /// The policy on system calls that are not authorized.
    pub fn denial_policy(&self) -> (policy: DenialPolicy)
        ensures
            policy == self@.denial,
    {
        self.denial
    }

    /// Chooses what happens to system calls that are not authorized.
    pub fn set_denial_policy(&mut self, policy: DenialPolicy)
        ensures
            final(self)@ == (KernelView { denial: policy, ..old(self)@ }),
    {
        self.denial = policy;
    }

    fn register(&mut self, key: ProcedureKey, address: Address, words: &Vec<Word>) -> (done: Result<
        (),
        KernelError,
    >)
        ensures
            final(self)@ == old(self)@.register(key@, address@, word_views(words@)).0,
            done == old(self)@.register(key@, address@, word_views(words@)).1,
    {
        let capabilities = match decode_capability_list(words) {
            Ok(capabilities) => capabilities,
            Err(e) => {
                return Err(e);
            },
        };
        match self.table.insert(key, address, capabilities) {
            Ok(_) => Ok(()),
            Err(e) => Err(e),
        }
    }

    fn perform(&mut self, request: SysCall) -> (step: Result<Action, KernelError>)
        ensures
            final(self)@ == old(self)@.perform(request@).0,
            step_view(step) == old(self)@.perform(request@).1,
    {
        match request {
            SysCall::Call { procedure, payload } => match self.table.lookup_address(&procedure) {
                None => Err(KernelError::UnknownProcedure),
                Some(address) => Ok(Action::CallProcedure { address, payload }),
            },
            SysCall::Register { procedure, address, capabilities } => {
                match self.register(procedure, address, &capabilities) {
                    Ok(_) => Ok(Action::Nothing),
                    Err(e) => Err(e),
                }
            },
            SysCall::Delete { procedure } => {
                self.table.remove(&procedure);
                Ok(Action::Nothing)
            },
            SysCall::Write { key, value } => Ok(Action::WriteStore { key, value }),
            SysCall::Log { topics, data } => Ok(Action::EmitLog { topics, data }),
            SysCall::AccountCall { address, value, payload } => Ok(
                Action::CallAccount { address, value, payload },
            ),
        }
    }
}

/// Deploys a kernel: creates it and runs the constructor on the initialization payload.
///
/// Fails exactly when the constructor does, that is, when the capability words do not
/// encode a valid capability list.
pub fn deploy(entry_name: String, entry_address: Address, capability_list: Vec<Word>) -> (kernel:
    Result<KernelContract, KernelError>)
    ensures
        match kernel {
            Ok(k) => {
                &&& KernelView::deployed().construct(
                    entry_name@,
                    entry_address@,
                    word_views(capability_list@),
                ).1 is Ok
                &&& k@ == KernelView::deployed().construct(
                    entry_name@,
                    entry_address@,
                    word_views(capability_list@),
                ).0
            },
            Err(e) => KernelView::deployed().construct(
                entry_name@,
                entry_address@,
                word_views(capability_list@),
            ).1 == Err::<(), KernelError>(e),
        },
{
    let mut kernel = KernelContract::new();
    match kernel.constructor(entry_name, entry_address, capability_list) {
        Ok(_) => Ok(kernel),
        Err(e) => Err(e),
    }
}

/// Decides on one invocation of the kernel with payload `input` and `gas_left` to spend.
///
/// The kernel changes as [`KernelView::dispatch`] says, and the step returned is the one
/// that it names. On every error the kernel is left as it was.
pub fn call(kernel: &mut KernelContract, input: &[u8], gas_left: u64) -> (step: Result<
    Action,
    KernelError,
>)
    ensures
        final(kernel)@ == old(kernel)@.dispatch(input@, gas_left).0,
        step_view(step) == old(kernel)@.dispatch(input@, gas_left).1,
        step is Err ==> final(kernel)@ == old(kernel)@,
{
    let current = kernel.table.get_current_identity();
    if is_zero_key(&current) {
        let entry = kernel.table.get_entry_identity();
        if is_zero_key(&entry) {
            return Err(KernelError::MissingEntryProcedure);
        }
        let address = match kernel.table.lookup_address(&entry) {
            Some(address) => address,
            None => {
                return Err(KernelError::MissingEntryProcedure);
            },
        };
        if gas_left < KERNEL_RESERVE {
            return Err(KernelError::BudgetExhausted);
        }
        let _ = kernel.table.set_current_identity(entry);
        let payload = bytes_between(input, 0, input.len());
        assert(payload@ =~= input@);
        Ok(Action::RunEntry { address, budget: gas_left - KERNEL_RESERVE, payload })
    } else {
        let request = match SysCall::parse(input) {
            Ok(request) => request,
            Err(e) => {
                return Err(e);
            },
        };
        let allowed = match kernel.table.capabilities(&current) {
            Some(capabilities) => authorized(capabilities, &request),
            None => false,
        };
        if allowed {
            kernel.perform(request)
        } else {
            match kernel.denial {
                DenialPolicy::Ignore => Ok(Action::Nothing),
                DenialPolicy::Abort => Err(KernelError::Denied),
            }
        }
    }
}

/// Ends the run of the entry procedure that [`Action::RunEntry`] asked for.
///
/// `outcome` is what the nested call returned, `None` if it failed. Whatever it is, the
/// kernel is idle afterwards; the output is passed on, and a failure becomes
/// [`KernelError::EntryProcedureFailed`].
pub fn complete(kernel: &mut KernelContract, outcome: Option<Vec<u8>>) -> (output: Result<
    Vec<u8>,
    KernelError,
>)
    ensures
        final(kernel)@ == old(kernel)@.leave(),
        final(kernel)@.idle(),
        match outcome {
            Some(bytes) => output == Ok::<Vec<u8>, KernelError>(bytes),
            None => output == Err::<Vec<u8>, KernelError>(KernelError::EntryProcedureFailed),
        },
{
    let _ = kernel.table.set_current_identity(zero_key());
    match outcome {
        Some(bytes) => Ok(bytes),
        None => Err(KernelError::EntryProcedureFailed),
    }
}

/// What the kernel offers to any caller, whatever its capabilities.
#[allow(non_snake_case)]
pub trait KernelInterface {
    /// What the kernel is.
    spec fn model(&self) -> KernelView;

    /// Installs the entry procedure: registers it under the identity that `entry_proc_key`
    /// encodes, with the capability list that `cap_list` encodes, and puts that identity in
    /// the entry register. Fails, changing nothing, when `cap_list` encodes no valid list.
    fn constructor(
        &mut self,
        entry_proc_key: String,
        entry_proc_address: Address,
        cap_list: Vec<Word>,
    ) -> (done: Result<(), KernelError>)
        ensures
            final(self).model() == old(self).model().construct(
                entry_proc_key@,
                entry_proc_address@,
                word_views(cap_list@),
            ).0,
            done == old(self).model().construct(
                entry_proc_key@,
                entry_proc_address@,
                word_views(cap_list@),
            ).1,
    ;

    /// The identity of the entry procedure.
    fn entryProcedure(&mut self) -> (identity: ProcedureKey)
        ensures
            identity@ == old(self).model().table.entry,
            final(self).model() == old(self).model(),
    ;

    /// The identity of the procedure that is executing; the zero identity when none is.
    fn currentProcedure(&mut self) -> (identity: ProcedureKey)
        ensures
            identity@ == old(self).model().table.current,
            final(self).model() == old(self).model(),
    ;

    /// The address of the procedure registered under the identity that `proc_key` encodes;
    /// the zero address if there is none.
    fn getProcedureByKey(&mut self, proc_key: String) -> (address: Address)
        ensures
            address@ == match old(self).model().table.address_of(name_identity(proc_key@)) {
                Some(stored) => stored,
                None => zero_address(),
            },
            final(self).model() == old(self).model(),
    ;

    /// Whether the code at `target` is a valid procedure contract: never for the zero
    /// address, for which neither collaborator is asked; otherwise what `is_valid` says of
    /// the code that `code_copy` fetches.
    fn check_contract<F: Fn(Address) -> Vec<u8>, G: Fn(Vec<u8>) -> bool>(
        &mut self,
        target: Address,
        code_copy: F,
        is_valid: G,
    ) -> (valid: bool)
        requires
            !all_zero(target@) ==> code_copy.requires((target,)),
            forall|code: Vec<u8>| is_valid.requires((code,)),
        ensures
            all_zero(target@) ==> !valid,
            !all_zero(target@) ==> exists|code: Vec<u8>|
                code_copy.ensures((target,), code) && is_valid.ensures((code,), valid),
            final(self).model() == old(self).model(),
    ;

    /// How many capabilities of the type with wire number `cap_type` the procedure under
    /// the identity that `proc_key` encodes holds. A number that is the wire number of no
    /// type, and so every number from 256 on, counts nothing: the result is zero.
    fn get_cap_type_len(&mut self, proc_key: String, cap_type: Word) -> (count: Word)
        ensures
            count.value() == if cap_type.value() < 256 {
                count_of_type(
                    old(self).model().table.capabilities_of(name_identity(proc_key@)),
                    cap_type.value() as u8,
                )
            } else {
                0
            },
            final(self).model() == old(self).model(),
    ;

    /// Flips the mode flag. Nothing else changes, and no invocation is decided by it.
    fn toggle_syscall(&mut self)
        ensures
            final(self).model() == (KernelView {
                syscall_mode: !old(self).model().syscall_mode,
                ..old(self).model()
            }),
    ;

    /// 1 if the mode flag is on, 0 if it is off.
    fn get_mode(&mut self) -> (mode: u32)
        ensures
            mode == if old(self).model().syscall_mode {
                1u32
            } else {
                0u32
            },
            final(self).model() == old(self).model(),
    ;
}

#[allow(non_snake_case)]
impl KernelInterface for KernelContract {
    open spec fn model(&self) -> KernelView {
        self@
    }

    fn constructor(
        &mut self,
        entry_proc_key: String,
        entry_proc_address: Address,
        cap_list: Vec<Word>,
    ) -> (done: Result<(), KernelError>) {
        let key = procedure_key(entry_proc_key.as_str());
        match self.register(key, entry_proc_address, &cap_list) {
            Ok(_) => {
                let _ = self.table.set_entry_identity(key);
                Ok(())
            },
            Err(e) => Err(e),
        }
    }

    fn entryProcedure(&mut self) -> (identity: ProcedureKey) {
        self.table.get_entry_identity()
    }

    fn currentProcedure(&mut self) -> (identity: ProcedureKey) {
        self.table.get_current_identity()
    }

    fn getProcedureByKey(&mut self, proc_key: String) -> (address: Address) {
        let key = procedure_key(proc_key.as_str());
        match self.table.lookup_address(&key) {
            Some(address) => address,
            None => Address::zero(),
        }
    }

    fn check_contract<F: Fn(Address) -> Vec<u8>, G: Fn(Vec<u8>) -> bool>(
        &mut self,
        target: Address,
        code_copy: F,
        is_valid: G,
    ) -> (valid: bool) {
        if target.is_zero() {
            false
        } else {
            let code = code_copy(target);
            is_valid(code)
        }
    }

    fn get_cap_type_len(&mut self, proc_key: String, cap_type: Word) -> (count: Word) {
        let key = procedure_key(proc_key.as_str());
        match cap_type.to_byte() {
            Some(tag) => Word::from_u32(self.table.capability_count(&key, tag)),
            None => Word::zero(),
        }
    }

    fn toggle_syscall(&mut self) {
        self.syscall_mode = !self.syscall_mode;
    }

    fn get_mode(&mut self) -> (mode: u32) {
        if self.syscall_mode {
            1
        } else {
            0
        }
    }
}

/// A kernel that is deployed and constructed with a valid capability list has exactly one
/// procedure, the entry procedure; its identity is in the entry register, and the kernel is
/// idle. Its next invocation finds the entry procedure, unless the name encodes the zero
/// identity, which names no procedure.
pub proof fn construction_installs_entry(name: Seq<char>, address: Seq<u8>, words: Seq<Seq<u8>>)
    requires
        decode_capabilities(words) matches Some(capabilities) && valid_capability_list(
            capabilities,
        ),
    ensures
        ({
            let (kernel, done) = KernelView::deployed().construct(name, address, words);
            &&& done is Ok
            &&& kernel.table.entry == name_identity(name)
            &&& kernel.idle()
            &&& kernel.table.procedures.dom() == set![name_identity(name)]
            &&& kernel.table.address_of(name_identity(name)) == Some(address)
            &&& Some(kernel.table.capabilities_of(name_identity(name))) == decode_capabilities(
                words,
            )
            &&& kernel.entry_address() == if name_identity(name) == zero_identity() {
                None
            } else {
                Some(address)
            }
        }),
{
    let (kernel, done) = KernelView::deployed().construct(name, address, words);
    assert(kernel.table.procedures.dom() =~= set![name_identity(name)]);
}

/// No invocation changes the entry register: it is set at construction and stays.
pub proof fn dispatch_keeps_entry(kernel: KernelView, input: Seq<u8>, gas_left: u64)
    ensures
        kernel.dispatch(input, gas_left).0.table.entry == kernel.table.entry,
        kernel.dispatch(input, gas_left).0.leave().table.entry == kernel.table.entry,
{
}

/// The window in which a procedure is executing. An idle kernel starts the entry procedure
/// exactly when there is one and the budget covers the reserve. It then has the entry
/// identity in the current register, so it is not idle, and no other change; once the
/// nested call is over, the kernel is exactly what it was. An idle kernel that fails to
/// start the entry procedure stays idle and unchanged.
pub proof fn entry_window(kernel: KernelView, input: Seq<u8>, gas_left: u64)
    requires
        kernel.idle(),
    ensures
        ({
            let (after, step) = kernel.dispatch(input, gas_left);
            &&& step is Ok <==> kernel.entry_address() is Some && gas_left >= KERNEL_RESERVE
            &&& step is Ok ==> {
                &&& step->Ok_0 == (ActionView::RunEntry {
                    address: kernel.entry_address()->Some_0,
                    budget: (gas_left - KERNEL_RESERVE) as u64,
                    payload: input,
                })
                &&& after.table.current == kernel.table.entry
                &&& !after.idle()
                &&& after == kernel.with_table(kernel.table.with_current(kernel.table.entry))
                &&& after.leave() == kernel
            }
            &&& step is Err ==> after == kernel && after.idle()
        }),
{
}

/// The mode flag decides nothing: a kernel with the flag flipped does to every invocation
/// what the kernel itself does, and hands the embedder the same.
pub proof fn mode_decides_nothing(kernel: KernelView, input: Seq<u8>, gas_left: u64)
    ensures
        ({
            let flipped = KernelView { syscall_mode: !kernel.syscall_mode, ..kernel };
            let (after, step) = kernel.dispatch(input, gas_left);
            &&& flipped.dispatch(input, gas_left).1 == step
            &&& flipped.dispatch(input, gas_left).0 == (KernelView {
                syscall_mode: !kernel.syscall_mode,
                ..after
            })
        }),
{
}

/// While a procedure is executing, no invocation changes the current register: system calls
/// neither end the execution nor hand it to another procedure.
pub proof fn syscalls_keep_current(kernel: KernelView, input: Seq<u8>, gas_left: u64)
    requires
        !kernel.idle(),
    ensures
        kernel.dispatch(input, gas_left).0.table.current == kernel.table.current,
        !kernel.dispatch(input, gas_left).0.idle(),
{
}

/// Whatever happened before, the kernel is idle once the nested call is over.
pub proof fn leave_makes_idle(kernel: KernelView)
    ensures
        kernel.leave().idle(),
        kernel.leave().table.procedures == kernel.table.procedures,
        kernel.leave().table.entry == kernel.table.entry,
{
}

/// A procedure without capabilities gets nothing done: whatever it sends, the kernel stays
/// as it is and the embedder is handed no operation to carry out. The invocation fails if
/// the payload is no request, or if denials abort; otherwise it succeeds with nothing.
pub proof fn no_capability_no_effect(kernel: KernelView, input: Seq<u8>, gas_left: u64)
    requires
        !kernel.idle(),
        kernel.table.capabilities_of(kernel.table.current).len() == 0,
    ensures
        ({
            let (after, step) = kernel.dispatch(input, gas_left);
            &&& after == kernel
            &&& step == if parse_syscall(input) is None {
                Err::<ActionView, KernelError>(KernelError::MalformedSyscall)
            } else if kernel.denial == DenialPolicy::Abort {
                Err::<ActionView, KernelError>(KernelError::Denied)
            } else {
                Ok::<ActionView, KernelError>(ActionView::Nothing)
            }
        }),
{
}

/// A request that no capability of the executing procedure authorizes has no effect.
pub proof fn denied_request_has_no_effect(kernel: KernelView, input: Seq<u8>, gas_left: u64)
    requires
        !kernel.idle(),
        parse_syscall(input) matches Some(request) && !list_authorizes(
            kernel.table.capabilities_of(kernel.table.current),
            request,
        ),
    ensures
        kernel.dispatch(input, gas_left).0 == kernel,
        kernel.dispatch(input, gas_left).1 == match kernel.denial {
            DenialPolicy::Ignore => Ok::<ActionView, KernelError>(ActionView::Nothing),
            DenialPolicy::Abort => Err::<ActionView, KernelError>(KernelError::Denied),
        },
{
}

/// No system call gets round the capabilities: while a procedure is executing, an invocation
/// changes the kernel or hands the embedder an operation only if the payload is a request
/// that some capability of that procedure authorizes.
pub proof fn effect_needs_capability(kernel: KernelView, input: Seq<u8>, gas_left: u64)
    requires
        !kernel.idle(),
    ensures
        ({
            let (after, step) = kernel.dispatch(input, gas_left);
            after != kernel || (step is Ok && step->Ok_0 != ActionView::Nothing) ==> {
                &&& parse_syscall(input) is Some
                &&& list_authorizes(
                    kernel.table.capabilities_of(kernel.table.current),
                    parse_syscall(input)->Some_0,
                )
            }
        }),
{
}

/// A payload that is no request is fatal while a procedure is executing: the invocation
/// fails, nothing changes, and no request is made up in its place.
pub proof fn malformed_syscall_is_fatal(kernel: KernelView, input: Seq<u8>, gas_left: u64)
    requires
        !kernel.idle(),
        parse_syscall(input) is None,
    ensures
        kernel.dispatch(input, gas_left) == (
            kernel,
            Err::<ActionView, KernelError>(KernelError::MalformedSyscall),
        ),
{
}

/// An invocation that fails leaves the kernel as it was.
pub proof fn failure_changes_nothing(kernel: KernelView, input: Seq<u8>, gas_left: u64)
    ensures
        kernel.dispatch(input, gas_left).1 is Err ==> kernel.dispatch(input, gas_left).0 == kernel,
{
}

} // verus!
