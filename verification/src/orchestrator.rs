//! The remittance orchestrator: initialisation, replay-protected signed
//! requests, the execution lock, execution statistics and a bounded audit log.
//!
//! A flow is run in three parts. `begin_unsigned` / `begin_signed` validate
//! the request, take the execution lock and hand back a `FlowRun`; the caller
//! drives that run through the downstream contracts; `finish_unsigned` /
//! `finish_signed` release the lock and record the outcome.

use vstd::prelude::*;

use crate::bytes::{Address, Symbol};
use crate::flow::FlowRun;
use crate::symbol::{is_short_symbol, short_symbol_bits, symbol_bits};
use crate::table::Table;

verus! {

/// Used nonces remembered per address; the oldest is dropped beyond this.
pub const MAX_USED_NONCES_PER_ADDR: u64 = 256;

/// How far past the ledger time a signed request may set its deadline.
pub const MAX_DEADLINE_WINDOW_SECS: u64 = 3600;

/// Entries kept in the audit log; the oldest is evicted beyond this.
pub const MAX_AUDIT_ENTRIES: u32 = 100;

/// Audit page size used when a caller asks for zero entries.
pub const DEFAULT_AUDIT_PAGE: u32 = 20;

/// The version reported before an owner sets one.
pub const CONTRACT_VERSION: u32 = 1;

#[derive(Clone, Copy, Debug, PartialEq, Eq, Structural)]
pub enum OrchestratorError {
    Unauthorized,
    InvalidAmount,
    Overflow,
    CrossContractCallFailed,
    NonceAlreadyUsed,
    InvalidNonce,
    DeadlineExpired,
    ExecutionLocked,
    InvalidDependency,
    DuplicateDependency,
    /// A downstream step failed after earlier steps were applied; the applied
    /// steps were reversed as far as the downstream contracts allow.
    RemittanceFlowRolledBack,
}

impl OrchestratorError {
    pub open spec fn spec_code(&self) -> u32 {
        match self {
            OrchestratorError::Unauthorized => 1,
            OrchestratorError::InvalidAmount => 2,
            OrchestratorError::Overflow => 3,
            OrchestratorError::CrossContractCallFailed => 4,
            OrchestratorError::NonceAlreadyUsed => 5,
            OrchestratorError::InvalidNonce => 6,
            OrchestratorError::DeadlineExpired => 7,
            OrchestratorError::ExecutionLocked => 8,
            OrchestratorError::InvalidDependency => 9,
            OrchestratorError::DuplicateDependency => 10,
            OrchestratorError::RemittanceFlowRolledBack => 11,
        }
    }

    /// The number that identifies the error on the ledger.
    pub fn code(&self) -> (c: u32)
        ensures
            c == self.spec_code(),
    {
        match self {
            OrchestratorError::Unauthorized => 1,
            OrchestratorError::InvalidAmount => 2,
            OrchestratorError::Overflow => 3,
            OrchestratorError::CrossContractCallFailed => 4,
            OrchestratorError::NonceAlreadyUsed => 5,
            OrchestratorError::InvalidNonce => 6,
            OrchestratorError::DeadlineExpired => 7,
            OrchestratorError::ExecutionLocked => 8,
            OrchestratorError::InvalidDependency => 9,
            OrchestratorError::DuplicateDependency => 10,
            OrchestratorError::RemittanceFlowRolledBack => 11,
        }
    }
}

/// Counters over completed flows.
#[derive(Clone, Copy, Debug, PartialEq, Eq, Structural)]
pub struct ExecutionStats {
    pub total_executions: u32,
    pub successful_executions: u32,
    pub failed_executions: u32,
    pub last_execution_time: u64,
    /// Audit entries evicted because the log was full.
    pub evicted_entries: u32,
}

pub open spec fn zero_stats() -> ExecutionStats {
    ExecutionStats {
        total_executions: 0,
        successful_executions: 0,
        failed_executions: 0,
        last_execution_time: 0,
        evicted_entries: 0,
    }
}

/// `x + 1`, held at `u32::MAX`.
pub open spec fn sat_inc(x: u32) -> u32 {
    if x == u32::MAX {
        x
    } else {
        (x + 1) as u32
    }
}

/// One entry of the audit log.
#[derive(Clone, Debug)]
pub struct AuditEntry {
    pub operation: Symbol,
    pub executor: Address,
    pub timestamp: u64,
    pub success: bool,
}

impl View for AuditEntry {
    type V = (Seq<u8>, Seq<u8>, u64, bool);

    open spec fn view(&self) -> (Seq<u8>, Seq<u8>, u64, bool) {
        (self.operation@, self.executor@, self.timestamp, self.success)
    }
}

impl AuditEntry {
    pub fn duplicate(&self) -> (r: AuditEntry)
        ensures
            r@ == self@,
    {
        AuditEntry {
            operation: self.operation.duplicate(),
            executor: self.executor.duplicate(),
            timestamp: self.timestamp,
            success: self.success,
        }
    }
}

/// The views of a sequence of audit entries.
pub open spec fn audit_views(s: Seq<AuditEntry>) -> Seq<(Seq<u8>, Seq<u8>, u64, bool)> {
    s.map_values(|e: AuditEntry| e@)
}

/// The text of the audit operation recorded for every flow execution.
pub open spec fn flow_exec_text() -> Seq<u8> {
    seq![102u8, 108u8, 111u8, 119u8, 95u8, 101u8, 120u8, 101u8, 99u8]
}

/// The symbol `flow_exec`.
pub fn flow_exec_symbol() -> (s: Symbol)
    ensures
        s@ == flow_exec_text(),
{
    let s = Symbol::new(vec![102u8, 108u8, 111u8, 119u8, 95u8, 101u8, 120u8, 101u8, 99u8]);
    assert(s@ =~= flow_exec_text());
    s
}

/// The addresses of the contracts a flow calls.
#[derive(Clone, Debug)]
pub struct Dependencies {
    pub family_wallet: Address,
    pub remittance_split: Address,
    pub savings_goals: Address,
    pub bill_payments: Address,
    pub insurance: Address,
}

impl Dependencies {
    pub open spec fn list(&self) -> Seq<Seq<u8>> {
        seq![
            self.family_wallet@,
            self.remittance_split@,
            self.savings_goals@,
            self.bill_payments@,
            self.insurance@
        ]
    }

    pub fn duplicate(&self) -> (r: Dependencies)
        ensures
            r.list() == self.list(),
    {
        Dependencies {
            family_wallet: self.family_wallet.duplicate(),
            remittance_split: self.remittance_split.duplicate(),
            savings_goals: self.savings_goals.duplicate(),
            bill_payments: self.bill_payments.duplicate(),
            insurance: self.insurance.duplicate(),
        }
    }
}

/// Whether `caller` is one of the dependencies, or two dependencies coincide.
pub open spec fn deps_conflict(caller: Seq<u8>, deps: Seq<Seq<u8>>) -> bool {
    ||| exists|i: int| 0 <= i < deps.len() && deps[i] == caller
    ||| exists|i: int, j: int| 0 <= i < j < deps.len() && deps[i] == deps[j]
}

/// The parameters of an unsigned remittance flow.
#[derive(Clone, Debug)]
pub struct RemittanceFlowParams {
    pub caller: Address,
    pub total_amount: i128,
    pub family_wallet: Address,
    pub remittance_split: Address,
    pub savings: Address,
    pub bills: Address,
    pub insurance: Address,
    pub goal_id: u32,
    pub bill_id: u32,
    pub policy_id: u32,
}

/// What the orchestrator announces.
#[derive(Clone, Debug)]
pub enum OrchestratorEvent {
    /// The orchestrator was initialised by `owner`.
    Initialized { owner: Address },
    /// A flow passed validation and started.
    FlowStarted { executor: Address, amount: i128 },
    /// A flow completed.
    FlowSucceeded { executor: Address, amount: i128 },
    /// A flow failed; only the error code is published, not the amount.
    FlowFailed { executor: Address, error_code: u32 },
    /// The owner changed the contract version.
    VersionUpgraded { previous: u32, current: u32 },
}

pub enum OrchestratorEventView {
    Initialized { owner: Seq<u8> },
    FlowStarted { executor: Seq<u8>, amount: i128 },
    FlowSucceeded { executor: Seq<u8>, amount: i128 },
    FlowFailed { executor: Seq<u8>, error_code: u32 },
    VersionUpgraded { previous: u32, current: u32 },
}

impl View for OrchestratorEvent {
    type V = OrchestratorEventView;

    open spec fn view(&self) -> OrchestratorEventView {
        match self {
            OrchestratorEvent::Initialized { owner } => OrchestratorEventView::Initialized { owner: owner@ },
            OrchestratorEvent::FlowStarted { executor, amount } => OrchestratorEventView::FlowStarted {
                executor: executor@,
                amount: *amount,
            },
            OrchestratorEvent::FlowSucceeded { executor, amount } => OrchestratorEventView::FlowSucceeded {
                executor: executor@,
                amount: *amount,
            },
            OrchestratorEvent::FlowFailed { executor, error_code } => OrchestratorEventView::FlowFailed {
                executor: executor@,
                error_code: *error_code,
            },
            OrchestratorEvent::VersionUpgraded { previous, current } =>
                OrchestratorEventView::VersionUpgraded { previous: *previous, current: *current },
        }
    }
}

/// The views of a sequence of events.
pub open spec fn event_views(s: Seq<OrchestratorEvent>) -> Seq<OrchestratorEventView> {
    s.map_values(|e: OrchestratorEvent| e@)
}

/// The request hash a signer binds to: the operation's symbol bits, the
/// nonce, both halves of the amount and the deadline, summed and multiplied
/// by 1_000_000_007, all modulo 2^64.
pub open spec fn request_hash_of(op_bits: u64, nonce: u64, amount: i128, deadline: u64) -> u64 {
    op_bits.wrapping_add(nonce).wrapping_add(amount as u64).wrapping_add((amount >> 64u32) as u64).wrapping_add(
        deadline,
    ).wrapping_mul(1_000_000_007)
}

/// The symbol text `flow`, the operation of signed remittance flows.
pub open spec fn flow_op_text() -> Seq<char> {
    seq!['f', 'l', 'o', 'w']
}

/// The checks on a signed request, in order: the deadline lies in
/// `(now, now + MAX_DEADLINE_WINDOW_SECS]`, the nonce was not used, it is the
/// current nonce, and the request hash matches.
pub open spec fn nonce_check(
    used: bool,
    current: u64,
    nonce: u64,
    deadline: u64,
    request_hash: u64,
    expected_hash: u64,
    now: u64,
) -> Result<(), OrchestratorError> {
    if deadline <= now || deadline > now + MAX_DEADLINE_WINDOW_SECS {
        Err(OrchestratorError::DeadlineExpired)
    } else if used {
        Err(OrchestratorError::NonceAlreadyUsed)
    } else if nonce != current {
        Err(OrchestratorError::InvalidNonce)
    } else if request_hash != expected_hash {
        Err(OrchestratorError::InvalidNonce)
    } else {
        Ok(())
    }
}

/// A used-nonce list after one more nonce is remembered: the oldest goes
/// once the list is full.
pub open spec fn remember_nonce(used: Seq<u64>, nonce: u64) -> Seq<u64> {
    (if used.len() >= MAX_USED_NONCES_PER_ADDR {
        used.drop_first()
    } else {
        used
    }).push(nonce)
}

/// The audit log after one more entry: the oldest goes once the log is full.
pub open spec fn append_entry<T>(log: Seq<T>, e: T) -> Seq<T> {
    (if log.len() >= MAX_AUDIT_ENTRIES {
        log.drop_first()
    } else {
        log
    }).push(e)
}

/// The counters after one more completed flow at time `now`.
pub open spec fn stats_after(s: ExecutionStats, success: bool, now: u64) -> ExecutionStats {
    ExecutionStats {
        total_executions: sat_inc(s.total_executions),
        successful_executions: if success {
            sat_inc(s.successful_executions)
        } else {
            s.successful_executions
        },
        failed_executions: if success {
            s.failed_executions
        } else {
            sat_inc(s.failed_executions)
        },
        last_execution_time: now,
        evicted_entries: s.evicted_entries,
    }
}

/// The counters after one more audit entry was evicted.
pub open spec fn stats_evicted(s: ExecutionStats) -> ExecutionStats {
    ExecutionStats { evicted_entries: sat_inc(s.evicted_entries), ..s }
}

/// The stored counters after an audit entry is appended to a log of `len`
/// entries: the eviction counter moves when the log was full.
pub open spec fn stats_after_append(stats: Option<ExecutionStats>, len: nat) -> Option<ExecutionStats> {
    if len >= MAX_AUDIT_ENTRIES {
        Some(
            stats_evicted(
                match stats {
                    Some(s) => s,
                    None => zero_stats(),
                },
            ),
        )
    } else {
        stats
    }
}

/// The event that reports a flow's outcome.
pub open spec fn outcome_event(
    executor: Seq<u8>,
    amount: i128,
    result: Result<(), OrchestratorError>,
) -> OrchestratorEventView {
    match result {
        Ok(()) => OrchestratorEventView::FlowSucceeded { executor, amount },
        Err(e) => OrchestratorEventView::FlowFailed { executor, error_code: e.spec_code() },
    }
}

/// Whether `caller` is one of `deps`, or two of `deps` name the same address.
pub fn deps_have_conflict(caller: &Address, deps: &Vec<&Address>) -> (r: bool)
    ensures
        r == deps_conflict(caller@, deps@.map_values(|a: &Address| a@)),
{
    let ghost ds = deps@.map_values(|a: &Address| a@);
    let n = deps.len();
    let mut i: usize = 0;
    while i < n
        invariant
            n == deps.len(),
            ds == deps@.map_values(|a: &Address| a@),
            i <= n,
            forall|k: int| 0 <= k < i ==> ds[k] != caller@,
            forall|k: int, l: int| 0 <= k < i && k < l < n ==> ds[k] != ds[l],
        decreases n - i,
    {
        if deps[i].same(caller) {
            assert(ds[i as int] == caller@);
            return true;
        }
        let mut j: usize = i + 1;
        while j < n
            invariant
                n == deps.len(),
                ds == deps@.map_values(|a: &Address| a@),
                i < n,
                i < j <= n,
                forall|l: int| i < l < j ==> ds[i as int] != ds[l],
            decreases n - j,
        {
            if deps[i].same(deps[j]) {
                assert(ds[i as int] == ds[j as int]);
                return true;
            }
            j = j + 1;
        }
        i = i + 1;
    }
    assert(!deps_conflict(caller@, ds)) by {
        if exists|k: int, l: int| 0 <= k < l < ds.len() && ds[k] == ds[l] {
            let (k, l) = choose|k: int, l: int| 0 <= k < l < ds.len() && ds[k] == ds[l];
            assert(ds[k] != ds[l]);
        }
    }
    false
}

/// The orchestrator's stored state.
#[derive(Clone, Debug)]
pub struct Orchestrator {
    pub owner: Option<Address>,
    pub dependencies: Option<Dependencies>,
    /// The goal, bill and policy the signed flow pays into.
    pub goal_id: u32,
    pub bill_id: u32,
    pub policy_id: u32,
    /// Set while a flow runs.
    pub exec_lock: bool,
    /// The next nonce of each address (absent: zero).
    pub nonces: Table<u64>,
    /// The most recent nonces each address consumed, oldest first.
    pub used_nonces: Table<Vec<u64>>,
    pub stats: Option<ExecutionStats>,
    /// The audit log, oldest first.
    pub audit: Vec<AuditEntry>,
    pub version: Option<u32>,
}

impl Orchestrator {
    /// The stored state is consistent.
    pub open spec fn wf(&self) -> bool {
        &&& self.nonces.wf()
        &&& self.used_nonces.wf()
        &&& self.audit.len() <= MAX_AUDIT_ENTRIES
        &&& forall|k: Seq<u8>| #[trigger]
            self.used_nonces@.dom().contains(k) ==> self.used_nonces@[k]@.len() <= MAX_USED_NONCES_PER_ADDR
    }

    /// The current nonce of `a`.
    pub open spec fn nonce_of(&self, a: Seq<u8>) -> u64 {
        if self.nonces@.dom().contains(a) {
            self.nonces@[a]
        } else {
            0
        }
    }

    /// The nonces `a` consumed that are still remembered, oldest first.
    pub open spec fn used_of(&self, a: Seq<u8>) -> Seq<u64> {
        if self.used_nonces@.dom().contains(a) {
            self.used_nonces@[a]@
        } else {
            Seq::empty()
        }
    }

    pub open spec fn audit_log(&self) -> Seq<(Seq<u8>, Seq<u8>, u64, bool)> {
        audit_views(self.audit@)
    }

    pub open spec fn stats_or_zero(&self) -> ExecutionStats {
        match self.stats {
            Some(s) => s,
            None => zero_stats(),
        }
    }

    pub open spec fn owner_is(&self, a: Seq<u8>) -> bool {
        self.owner matches Some(o) && o@ == a
    }

    /// The state of a freshly deployed orchestrator.
    pub fn new() -> (r: Orchestrator)
        ensures
            r.wf(),
            r.owner is None,
            r.dependencies is None,
            !r.exec_lock,
            r.nonces@ == Map::<Seq<u8>, u64>::empty(),
            r.used_nonces@ == Map::<Seq<u8>, Vec<u64>>::empty(),
            r.stats is None,
            r.audit@.len() == 0,
            r.version is None,
            r.goal_id == 1 && r.bill_id == 1 && r.policy_id == 1,
    {
        Orchestrator {
            owner: None,
            dependencies: None,
            goal_id: 1,
            bill_id: 1,
            policy_id: 1,
            exec_lock: false,
            nonces: Table::new(),
            used_nonces: Table::new(),
            stats: None,
            audit: Vec::new(),
            version: None,
        }
    }

    pub open spec fn clamped(limit: u32) -> u32 {
        if limit == 0 {
            DEFAULT_AUDIT_PAGE
        } else if limit > MAX_AUDIT_ENTRIES {
            MAX_AUDIT_ENTRIES
        } else {
            limit
        }
    }

    /// Clamps an audit page size: zero asks for `DEFAULT_AUDIT_PAGE`, and no
    /// page is longer than `MAX_AUDIT_ENTRIES`.
    pub fn clamp_limit(limit: u32) -> (r: u32)
        ensures
            r == Self::clamped(limit),
    {
        if limit == 0 {
            DEFAULT_AUDIT_PAGE
        } else if limit > MAX_AUDIT_ENTRIES {
            MAX_AUDIT_ENTRIES
        } else {
            limit
        }
    }

    /// The current nonce of `address`; zero for an address never seen.
    pub fn get_nonce(&self, address: &Address) -> (n: u64)
        requires
            self.wf(),
        ensures
            n == self.nonce_of(address@),
    {
        match self.nonces.get(&address.bytes) {
            Some(n) => *n,
            None => 0,
        }
    }

    /// Whether `nonce` is among the nonces of `address` still remembered as used.
    pub fn is_nonce_used(&self, address: &Address, nonce: u64) -> (r: bool)
        requires
            self.wf(),
        ensures
            r == self.used_of(address@).contains(nonce),
    {
        match self.used_nonces.get(&address.bytes) {
            None => false,
            Some(used) => {
                let mut i: usize = 0;
                while i < used.len()
                    invariant
                        i <= used.len(),
                        forall|j: int| 0 <= j < i ==> used@[j] != nonce,
                        used@ == self.used_of(address@),
                    decreases used.len() - i,
                {
                    if used[i] == nonce {
                        assert(used@[i as int] == nonce);
                        return true;
                    }
                    i = i + 1;
                }
                false
            },
        }
    }

    /// Remembers `nonce` as used by `address`, dropping the oldest remembered
    /// nonce once `MAX_USED_NONCES_PER_ADDR` are held.
    pub fn mark_nonce_used(&mut self, address: &Address, nonce: u64)
        requires
            old(self).wf(),
        ensures
            final(self).wf(),
            final(self).used_of(address@) == remember_nonce(old(self).used_of(address@), nonce),
            forall|b: Seq<u8>| b != address@ ==> #[trigger] final(self).used_of(b) == old(self).used_of(b),
            final(self).used_nonces@.dom() == old(self).used_nonces@.dom().insert(address@),
            final(self).nonces == old(self).nonces,
            final(self).owner == old(self).owner,
            final(self).dependencies == old(self).dependencies,
            final(self).exec_lock == old(self).exec_lock,
            final(self).stats == old(self).stats,
            final(self).audit == old(self).audit,
            final(self).version == old(self).version,
            final(self).goal_id == old(self).goal_id,
            final(self).bill_id == old(self).bill_id,
            final(self).policy_id == old(self).policy_id,
    {
        let ghost pre = *self;
        let mut used = match self.used_nonces.remove(&address.bytes) {
            Some(v) => v,
            None => Vec::new(),
        };
        assert(used@ == pre.used_of(address@));
        if used.len() as u64 >= MAX_USED_NONCES_PER_ADDR {
            used.remove(0);
        }
        used.push(nonce);
        assert(used@ =~= remember_nonce(pre.used_of(address@), nonce));
        let key = crate::bytes::bytes_copy(&address.bytes);
        self.used_nonces.set(key, used);
        proof {
            assert forall|k: Seq<u8>| #[trigger]
                self.used_nonces@.dom().contains(k) implies self.used_nonces@[k]@.len()
                <= MAX_USED_NONCES_PER_ADDR by {
                if k != address@ {
                    assert(pre.used_nonces@.dom().contains(k));
                }
            }
            assert(self.used_nonces@.dom() =~= pre.used_nonces@.dom().insert(address@));
        }
    }

    /// Consumes the current nonce of `address`: it is remembered as used and
    /// the counter moves on by one; at `u64::MAX` the counter cannot move on
    /// and `Overflow` is returned, the nonce still remembered as used.
    pub fn increment_nonce(&mut self, address: &Address) -> (r: Result<(), OrchestratorError>)
        requires
            old(self).wf(),
        ensures
            final(self).wf(),
            final(self).used_of(address@) == remember_nonce(
                old(self).used_of(address@),
                old(self).nonce_of(address@),
            ),
            forall|b: Seq<u8>| b != address@ ==> #[trigger] final(self).used_of(b) == old(self).used_of(b),
            r is Err <==> old(self).nonce_of(address@) == u64::MAX,
            r matches Err(e) ==> e == OrchestratorError::Overflow && final(self).nonces == old(self).nonces,
            r is Ok ==> final(self).nonce_of(address@) == old(self).nonce_of(address@) + 1,
            forall|b: Seq<u8>| b != address@ ==> #[trigger] final(self).nonce_of(b) == old(self).nonce_of(b),
            final(self).owner == old(self).owner,
            final(self).dependencies == old(self).dependencies,
            final(self).exec_lock == old(self).exec_lock,
            final(self).stats == old(self).stats,
            final(self).audit == old(self).audit,
            final(self).version == old(self).version,
            final(self).goal_id == old(self).goal_id,
            final(self).bill_id == old(self).bill_id,
            final(self).policy_id == old(self).policy_id,
    {
        let current = self.get_nonce(address);
        self.mark_nonce_used(address, current);
        let ghost mid = *self;
        assert forall|b: Seq<u8>| b != address@ implies #[trigger] mid.used_of(b) == old(self).used_of(b) by {}
        if current == u64::MAX {
            return Err(OrchestratorError::Overflow);
        }
        let next = current + 1;
        let key = crate::bytes::bytes_copy(&address.bytes);
        self.nonces.set(key, next);
        assert(self.used_nonces == mid.used_nonces);
        assert forall|b: Seq<u8>| b != address@ implies #[trigger] self.used_of(b) == old(self).used_of(b) by {
            assert(mid.used_of(b) == old(self).used_of(b));
        }
        Ok(())
    }

    /// The request hash of a signed request: the bits of the short symbol
    /// `operation`, then the nonce, the amount and the deadline. The caller is
    /// not part of the hash.
    pub fn compute_request_hash(
        operation: &str,
        caller: &Address,
        nonce: u64,
        amount: i128,
        deadline: u64,
    ) -> (h: u64)
        requires
            is_short_symbol(operation@),
        ensures
            h == request_hash_of(short_symbol_bits(operation@), nonce, amount, deadline),
    {
        let op_bits = symbol_bits(operation);
        Self::hash_request_bits(op_bits, nonce, amount, deadline)
    }

    /// The request hash, from the bits of the operation's symbol.
    pub fn hash_request_bits(op_bits: u64, nonce: u64, amount: i128, deadline: u64) -> (h: u64)
        ensures
            h == request_hash_of(op_bits, nonce, amount, deadline),
    {
        let amt_lo = amount as u64;
        let amt_hi = (amount >> 64u32) as u64;
        op_bits.wrapping_add(nonce).wrapping_add(amt_lo).wrapping_add(amt_hi).wrapping_add(
            deadline,
        ).wrapping_mul(1_000_000_007)
    }

    /// Accepts `expected` only when it is `address`'s current nonce.
    pub fn require_nonce(&self, address: &Address, expected: u64) -> (r: Result<(), OrchestratorError>)
        requires
            self.wf(),
        ensures
            r == (if expected == self.nonce_of(address@) {
                Ok::<(), OrchestratorError>(())
            } else {
                Err(OrchestratorError::InvalidNonce)
            }),
    {
        if expected != self.get_nonce(address) {
            return Err(OrchestratorError::InvalidNonce);
        }
        Ok(())
    }

    /// The checks a signed request must pass, at ledger time `now`: see
    /// `nonce_check`.
    pub fn require_nonce_hardened(
        &self,
        address: &Address,
        nonce: u64,
        deadline: u64,
        request_hash: u64,
        expected_hash: u64,
        now: u64,
    ) -> (r: Result<(), OrchestratorError>)
        requires
            self.wf(),
            deadline > now ==> now + MAX_DEADLINE_WINDOW_SECS <= u64::MAX,
        ensures
            r == nonce_check(
                self.used_of(address@).contains(nonce),
                self.nonce_of(address@),
                nonce,
                deadline,
                request_hash,
                expected_hash,
                now,
            ),
    {
        if deadline <= now {
            return Err(OrchestratorError::DeadlineExpired);
        }
        if deadline > now + MAX_DEADLINE_WINDOW_SECS {
            return Err(OrchestratorError::DeadlineExpired);
        }
        if self.is_nonce_used(address, nonce) {
            return Err(OrchestratorError::NonceAlreadyUsed);
        }
        match self.require_nonce(address, nonce) {
            Err(e) => {
                return Err(e);
            },
            Ok(()) => {},
        }
        if request_hash != expected_hash {
            return Err(OrchestratorError::InvalidNonce);
        }
        Ok(())
    }

    /// Both states hold the same nonces, used nonces, owner, dependencies,
    /// flow targets and version.
    pub open spec fn same_setup(&self, other: &Orchestrator) -> bool {
        &&& self.nonces == other.nonces
        &&& self.used_nonces == other.used_nonces
        &&& self.owner == other.owner
        &&& self.dependencies == other.dependencies
        &&& self.goal_id == other.goal_id
        &&& self.bill_id == other.bill_id
        &&& self.policy_id == other.policy_id
        &&& self.version == other.version
    }

    /// Appends an audit entry; when the log is full the oldest entry is
    /// evicted and counted in the statistics.
    pub fn append_audit(&mut self, operation: Symbol, caller: &Address, success: bool, now: u64)
        requires
            old(self).wf(),
        ensures
            final(self).wf(),
            final(self).audit_log() == append_entry(old(self).audit_log(), (operation@, caller@, now, success)),
            final(self).stats == stats_after_append(old(self).stats, old(self).audit@.len()),
            final(self).same_setup(old(self)),
            final(self).exec_lock == old(self).exec_lock,
    {
        let ghost pre = *self;
        if self.audit.len() >= MAX_AUDIT_ENTRIES as usize {
            self.audit.remove(0);
            let mut stats = match self.stats {
                Some(s) => s,
                None => ExecutionStats {
                    total_executions: 0,
                    successful_executions: 0,
                    failed_executions: 0,
                    last_execution_time: 0,
                    evicted_entries: 0,
                },
            };
            stats.evicted_entries = stats.evicted_entries.saturating_add(1);
            self.stats = Some(stats);
        }
        let ghost mid = self.audit@;
        self.audit.push(AuditEntry { operation, executor: caller.duplicate(), timestamp: now, success });
        proof {
            if pre.audit@.len() >= MAX_AUDIT_ENTRIES {
                assert(mid =~= pre.audit@.drop_first());
                assert(audit_views(mid) =~= audit_views(pre.audit@).drop_first());
            }
            assert(self.audit_log() =~= audit_views(mid).push((operation@, caller@, now, success)));
            assert(self.audit_log() =~= append_entry(pre.audit_log(), (operation@, caller@, now, success)));
        }
    }

    /// Counts one more completed flow at time `now`.
    pub fn update_execution_stats(&mut self, success: bool, now: u64)
        requires
            old(self).wf(),
        ensures
            final(self).wf(),
            final(self).stats == Some(stats_after(old(self).stats_or_zero(), success, now)),
            final(self).audit == old(self).audit,
            final(self).same_setup(old(self)),
            final(self).exec_lock == old(self).exec_lock,
    {
        let mut stats = match self.stats {
            Some(s) => s,
            None => ExecutionStats {
                total_executions: 0,
                successful_executions: 0,
                failed_executions: 0,
                last_execution_time: 0,
                evicted_entries: 0,
            },
        };
        stats.total_executions = stats.total_executions.saturating_add(1);
        if success {
            stats.successful_executions = stats.successful_executions.saturating_add(1);
        } else {
            stats.failed_executions = stats.failed_executions.saturating_add(1);
        }
        stats.last_execution_time = now;
        self.stats = Some(stats);
    }

    /// Records a flow's outcome: statistics, an audit entry and an event.
    /// Hands `result` back.
    pub fn record_flow_outcome(
        &mut self,
        executor: &Address,
        amount: i128,
        result: Result<(), OrchestratorError>,
        now: u64,
        events: &mut Vec<OrchestratorEvent>,
    ) -> (r: Result<(), OrchestratorError>)
        requires
            old(self).wf(),
        ensures
            final(self).wf(),
            r == result,
            final(self).stats == stats_after_append(
                Some(stats_after(old(self).stats_or_zero(), result is Ok, now)),
                old(self).audit@.len(),
            ),
            final(self).audit_log() == append_entry(
                old(self).audit_log(),
                (flow_exec_text(), executor@, now, result is Ok),
            ),
            event_views(final(events)@) == event_views(old(events)@).push(
                outcome_event(executor@, amount, result),
            ),
            final(self).same_setup(old(self)),
            final(self).exec_lock == old(self).exec_lock,
    {
        let success = result.is_ok();
        self.update_execution_stats(success, now);
        self.append_audit(flow_exec_symbol(), executor, success, now);
        let ghost before = events@;
        match result {
            Ok(()) => {
                events.push(OrchestratorEvent::FlowSucceeded { executor: executor.duplicate(), amount });
            },
            Err(e) => {
                events.push(OrchestratorEvent::FlowFailed { executor: executor.duplicate(), error_code: e.code() });
            },
        }
        assert(event_views(events@) =~= event_views(before).push(outcome_event(executor@, amount, result)));
        result
    }

    /// Validates an unsigned flow request, announces the flow and takes the
    /// execution lock. A refused request is written to the audit log.
    pub fn begin_unsigned(
        &mut self,
        params: &RemittanceFlowParams,
        now: u64,
        events: &mut Vec<OrchestratorEvent>,
    ) -> (r: Result<FlowRun, OrchestratorError>)
        requires
            old(self).wf(),
        ensures
            final(self).wf(),
            final(self).same_setup(old(self)),
            match r {
                Err(e) => {
                    &&& e == (if params.total_amount <= 0 {
                        OrchestratorError::InvalidAmount
                    } else {
                        OrchestratorError::ExecutionLocked
                    })
                    &&& (params.total_amount <= 0 || old(self).exec_lock)
                    &&& final(self).exec_lock == old(self).exec_lock
                    &&& final(self).audit_log() == append_entry(
                        old(self).audit_log(),
                        (flow_exec_text(), params.caller@, now, false),
                    )
                    &&& final(self).stats == stats_after_append(old(self).stats, old(self).audit@.len())
                    &&& final(events)@ == old(events)@
                },
                Ok(run) => {
                    &&& params.total_amount > 0 && !old(self).exec_lock
                    &&& run.wf()
                    &&& run == FlowRun::initial(
                        false,
                        params.total_amount,
                        params.goal_id,
                        params.bill_id,
                        params.policy_id,
                    )
                    &&& final(self).exec_lock
                    &&& final(self).audit == old(self).audit
                    &&& final(self).stats == old(self).stats
                    &&& event_views(final(events)@) == event_views(old(events)@).push(
                        OrchestratorEventView::FlowStarted {
                            executor: params.caller@,
                            amount: params.total_amount,
                        },
                    )
                },
            },
    {
        if params.total_amount <= 0 {
            self.append_audit(flow_exec_symbol(), &params.caller, false, now);
            return Err(OrchestratorError::InvalidAmount);
        }
        if self.exec_lock {
            self.append_audit(flow_exec_symbol(), &params.caller, false, now);
            return Err(OrchestratorError::ExecutionLocked);
        }
        let ghost before = events@;
        events.push(
            OrchestratorEvent::FlowStarted {
                executor: params.caller.duplicate(),
                amount: params.total_amount,
            },
        );
        assert(event_views(events@) =~= event_views(before).push(
            OrchestratorEventView::FlowStarted { executor: params.caller@, amount: params.total_amount },
        ));
        self.exec_lock = true;
        Ok(FlowRun::start(false, params.total_amount, params.goal_id, params.bill_id, params.policy_id))
    }

    /// Releases the execution lock and records the outcome of an unsigned flow.
    pub fn finish_unsigned(
        &mut self,
        caller: &Address,
        amount: i128,
        outcome: Result<(), OrchestratorError>,
        now: u64,
        events: &mut Vec<OrchestratorEvent>,
    ) -> (r: Result<(), OrchestratorError>)
        requires
            old(self).wf(),
        ensures
            final(self).wf(),
            r == outcome,
            !final(self).exec_lock,
            final(self).stats == stats_after_append(
                Some(stats_after(old(self).stats_or_zero(), outcome is Ok, now)),
                old(self).audit@.len(),
            ),
            final(self).audit_log() == append_entry(
                old(self).audit_log(),
                (flow_exec_text(), caller@, now, outcome is Ok),
            ),
            event_views(final(events)@) == event_views(old(events)@).push(
                outcome_event(caller@, amount, outcome),
            ),
            final(self).same_setup(old(self)),
    {
        self.exec_lock = false;
        self.record_flow_outcome(caller, amount, outcome, now, events)
    }

    /// Validates a signed flow request at ledger time `now`, announces the
    /// flow and takes the execution lock. The request must come after the
    /// orchestrator was initialised, carry a positive amount, find the lock
    /// free, and pass `nonce_check` against the hash of the `flow` operation.
    /// Refusals for the amount or the lock are written to the audit log; the
    /// others leave the state as it was. Without stored dependencies the run
    /// handed back has already ended with `InvalidDependency`.
    pub fn begin_signed(
        &mut self,
        executor: &Address,
        amount: i128,
        nonce: u64,
        deadline: u64,
        request_hash: u64,
        now: u64,
        events: &mut Vec<OrchestratorEvent>,
    ) -> (r: Result<FlowRun, OrchestratorError>)
        requires
            old(self).wf(),
            old(self).owner is Some && amount > 0 && !old(self).exec_lock && deadline > now
                ==> now + MAX_DEADLINE_WINDOW_SECS <= u64::MAX,
        ensures
            final(self).wf(),
            final(self).same_setup(old(self)),
            ({
                let check = nonce_check(
                    old(self).used_of(executor@).contains(nonce),
                    old(self).nonce_of(executor@),
                    nonce,
                    deadline,
                    request_hash,
                    request_hash_of(short_symbol_bits(flow_op_text()), nonce, amount, deadline),
                    now,
                );
                if old(self).owner is None {
                    r == Err::<FlowRun, OrchestratorError>(OrchestratorError::Unauthorized)
                        && *final(self) == *old(self) && final(events)@ == old(events)@
                } else if amount <= 0 || old(self).exec_lock {
                    &&& r == Err::<FlowRun, OrchestratorError>(
                        if amount <= 0 {
                            OrchestratorError::InvalidAmount
                        } else {
                            OrchestratorError::ExecutionLocked
                        },
                    )
                    &&& final(self).exec_lock == old(self).exec_lock
                    &&& final(self).audit_log() == append_entry(
                        old(self).audit_log(),
                        (flow_exec_text(), executor@, now, false),
                    )
                    &&& final(self).stats == stats_after_append(old(self).stats, old(self).audit@.len())
                    &&& final(events)@ == old(events)@
                } else if check is Err {
                    r == Err::<FlowRun, OrchestratorError>(check->Err_0) && *final(self) == *old(self)
                        && final(events)@ == old(events)@
                } else {
                    &&& r matches Ok(run) && run.wf() && run == (if old(self).dependencies is None {
                        FlowRun::ended(Err(OrchestratorError::InvalidDependency))
                    } else {
                        FlowRun::initial(
                            true,
                            amount,
                            old(self).goal_id,
                            old(self).bill_id,
                            old(self).policy_id,
                        )
                    })
                    &&& final(self).exec_lock
                    &&& final(self).audit == old(self).audit
                    &&& final(self).stats == old(self).stats
                    &&& event_views(final(events)@) == event_views(old(events)@).push(
                        OrchestratorEventView::FlowStarted { executor: executor@, amount },
                    )
                }
            }),
    {
        if self.owner.is_none() {
            return Err(OrchestratorError::Unauthorized);
        }
        if amount <= 0 {
            self.append_audit(flow_exec_symbol(), executor, false, now);
            return Err(OrchestratorError::InvalidAmount);
        }
        if self.exec_lock {
            self.append_audit(flow_exec_symbol(), executor, false, now);
            return Err(OrchestratorError::ExecutionLocked);
        }
        proof {
            reveal_strlit("flow");
            assert("flow"@ =~= flow_op_text());
        }
        let expected_hash = Self::compute_request_hash("flow", executor, nonce, amount, deadline);
        match self.require_nonce_hardened(executor, nonce, deadline, request_hash, expected_hash, now) {
            Err(e) => {
                return Err(e);
            },
            Ok(()) => {},
        }
        let ghost before = events@;
        events.push(OrchestratorEvent::FlowStarted { executor: executor.duplicate(), amount });
        assert(event_views(events@) =~= event_views(before).push(
            OrchestratorEventView::FlowStarted { executor: executor@, amount },
        ));
        self.exec_lock = true;
        if self.dependencies.is_none() {
            Ok(FlowRun::finished(Err(OrchestratorError::InvalidDependency)))
        } else {
            Ok(FlowRun::start(true, amount, self.goal_id, self.bill_id, self.policy_id))
        }
    }

    /// Releases the execution lock and settles a signed flow. On success the
    /// executor's nonce is consumed before the outcome is recorded; when the
    /// counter cannot move on, `Overflow` is returned and nothing is recorded.
    pub fn finish_signed(
        &mut self,
        executor: &Address,
        amount: i128,
        outcome: Result<(), OrchestratorError>,
        now: u64,
        events: &mut Vec<OrchestratorEvent>,
    ) -> (r: Result<bool, OrchestratorError>)
        requires
            old(self).wf(),
        ensures
            final(self).wf(),
            !final(self).exec_lock,
            final(self).owner == old(self).owner,
            final(self).dependencies == old(self).dependencies,
            final(self).version == old(self).version,
            match outcome {
                Ok(()) => if old(self).nonce_of(executor@) == u64::MAX {
                    &&& r == Err::<bool, OrchestratorError>(OrchestratorError::Overflow)
                    &&& final(self).used_of(executor@) == remember_nonce(
                        old(self).used_of(executor@),
                        u64::MAX,
                    )
                    &&& final(self).nonces == old(self).nonces
                    &&& final(self).audit == old(self).audit
                    &&& final(self).stats == old(self).stats
                    &&& final(events)@ == old(events)@
                } else {
                    &&& r == Ok::<bool, OrchestratorError>(true)
                    &&& final(self).nonce_of(executor@) == old(self).nonce_of(executor@) + 1
                    &&& final(self).used_of(executor@) == remember_nonce(
                        old(self).used_of(executor@),
                        old(self).nonce_of(executor@),
                    )
                    &&& final(self).stats == stats_after_append(
                        Some(stats_after(old(self).stats_or_zero(), true, now)),
                        old(self).audit@.len(),
                    )
                    &&& final(self).audit_log() == append_entry(
                        old(self).audit_log(),
                        (flow_exec_text(), executor@, now, true),
                    )
                    &&& event_views(final(events)@) == event_views(old(events)@).push(
                        OrchestratorEventView::FlowSucceeded { executor: executor@, amount },
                    )
                },
                Err(e) => {
                    &&& r == Err::<bool, OrchestratorError>(e)
                    &&& final(self).nonces == old(self).nonces
                    &&& final(self).used_nonces == old(self).used_nonces
                    &&& final(self).stats == stats_after_append(
                        Some(stats_after(old(self).stats_or_zero(), false, now)),
                        old(self).audit@.len(),
                    )
                    &&& final(self).audit_log() == append_entry(
                        old(self).audit_log(),
                        (flow_exec_text(), executor@, now, false),
                    )
                    &&& event_views(final(events)@) == event_views(old(events)@).push(
                        OrchestratorEventView::FlowFailed { executor: executor@, error_code: e.spec_code() },
                    )
                },
            },
            forall|b: Seq<u8>| b != executor@ ==> #[trigger] final(self).nonce_of(b) == old(self).nonce_of(b)
                && final(self).used_of(b) == old(self).used_of(b),
    {
        self.exec_lock = false;
        match outcome {
            Ok(()) => {
                match self.increment_nonce(executor) {
                    Err(e) => {
                        return Err(e);
                    },
                    Ok(()) => {},
                }
                let ghost mid = *self;
                let _ = self.record_flow_outcome(executor, amount, Ok(()), now, events);
                assert forall|b: Seq<u8>| b != executor@ implies #[trigger] self.nonce_of(b) == old(self).nonce_of(b)
                    && self.used_of(b) == old(self).used_of(b) by {
                    assert(mid.nonce_of(b) == old(self).nonce_of(b));
                    assert(mid.used_of(b) == old(self).used_of(b));
                }
                Ok(true)
            },
            Err(e) => {
                let _ = self.record_flow_outcome(executor, amount, Err(e), now, events);
                Err(e)
            },
        }
    }

    /// Initialises the orchestrator with its owner and the contracts a flow
    /// calls. Refused with `Unauthorized` once an owner is stored, and with
    /// `DuplicateDependency` when the caller is one of the dependencies or two
    /// dependencies coincide; a refusal changes nothing.
    pub fn init(
        &mut self,
        caller: &Address,
        deps: Dependencies,
        events: &mut Vec<OrchestratorEvent>,
    ) -> (r: Result<bool, OrchestratorError>)
        requires
            old(self).wf(),
        ensures
            final(self).wf(),
            old(self).owner is Some ==> r == Err::<bool, OrchestratorError>(OrchestratorError::Unauthorized),
            old(self).owner is None && deps_conflict(caller@, deps.list()) ==> r == Err::<
                bool,
                OrchestratorError,
            >(OrchestratorError::DuplicateDependency),
            r is Err ==> *final(self) == *old(self) && final(events)@ == old(events)@,
            r is Ok <==> old(self).owner is None && !deps_conflict(caller@, deps.list()),
            r is Ok ==> {
                &&& r == Ok::<bool, OrchestratorError>(true)
                &&& final(self).owner_is(caller@)
                &&& final(self).dependencies matches Some(d) && d.list() == deps.list()
                &&& !final(self).exec_lock
                &&& final(self).nonces@ == Map::<Seq<u8>, u64>::empty()
                &&& final(self).used_nonces == old(self).used_nonces
                &&& final(self).goal_id == 1 && final(self).bill_id == 1 && final(self).policy_id == 1
                &&& final(self).stats == Some(zero_stats())
                &&& final(self).audit == old(self).audit
                &&& final(self).version == old(self).version
                &&& event_views(final(events)@) == event_views(old(events)@).push(
                    OrchestratorEventView::Initialized { owner: caller@ },
                )
            },
    {
        if self.owner.is_some() {
            return Err(OrchestratorError::Unauthorized);
        }
        let addrs: Vec<&Address> = vec![
            &deps.family_wallet,
            &deps.remittance_split,
            &deps.savings_goals,
            &deps.bill_payments,
            &deps.insurance,
        ];
        assert(addrs@.map_values(|a: &Address| a@) =~= deps.list());
        if deps_have_conflict(caller, &addrs) {
            return Err(OrchestratorError::DuplicateDependency);
        }
        self.owner = Some(caller.duplicate());
        self.dependencies = Some(deps);
        self.exec_lock = false;
        self.nonces = Table::new();
        self.goal_id = 1;
        self.bill_id = 1;
        self.policy_id = 1;
        self.stats = Some(
            ExecutionStats {
                total_executions: 0,
                successful_executions: 0,
                failed_executions: 0,
                last_execution_time: 0,
                evicted_entries: 0,
            },
        );
        let ghost before = events@;
        events.push(OrchestratorEvent::Initialized { owner: caller.duplicate() });
        assert(event_views(events@) =~= event_views(before).push(
            OrchestratorEventView::Initialized { owner: caller@ },
        ));
        Ok(true)
    }

    /// The stored version, or `CONTRACT_VERSION` when none was set.
    pub fn get_version(&self) -> (v: u32)
        ensures
            v == (match self.version {
                Some(v) => v,
                None => CONTRACT_VERSION,
            }),
    {
        match self.version {
            Some(v) => v,
            None => CONTRACT_VERSION,
        }
    }

    /// Sets the contract version; only the owner may.
    pub fn set_version(
        &mut self,
        caller: &Address,
        new_version: u32,
        events: &mut Vec<OrchestratorEvent>,
    ) -> (r: Result<bool, OrchestratorError>)
        requires
            old(self).wf(),
        ensures
            final(self).wf(),
            r is Ok <==> old(self).owner_is(caller@),
            r is Err ==> r == Err::<bool, OrchestratorError>(OrchestratorError::Unauthorized)
                && *final(self) == *old(self) && final(events)@ == old(events)@,
            r is Ok ==> {
                &&& r == Ok::<bool, OrchestratorError>(true)
                &&& *final(self) == Orchestrator { version: Some(new_version), ..*old(self) }
                &&& event_views(final(events)@) == event_views(old(events)@).push(
                    OrchestratorEventView::VersionUpgraded {
                        previous: match old(self).version {
                            Some(v) => v,
                            None => CONTRACT_VERSION,
                        },
                        current: new_version,
                    },
                )
            },
    {
        let is_owner = match &self.owner {
            None => false,
            Some(owner) => owner.same(caller),
        };
        if !is_owner {
            return Err(OrchestratorError::Unauthorized);
        }
        let prev = self.get_version();
        self.version = Some(new_version);
        let ghost before = events@;
        events.push(OrchestratorEvent::VersionUpgraded { previous: prev, current: new_version });
        assert(event_views(events@) =~= event_views(before).push(
            OrchestratorEventView::VersionUpgraded { previous: prev, current: new_version },
        ));
        Ok(true)
    }

    /// Whether a flow holds the execution lock.
    pub fn get_execution_state(&self) -> (r: bool)
        ensures
            r == self.exec_lock,
    {
        self.exec_lock
    }

    /// The execution statistics, once initialised.
    pub fn get_execution_stats(&self) -> (r: Option<ExecutionStats>)
        ensures
            r == self.stats,
    {
        self.stats
    }

    /// The end (exclusive) of the audit page that starts at `from` and holds
    /// at most `cap` entries of a log of `len` entries.
    pub open spec fn page_end(from: u32, cap: u32, len: nat) -> int {
        let end = from + cap;
        let end = if end > u32::MAX {
            u32::MAX as int
        } else {
            end
        };
        if end > len {
            len as int
        } else {
            end
        }
    }

    /// A page of the audit log, oldest first: the entries from position
    /// `from_index`, at most `clamp_limit(limit)` of them; empty when
    /// `from_index` is past the end.
    /// The audit page that starts at `from_index` and holds at most
    /// `clamp_limit(limit)` entries; empty past the end of the log.
    pub open spec fn audit_page(&self, from_index: u32, limit: u32) -> Seq<(Seq<u8>, Seq<u8>, u64, bool)> {
        if from_index >= self.audit@.len() {
            Seq::empty()
        } else {
            self.audit_log().subrange(
                from_index as int,
                Self::page_end(from_index, Self::clamped(limit), self.audit@.len()),
            )
        }
    }

    pub fn get_audit_log(&self, from_index: u32, limit: u32) -> (page: Vec<AuditEntry>)
        requires
            self.wf(),
        ensures
            audit_views(page@) == self.audit_page(from_index, limit),
    {
        let len = self.audit.len() as u32;
        let cap = Self::clamp_limit(limit);
        if from_index >= len {
            let v: Vec<AuditEntry> = Vec::new();
            assert(audit_views(v@) =~= Seq::empty());
            return v;
        }
        let end = from_index.saturating_add(cap);
        let end = if end < len {
            end
        } else {
            len
        };
        let mut items: Vec<AuditEntry> = Vec::new();
        let mut i: u32 = from_index;
        while i < end
            invariant
                from_index <= i <= end,
                end <= self.audit@.len(),
                audit_views(items@) == self.audit_log().subrange(from_index as int, i as int),
            decreases end - i,
        {
            let ghost before = items@;
            items.push(self.audit[i as usize].duplicate());
            assert(audit_views(items@) =~= audit_views(before).push(self.audit@[i as int]@));
            assert(self.audit_log().subrange(from_index as int, i + 1) =~= self.audit_log().subrange(
                from_index as int,
                i as int,
            ).push(self.audit@[i as int]@));
            i = i + 1;
        }
        items
    }
}


/// An audit page asks for exactly the page size the caller names when it
/// lies in `1..=MAX_AUDIT_ENTRIES`; zero asks for `DEFAULT_AUDIT_PAGE` and a
/// larger size is cut to `MAX_AUDIT_ENTRIES`. A page starting inside the log
/// holds the entries from there on, that many of them or all that remain.
pub proof fn lemma_audit_page_size(s: Orchestrator, from_index: u32, limit: u32)
    requires
        s.wf(),
    ensures
        0 < limit <= MAX_AUDIT_ENTRIES ==> Orchestrator::clamped(limit) == limit,
        limit == 0 ==> Orchestrator::clamped(limit) == DEFAULT_AUDIT_PAGE,
        limit > MAX_AUDIT_ENTRIES ==> Orchestrator::clamped(limit) == MAX_AUDIT_ENTRIES,
        from_index >= s.audit@.len() ==> s.audit_page(from_index, limit).len() == 0,
        from_index < s.audit@.len() ==> {
            let rest = s.audit@.len() - from_index;
            let n = s.audit_page(from_index, limit).len();
            &&& 0 < limit <= MAX_AUDIT_ENTRIES ==> n == (if rest < limit {
                rest
            } else {
                limit as int
            })
            &&& n <= MAX_AUDIT_ENTRIES
            &&& forall|j: int| 0 <= j < n ==> #[trigger] s.audit_page(from_index, limit)[j]
                == s.audit_log()[from_index + j]
        },
{
}

/// A signed request is accepted only inside its deadline window, with the
/// signer's current nonce, a nonce not remembered as used and the expected
/// request hash; and every such request is accepted.
pub proof fn lemma_signed_request_accepted_iff(
    used: bool,
    current: u64,
    nonce: u64,
    deadline: u64,
    request_hash: u64,
    expected_hash: u64,
    now: u64,
)
    ensures
        nonce_check(used, current, nonce, deadline, request_hash, expected_hash, now) is Ok <==> {
            &&& now < deadline <= now + MAX_DEADLINE_WINDOW_SECS
            &&& !used
            &&& nonce == current
            &&& request_hash == expected_hash
        },
        (deadline <= now || deadline > now + MAX_DEADLINE_WINDOW_SECS) ==> nonce_check(
            used,
            current,
            nonce,
            deadline,
            request_hash,
            expected_hash,
            now,
        ) == Err::<(), OrchestratorError>(OrchestratorError::DeadlineExpired),
{
}

/// Replay protection: a nonce below the signer's counter (one that a past
/// signed flow consumed) is refused whatever else the request says and
/// whatever the ledger time. Inside the deadline window the refusal is
/// `NonceAlreadyUsed` while the nonce is remembered and `InvalidNonce` after
/// it was dropped from the used list. Only the counter's own value can pass.
pub proof fn lemma_consumed_nonce_refused(
    s: Orchestrator,
    executor: Seq<u8>,
    nonce: u64,
    deadline: u64,
    request_hash: u64,
    expected_hash: u64,
    now: u64,
)
    requires
        s.wf(),
        nonce < s.nonce_of(executor),
    ensures
        nonce_check(
            s.used_of(executor).contains(nonce),
            s.nonce_of(executor),
            nonce,
            deadline,
            request_hash,
            expected_hash,
            now,
        ) is Err,
        now < deadline <= now + MAX_DEADLINE_WINDOW_SECS ==> nonce_check(
            s.used_of(executor).contains(nonce),
            s.nonce_of(executor),
            nonce,
            deadline,
            request_hash,
            expected_hash,
            now,
        ) == Err::<(), OrchestratorError>(
            if s.used_of(executor).contains(nonce) {
                OrchestratorError::NonceAlreadyUsed
            } else {
                OrchestratorError::InvalidNonce
            },
        ),
{
}

/// The used-nonce list keeps the nonce just consumed, never grows beyond
/// `MAX_USED_NONCES_PER_ADDR`, and drops only its oldest entry.
pub proof fn lemma_remember_nonce_bounded(used: Seq<u64>, nonce: u64)
    requires
        used.len() <= MAX_USED_NONCES_PER_ADDR,
    ensures
        remember_nonce(used, nonce).contains(nonce),
        remember_nonce(used, nonce).len() <= MAX_USED_NONCES_PER_ADDR,
        used.len() < MAX_USED_NONCES_PER_ADDR ==> remember_nonce(used, nonce) == used.push(nonce),
        used.len() == MAX_USED_NONCES_PER_ADDR ==> remember_nonce(used, nonce) == used.subrange(
            1,
            used.len() as int,
        ).push(nonce),
{
    assert(remember_nonce(used, nonce)[remember_nonce(used, nonce).len() - 1] == nonce);
}

/// The audit log never holds more than `MAX_AUDIT_ENTRIES` entries; a new
/// entry always lands last, and a full log loses exactly its oldest entry.
pub proof fn lemma_audit_log_bounded<T>(log: Seq<T>, e: T)
    requires
        log.len() <= MAX_AUDIT_ENTRIES,
    ensures
        append_entry(log, e).len() <= MAX_AUDIT_ENTRIES,
        append_entry(log, e).last() == e,
        log.len() < MAX_AUDIT_ENTRIES ==> append_entry(log, e) == log.push(e),
        log.len() == MAX_AUDIT_ENTRIES ==> append_entry(log, e) == log.subrange(1, log.len() as int).push(e),
{
}

/// Consecutive audit pages tile the log: the page at `from` followed by the
/// page right after it is the run of entries that starts at `from` and is
/// twice the page size long (cut at the end of the log). Paging through the
/// log therefore sees every entry once, in order.
pub proof fn lemma_audit_pages_tile(s: Orchestrator, from: u32, limit: u32)
    requires
        s.wf(),
        from < s.audit@.len(),
    ensures
        ({
            let c = Orchestrator::clamped(limit);
            let next = (from + c) as u32;
            let stop = if from + 2 * c > s.audit@.len() {
                s.audit@.len() as int
            } else {
                from + 2 * c
            };
            s.audit_page(from, limit) + s.audit_page(next, limit) == s.audit_log().subrange(from as int, stop)
        }),
{
    let c = Orchestrator::clamped(limit);
    let next = (from + c) as u32;
    let len = s.audit@.len();
    assert(s.audit_log().len() == len);
    if next >= len {
        assert(s.audit_page(from, limit) + s.audit_page(next, limit) =~= s.audit_log().subrange(
            from as int,
            len as int,
        ));
    } else {
        let stop = if from + 2 * c > len {
            len as int
        } else {
            from + 2 * c
        };
        assert(s.audit_page(from, limit) + s.audit_page(next, limit) =~= s.audit_log().subrange(
            from as int,
            stop,
        ));
    }
}

/// As long as the total has not reached `u32::MAX`, every completed flow is
/// counted exactly once, as a success or a failure, and evictions leave
/// these counters alone.
pub proof fn lemma_stats_balance(s: ExecutionStats, success: bool, now: u64)
    requires
        s.total_executions == s.successful_executions + s.failed_executions,
        s.total_executions < u32::MAX,
    ensures
        stats_after(s, success, now).total_executions == stats_after(s, success, now).successful_executions
            + stats_after(s, success, now).failed_executions,
        stats_after(s, success, now).total_executions == s.total_executions + 1,
        stats_evicted(s).total_executions == s.total_executions,
        stats_evicted(s).successful_executions == s.successful_executions,
        stats_evicted(s).failed_executions == s.failed_executions,
{
}

} // verus!
