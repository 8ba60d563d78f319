//! The emergency killswitch: an admin can pause everything, a module, or
//! single functions of a module. Lifting the global pause goes through a
//! timelock (`schedule_unpause`, then `unpause` once the ledger reaches the
//! scheduled time) or through the recovery path `clear_emergency_state`.
//!
//! The admin's authorisation is checked by the caller of this module before
//! an admin operation runs; `admin_to_authorize` names the address to check.

use vstd::prelude::*;

use crate::bytes::{Address, Symbol, bytes_copy};
use crate::table::Table;

verus! {

/// Function pauses kept per module.
pub const MAX_PAUSED_FUNCTIONS: u32 = 10;

#[derive(Clone, Copy, Debug, PartialEq, Eq, Structural)]
pub enum Error {
    Unauthorized,
    AlreadyInitialized,
    NotInitialized,
    LimitExceeded,
    InvalidSchedule,
    InvalidAdmin,
}

impl Error {
    pub open spec fn spec_code(&self) -> u32 {
        match self {
            Error::Unauthorized => 1,
            Error::AlreadyInitialized => 2,
            Error::NotInitialized => 3,
            Error::LimitExceeded => 4,
            Error::InvalidSchedule => 5,
            Error::InvalidAdmin => 6,
        }
    }

    /// The number that identifies the error on the ledger.
    pub fn code(&self) -> (c: u32)
        ensures
            c == self.spec_code(),
    {
        match self {
            Error::Unauthorized => 1,
            Error::AlreadyInitialized => 2,
            Error::NotInitialized => 3,
            Error::LimitExceeded => 4,
            Error::InvalidSchedule => 5,
            Error::InvalidAdmin => 6,
        }
    }
}

/// Announced when the admin changes hands.
#[derive(Clone, Debug)]
pub struct AdminTransferred {
    pub old_admin: Address,
    pub new_admin: Address,
    pub timestamp: u64,
}

/// What the killswitch announces.
#[derive(Clone, Debug)]
pub enum KillswitchEvent {
    AdminTransferred(AdminTransferred),
    Paused { timestamp: u64 },
    Unpaused { timestamp: u64 },
    Cleared { timestamp: u64 },
    FunctionPaused { module: Symbol, func: Symbol, timestamp: u64 },
    FunctionUnpaused { module: Symbol, func: Symbol, timestamp: u64 },
    ModulePaused { module: Symbol, timestamp: u64 },
    ModuleUnpaused { module: Symbol, timestamp: u64 },
}

pub enum KillswitchEventView {
    AdminTransferred { old_admin: Seq<u8>, new_admin: Seq<u8>, timestamp: u64 },
    Paused { timestamp: u64 },
    Unpaused { timestamp: u64 },
    Cleared { timestamp: u64 },
    FunctionPaused { module: Seq<u8>, func: Seq<u8>, timestamp: u64 },
    FunctionUnpaused { module: Seq<u8>, func: Seq<u8>, timestamp: u64 },
    ModulePaused { module: Seq<u8>, timestamp: u64 },
    ModuleUnpaused { module: Seq<u8>, timestamp: u64 },
}

impl View for KillswitchEvent {
    type V = KillswitchEventView;

    open spec fn view(&self) -> KillswitchEventView {
        match self {
            KillswitchEvent::AdminTransferred(t) => KillswitchEventView::AdminTransferred {
                old_admin: t.old_admin@,
                new_admin: t.new_admin@,
                timestamp: t.timestamp,
            },
            KillswitchEvent::Paused { timestamp } => KillswitchEventView::Paused { timestamp: *timestamp },
            KillswitchEvent::Unpaused { timestamp } => KillswitchEventView::Unpaused { timestamp: *timestamp },
            KillswitchEvent::Cleared { timestamp } => KillswitchEventView::Cleared { timestamp: *timestamp },
            KillswitchEvent::FunctionPaused { module, func, timestamp } => KillswitchEventView::FunctionPaused {
                module: module@,
                func: func@,
                timestamp: *timestamp,
            },
            KillswitchEvent::FunctionUnpaused { module, func, timestamp } =>
                KillswitchEventView::FunctionUnpaused { module: module@, func: func@, timestamp: *timestamp },
            KillswitchEvent::ModulePaused { module, timestamp } => KillswitchEventView::ModulePaused {
                module: module@,
                timestamp: *timestamp,
            },
            KillswitchEvent::ModuleUnpaused { module, timestamp } => KillswitchEventView::ModuleUnpaused {
                module: module@,
                timestamp: *timestamp,
            },
        }
    }
}

pub open spec fn killswitch_event_views(s: Seq<KillswitchEvent>) -> Seq<KillswitchEventView> {
    s.map_values(|e: KillswitchEvent| e@)
}

/// The names in a list of symbols.
pub open spec fn symbol_views(s: Seq<Symbol>) -> Seq<Seq<u8>> {
    s.map_values(|x: Symbol| x@)
}

/// The killswitch's state seen as values.
pub struct KillswitchView {
    pub admin: Option<Seq<u8>>,
    pub global_paused: bool,
    /// The stored pause flag of each module that has one.
    pub module_paused: Map<Seq<u8>, bool>,
    /// The paused functions of each module that has a stored list.
    pub paused_functions: Map<Seq<u8>, Seq<Seq<u8>>>,
    pub unpause_schedule: Option<u64>,
}

impl KillswitchView {
    pub open spec fn module_flag(self, module: Seq<u8>) -> bool {
        self.module_paused.dom().contains(module) && self.module_paused[module]
    }

    pub open spec fn functions_of(self, module: Seq<u8>) -> Seq<Seq<u8>> {
        if self.paused_functions.dom().contains(module) {
            self.paused_functions[module]
        } else {
            Seq::empty()
        }
    }

    /// A call of `func` in `module` is refused: everything is paused, the
    /// module is paused, or the function is.
    pub open spec fn function_paused(self, module: Seq<u8>, func: Seq<u8>) -> bool {
        self.global_paused || self.module_flag(module) || self.functions_of(module).contains(func)
    }

    /// The state after `initialize(admin)` in the contract at `contract`.
    pub open spec fn initialize(self, admin: Seq<u8>, contract: Seq<u8>) -> (Self, Result<(), Error>) {
        if self.admin is Some {
            (self, Err(Error::AlreadyInitialized))
        } else if admin == contract {
            (self, Err(Error::InvalidAdmin))
        } else {
            (KillswitchView { admin: Some(admin), ..self }, Ok(()))
        }
    }

    pub open spec fn transfer_admin(self, new_admin: Seq<u8>, contract: Seq<u8>) -> (Self, Result<(), Error>) {
        match self.admin {
            None => (self, Err(Error::NotInitialized)),
            Some(a) => if new_admin == contract || new_admin == a {
                (self, Err(Error::InvalidAdmin))
            } else {
                (KillswitchView { admin: Some(new_admin), ..self }, Ok(()))
            },
        }
    }

    pub open spec fn pause(self) -> (Self, Result<(), Error>) {
        if self.admin is None {
            (self, Err(Error::NotInitialized))
        } else {
            (KillswitchView { global_paused: true, unpause_schedule: None, ..self }, Ok(()))
        }
    }

    pub open spec fn unpause(self, now: u64) -> (Self, Result<(), Error>) {
        if self.admin is None {
            (self, Err(Error::NotInitialized))
        } else {
            match self.unpause_schedule {
                None => (self, Err(Error::InvalidSchedule)),
                Some(t) => if now < t {
                    (self, Err(Error::Unauthorized))
                } else {
                    (KillswitchView { global_paused: false, unpause_schedule: None, ..self }, Ok(()))
                },
            }
        }
    }

    pub open spec fn clear_emergency_state(self) -> (Self, Result<(), Error>) {
        if self.admin is None {
            (self, Err(Error::NotInitialized))
        } else {
            (KillswitchView { global_paused: false, unpause_schedule: None, ..self }, Ok(()))
        }
    }

    pub open spec fn schedule_unpause(self, time: u64, now: u64) -> (Self, Result<(), Error>) {
        if self.admin is None {
            (self, Err(Error::NotInitialized))
        } else if time < now {
            (self, Err(Error::InvalidSchedule))
        } else {
            (KillswitchView { unpause_schedule: Some(time), ..self }, Ok(()))
        }
    }

    pub open spec fn pause_function(self, module: Seq<u8>, func: Seq<u8>) -> (Self, Result<(), Error>) {
        if self.admin is None {
            (self, Err(Error::NotInitialized))
        } else if self.functions_of(module).contains(func) {
            (self, Ok(()))
        } else if self.functions_of(module).len() >= MAX_PAUSED_FUNCTIONS {
            (self, Err(Error::LimitExceeded))
        } else {
            (
                KillswitchView {
                    paused_functions: self.paused_functions.insert(
                        module,
                        self.functions_of(module).push(func),
                    ),
                    ..self
                },
                Ok(()),
            )
        }
    }

    pub open spec fn unpause_function(self, module: Seq<u8>, func: Seq<u8>) -> (Self, Result<(), Error>) {
        if self.admin is None {
            (self, Err(Error::NotInitialized))
        } else if self.functions_of(module).contains(func) {
            (
                KillswitchView {
                    paused_functions: self.paused_functions.insert(
                        module,
                        self.functions_of(module).remove_value(func),
                    ),
                    ..self
                },
                Ok(()),
            )
        } else {
            (self, Ok(()))
        }
    }

    pub open spec fn set_module(self, module: Seq<u8>, paused: bool) -> (Self, Result<(), Error>) {
        if self.admin is None {
            (self, Err(Error::NotInitialized))
        } else {
            (KillswitchView { module_paused: self.module_paused.insert(module, paused), ..self }, Ok(()))
        }
    }
}

/// The first position of `s` in `list`.
pub fn symbol_index(list: &Vec<Symbol>, s: &Symbol) -> (r: Option<usize>)
    ensures
        match r {
            Some(i) => {
                &&& i < list.len()
                &&& symbol_views(list@).index_of_first(s@) == Some(i as int)
                &&& symbol_views(list@).contains(s@)
            },
            None => !symbol_views(list@).contains(s@) && symbol_views(list@).index_of_first(s@) is None,
        },
{
    let ghost vs = symbol_views(list@);
    let mut i: usize = 0;
    while i < list.len()
        invariant
            i <= list.len(),
            vs == symbol_views(list@),
            forall|j: int| 0 <= j < i ==> vs[j] != s@,
        decreases list.len() - i,
    {
        if list[i].same(s) {
            proof {
                assert(vs[i as int] == s@);
                vs.index_of_first_ensures(s@);
                let f = vs.index_of_first(s@).unwrap();
                assert(f == i as int) by {
                    if f < i {
                        assert(vs[f] != s@);
                    }
                    if f > i {
                        assert(vs[i as int] != s@);
                    }
                }
            }
            return Some(i);
        }
        i = i + 1;
    }
    proof {
        vs.index_of_first_ensures(s@);
    }
    None
}

/// The killswitch's stored state.
pub struct EmergencyKillswitch {
    pub admin: Option<Address>,
    pub global_paused: bool,
    pub module_paused: Table<bool>,
    pub paused_functions: Table<Vec<Symbol>>,
    pub unpause_schedule: Option<u64>,
}

impl View for EmergencyKillswitch {
    type V = KillswitchView;

    open spec fn view(&self) -> KillswitchView {
        KillswitchView {
            admin: match self.admin {
                Some(a) => Some(a@),
                None => None,
            },
            global_paused: self.global_paused,
            module_paused: self.module_paused@,
            paused_functions: Map::new(
                |k: Seq<u8>| self.paused_functions@.dom().contains(k),
                |k: Seq<u8>| symbol_views(self.paused_functions@[k]@),
            ),
            unpause_schedule: self.unpause_schedule,
        }
    }
}

impl EmergencyKillswitch {
    /// The stored state is consistent: each module lists at most
    /// `MAX_PAUSED_FUNCTIONS` functions, none twice.
    pub open spec fn wf(&self) -> bool {
        &&& self.module_paused.wf()
        &&& self.paused_functions.wf()
        &&& forall|m: Seq<u8>| #[trigger]
            self.paused_functions@.dom().contains(m) ==> symbol_views(self.paused_functions@[m]@).len()
                <= MAX_PAUSED_FUNCTIONS && symbol_views(self.paused_functions@[m]@).no_duplicates()
    }

    /// Every module lists at most `MAX_PAUSED_FUNCTIONS` paused functions,
    /// none twice.
    pub proof fn lemma_function_lists_bounded(&self, m: Seq<u8>)
        requires
            self.wf(),
        ensures
            self@.functions_of(m).len() <= MAX_PAUSED_FUNCTIONS,
            self@.functions_of(m).no_duplicates(),
    {
    }

    /// The state of a freshly deployed killswitch.
    pub fn new() -> (r: EmergencyKillswitch)
        ensures
            r.wf(),
            r@.admin is None,
            !r@.global_paused,
            r@.module_paused == Map::<Seq<u8>, bool>::empty(),
            r@.paused_functions == Map::<Seq<u8>, Seq<Seq<u8>>>::empty(),
            r@.unpause_schedule is None,
    {
        let r = EmergencyKillswitch {
            admin: None,
            global_paused: false,
            module_paused: Table::new(),
            paused_functions: Table::new(),
            unpause_schedule: None,
        };
        assert(r@.paused_functions =~= Map::<Seq<u8>, Seq<Seq<u8>>>::empty());
        r
    }

    /// The view of the function lists after `key` is set to `list`.
    pub proof fn lemma_set_functions(pre: Table<Vec<Symbol>>, post: Table<Vec<Symbol>>, key: Seq<u8>, list: Vec<Symbol>)
        requires
            post@ == pre@.insert(key, list),
        ensures
            Map::new(
                |k: Seq<u8>| post@.dom().contains(k),
                |k: Seq<u8>| symbol_views(post@[k]@),
            ) == Map::new(
                |k: Seq<u8>| pre@.dom().contains(k),
                |k: Seq<u8>| symbol_views(pre@[k]@),
            ).insert(key, symbol_views(list@)),
    {
        assert(Map::new(|k: Seq<u8>| post@.dom().contains(k), |k: Seq<u8>| symbol_views(post@[k]@))
            =~= Map::new(|k: Seq<u8>| pre@.dom().contains(k), |k: Seq<u8>| symbol_views(pre@[k]@)).insert(
            key,
            symbol_views(list@),
        ));
    }

    /// The admin whose authorisation an admin operation needs, once there is one.
    pub fn admin_to_authorize(&self) -> (r: Result<&Address, Error>)
        ensures
            match r {
                Ok(a) => self@.admin == Some(a@),
                Err(e) => e == Error::NotInitialized && self@.admin is None,
            },
    {
        match &self.admin {
            Some(a) => Ok(a),
            None => Err(Error::NotInitialized),
        }
    }

    /// Sets the first admin. The contract's own address is refused: nobody
    /// could act as the admin then.
    pub fn initialize(&mut self, admin: Address, contract: &Address) -> (r: Result<(), Error>)
        requires
            old(self).wf(),
        ensures
            final(self).wf(),
            (final(self)@, r) == old(self)@.initialize(admin@, contract@),
    {
        if self.admin.is_some() {
            return Err(Error::AlreadyInitialized);
        }
        if admin.same(contract) {
            return Err(Error::InvalidAdmin);
        }
        self.admin = Some(admin);
        Ok(())
    }

    /// Hands the admin role to `new_admin`, refusing the contract's own
    /// address and the current admin; announces the handover at `now`.
    pub fn transfer_admin(
        &mut self,
        new_admin: Address,
        contract: &Address,
        now: u64,
        events: &mut Vec<KillswitchEvent>,
    ) -> (r: Result<(), Error>)
        requires
            old(self).wf(),
        ensures
            final(self).wf(),
            (final(self)@, r) == old(self)@.transfer_admin(new_admin@, contract@),
            r is Ok ==> killswitch_event_views(final(events)@) == killswitch_event_views(old(events)@).push(
                KillswitchEventView::AdminTransferred {
                    old_admin: old(self)@.admin->Some_0,
                    new_admin: new_admin@,
                    timestamp: now,
                },
            ),
            r is Err ==> final(events)@ == old(events)@,
    {
        let old_admin = match &self.admin {
            None => {
                return Err(Error::NotInitialized);
            },
            Some(a) => a.duplicate(),
        };
        if new_admin.same(contract) {
            return Err(Error::InvalidAdmin);
        }
        if new_admin.same(&old_admin) {
            return Err(Error::InvalidAdmin);
        }
        let announced = new_admin.duplicate();
        self.admin = Some(new_admin);
        let ghost before = events@;
        events.push(
            KillswitchEvent::AdminTransferred(
                AdminTransferred { old_admin, new_admin: announced, timestamp: now },
            ),
        );
        assert(killswitch_event_views(events@) =~= killswitch_event_views(before).push(
            KillswitchEventView::AdminTransferred {
                old_admin: old(self)@.admin->Some_0,
                new_admin: self@.admin->Some_0,
                timestamp: now,
            },
        ));
        Ok(())
    }

    /// Pauses everything and drops any scheduled unpause.
    pub fn pause(&mut self, now: u64, events: &mut Vec<KillswitchEvent>) -> (r: Result<(), Error>)
        requires
            old(self).wf(),
        ensures
            final(self).wf(),
            (final(self)@, r) == old(self)@.pause(),
            r is Ok ==> killswitch_event_views(final(events)@) == killswitch_event_views(old(events)@).push(
                KillswitchEventView::Paused { timestamp: now },
            ),
            r is Err ==> final(events)@ == old(events)@,
    {
        if self.admin.is_none() {
            return Err(Error::NotInitialized);
        }
        self.global_paused = true;
        self.unpause_schedule = None;
        let ghost before = events@;
        events.push(KillswitchEvent::Paused { timestamp: now });
        assert(killswitch_event_views(events@) =~= killswitch_event_views(before).push(
            KillswitchEventView::Paused { timestamp: now },
        ));
        Ok(())
    }

    /// Lifts the global pause once the ledger time `now` has reached the
    /// scheduled unpause time; the schedule is used up.
    pub fn unpause(&mut self, now: u64, events: &mut Vec<KillswitchEvent>) -> (r: Result<(), Error>)
        requires
            old(self).wf(),
        ensures
            final(self).wf(),
            (final(self)@, r) == old(self)@.unpause(now),
            r is Ok ==> killswitch_event_views(final(events)@) == killswitch_event_views(old(events)@).push(
                KillswitchEventView::Unpaused { timestamp: now },
            ),
            r is Err ==> final(events)@ == old(events)@,
    {
        if self.admin.is_none() {
            return Err(Error::NotInitialized);
        }
        let schedule = match self.unpause_schedule {
            None => {
                return Err(Error::InvalidSchedule);
            },
            Some(t) => t,
        };
        if now < schedule {
            return Err(Error::Unauthorized);
        }
        self.global_paused = false;
        self.unpause_schedule = None;
        let ghost before = events@;
        events.push(KillswitchEvent::Unpaused { timestamp: now });
        assert(killswitch_event_views(events@) =~= killswitch_event_views(before).push(
            KillswitchEventView::Unpaused { timestamp: now },
        ));
        Ok(())
    }

    /// Recovery path: lifts the global pause at once, bypassing the timelock,
    /// and drops any schedule. Module and function pauses stay.
    pub fn clear_emergency_state(&mut self, now: u64, events: &mut Vec<KillswitchEvent>) -> (r: Result<
        (),
        Error,
    >)
        requires
            old(self).wf(),
        ensures
            final(self).wf(),
            (final(self)@, r) == old(self)@.clear_emergency_state(),
            r is Ok ==> killswitch_event_views(final(events)@) == killswitch_event_views(old(events)@).push(
                KillswitchEventView::Cleared { timestamp: now },
            ),
            r is Err ==> final(events)@ == old(events)@,
    {
        if self.admin.is_none() {
            return Err(Error::NotInitialized);
        }
        self.global_paused = false;
        self.unpause_schedule = None;
        let ghost before = events@;
        events.push(KillswitchEvent::Cleared { timestamp: now });
        assert(killswitch_event_views(events@) =~= killswitch_event_views(before).push(
            KillswitchEventView::Cleared { timestamp: now },
        ));
        Ok(())
    }

    /// Schedules the earliest time at which `unpause` may lift the global
    /// pause; a time before `now` is refused.
    pub fn schedule_unpause(&mut self, time: u64, now: u64) -> (r: Result<(), Error>)
        requires
            old(self).wf(),
        ensures
            final(self).wf(),
            (final(self)@, r) == old(self)@.schedule_unpause(time, now),
    {
        if self.admin.is_none() {
            return Err(Error::NotInitialized);
        }
        if time < now {
            return Err(Error::InvalidSchedule);
        }
        self.unpause_schedule = Some(time);
        Ok(())
    }

    pub fn is_paused(&self) -> (r: bool)
        ensures
            r == self@.global_paused,
    {
        self.global_paused
    }

    /// The scheduled unpause time, if any.
    pub fn get_unpause_schedule(&self) -> (r: Option<u64>)
        ensures
            r == self@.unpause_schedule,
    {
        self.unpause_schedule
    }

    /// Whether `module` carries its own pause flag (the global pause aside).
    pub fn is_module_paused(&self, module: &Symbol) -> (r: bool)
        requires
            self.wf(),
        ensures
            r == self@.module_flag(module@),
    {
        match self.module_paused.get(&module.text) {
            Some(p) => *p,
            None => false,
        }
    }

    /// The paused functions of `module`, in the order they were paused.
    pub fn list_paused_functions(&self, module: &Symbol) -> (r: Vec<Symbol>)
        requires
            self.wf(),
        ensures
            symbol_views(r@) == self@.functions_of(module@),
    {
        match self.paused_functions.get(&module.text) {
            None => {
                let v: Vec<Symbol> = Vec::new();
                assert(symbol_views(v@) =~= Seq::<Seq<u8>>::empty());
                v
            },
            Some(list) => {
                let mut out: Vec<Symbol> = Vec::new();
                let mut i: usize = 0;
                while i < list.len()
                    invariant
                        i <= list.len(),
                        symbol_views(out@) == symbol_views(list@).subrange(0, i as int),
                    decreases list.len() - i,
                {
                    let ghost before = out@;
                    out.push(list[i].duplicate());
                    assert(symbol_views(out@) =~= symbol_views(before).push(list@[i as int]@));
                    assert(symbol_views(out@) =~= symbol_views(list@).subrange(0, i + 1));
                    i = i + 1;
                }
                assert(symbol_views(list@).subrange(0, list.len() as int) =~= symbol_views(list@));
                out
            },
        }
    }

    /// Whether a call of `func` in `module` is paused: everything is, the
    /// module is, or the function is.
    pub fn is_function_paused(&self, module: &Symbol, func: &Symbol) -> (r: bool)
        requires
            self.wf(),
        ensures
            r == self@.function_paused(module@, func@),
    {
        if self.global_paused {
            return true;
        }
        if self.is_module_paused(module) {
            return true;
        }
        match self.paused_functions.get(&module.text) {
            None => false,
            Some(list) => symbol_index(list, func).is_some(),
        }
    }

    /// Pauses `func` within `module`. Pausing a paused function changes
    /// nothing; a module may hold at most `MAX_PAUSED_FUNCTIONS` paused
    /// functions. Announces a new pause at `now`.
    pub fn pause_function(
        &mut self,
        module: &Symbol,
        func: &Symbol,
        now: u64,
        events: &mut Vec<KillswitchEvent>,
    ) -> (r: Result<(), Error>)
        requires
            old(self).wf(),
        ensures
            final(self).wf(),
            (final(self)@, r) == old(self)@.pause_function(module@, func@),
            r is Ok && !old(self)@.functions_of(module@).contains(func@) ==> killswitch_event_views(
                final(events)@,
            ) == killswitch_event_views(old(events)@).push(
                KillswitchEventView::FunctionPaused { module: module@, func: func@, timestamp: now },
            ),
            r is Err || old(self)@.functions_of(module@).contains(func@) ==> final(events)@ == old(events)@,
    {
        if self.admin.is_none() {
            return Err(Error::NotInitialized);
        }
        let (present, len) = match self.paused_functions.get(&module.text) {
            None => (false, 0usize),
            Some(list) => (symbol_index(list, func).is_some(), list.len()),
        };
        if present {
            return Ok(());
        }
        if len >= MAX_PAUSED_FUNCTIONS as usize {
            return Err(Error::LimitExceeded);
        }
        let ghost pre = self.paused_functions;
        let mut list = match self.paused_functions.remove(&module.text) {
            Some(v) => v,
            None => Vec::new(),
        };
        assert(symbol_views(list@) == old(self)@.functions_of(module@));
        let ghost prior = list@;
        list.push(func.duplicate());
        assert(symbol_views(list@) =~= symbol_views(prior).push(func@));
        let ghost new_list = list;
        self.paused_functions.set(bytes_copy(&module.text), list);
        proof {
            assert(self.paused_functions@ =~= pre@.insert(module@, new_list));
            Self::lemma_set_functions(pre, self.paused_functions, module@, new_list);
            assert(symbol_views(prior).no_duplicates()) by {
                old(self).lemma_function_lists_bounded(module@);
            }
            assert forall|m: Seq<u8>| #[trigger]
                self.paused_functions@.dom().contains(m) implies symbol_views(self.paused_functions@[m]@).len()
                <= MAX_PAUSED_FUNCTIONS && symbol_views(self.paused_functions@[m]@).no_duplicates() by {
                if m != module@ {
                    assert(pre@.dom().contains(m));
                } else {
                    let vs = symbol_views(new_list@);
                    assert forall|a: int, b: int| 0 <= a < vs.len() && 0 <= b < vs.len() && a != b implies vs[a]
                        != vs[b] by {
                        if a == vs.len() - 1 {
                            assert(symbol_views(prior)[b] == vs[b]);
                        } else if b == vs.len() - 1 {
                            assert(symbol_views(prior)[a] == vs[a]);
                        } else {
                            assert(symbol_views(prior)[a] == vs[a]);
                            assert(symbol_views(prior)[b] == vs[b]);
                        }
                    }
                }
            }
        }
        let ghost before = events@;
        events.push(
            KillswitchEvent::FunctionPaused { module: module.duplicate(), func: func.duplicate(), timestamp: now },
        );
        assert(killswitch_event_views(events@) =~= killswitch_event_views(before).push(
            KillswitchEventView::FunctionPaused { module: module@, func: func@, timestamp: now },
        ));
        Ok(())
    }

    /// Lifts the pause of `func` within `module`; a function that is not
    /// paused is left alone. Announces a lifted pause at `now`.
    pub fn unpause_function(
        &mut self,
        module: &Symbol,
        func: &Symbol,
        now: u64,
        events: &mut Vec<KillswitchEvent>,
    ) -> (r: Result<(), Error>)
        requires
            old(self).wf(),
        ensures
            final(self).wf(),
            (final(self)@, r) == old(self)@.unpause_function(module@, func@),
            r is Ok && old(self)@.functions_of(module@).contains(func@) ==> killswitch_event_views(
                final(events)@,
            ) == killswitch_event_views(old(events)@).push(
                KillswitchEventView::FunctionUnpaused { module: module@, func: func@, timestamp: now },
            ),
            r is Err || !old(self)@.functions_of(module@).contains(func@) ==> final(events)@ == old(events)@,
    {
        if self.admin.is_none() {
            return Err(Error::NotInitialized);
        }
        let found = match self.paused_functions.get(&module.text) {
            None => None,
            Some(list) => symbol_index(list, func),
        };
        let index = match found {
            None => {
                return Ok(());
            },
            Some(i) => i,
        };
        let ghost pre = self.paused_functions;
        let mut list = match self.paused_functions.remove(&module.text) {
            Some(v) => v,
            None => Vec::new(),
        };
        let ghost prior = list@;
        assert(symbol_views(prior) == old(self)@.functions_of(module@));
        list.remove(index);
        proof {
            let vs = symbol_views(prior);
            vs.index_of_first_ensures(func@);
            assert(symbol_views(list@) =~= vs.remove(index as int));
            assert(symbol_views(list@) == vs.remove_value(func@));
        }
        let ghost new_list = list;
        self.paused_functions.set(bytes_copy(&module.text), list);
        proof {
            assert(self.paused_functions@ =~= pre@.insert(module@, new_list));
            Self::lemma_set_functions(pre, self.paused_functions, module@, new_list);
            old(self).lemma_function_lists_bounded(module@);
            assert forall|m: Seq<u8>| #[trigger]
                self.paused_functions@.dom().contains(m) implies symbol_views(self.paused_functions@[m]@).len()
                <= MAX_PAUSED_FUNCTIONS && symbol_views(self.paused_functions@[m]@).no_duplicates() by {
                if m != module@ {
                    assert(pre@.dom().contains(m));
                } else {
                    let vs = symbol_views(new_list@);
                    let ps = symbol_views(prior);
                    assert forall|a: int, b: int| 0 <= a < vs.len() && 0 <= b < vs.len() && a != b implies vs[a]
                        != vs[b] by {
                        let a1 = if a < index {
                            a
                        } else {
                            a + 1
                        };
                        let b1 = if b < index {
                            b
                        } else {
                            b + 1
                        };
                        assert(vs[a] == ps[a1]);
                        assert(vs[b] == ps[b1]);
                    }
                }
            }
        }
        let ghost before = events@;
        events.push(
            KillswitchEvent::FunctionUnpaused {
                module: module.duplicate(),
                func: func.duplicate(),
                timestamp: now,
            },
        );
        assert(killswitch_event_views(events@) =~= killswitch_event_views(before).push(
            KillswitchEventView::FunctionUnpaused { module: module@, func: func@, timestamp: now },
        ));
        Ok(())
    }

    /// Pauses every function of `module`; announced at `now`.
    pub fn pause_module(&mut self, module: &Symbol, now: u64, events: &mut Vec<KillswitchEvent>) -> (r:
        Result<(), Error>)
        requires
            old(self).wf(),
        ensures
            final(self).wf(),
            (final(self)@, r) == old(self)@.set_module(module@, true),
            r is Ok ==> killswitch_event_views(final(events)@) == killswitch_event_views(old(events)@).push(
                KillswitchEventView::ModulePaused { module: module@, timestamp: now },
            ),
            r is Err ==> final(events)@ == old(events)@,
    {
        if self.admin.is_none() {
            return Err(Error::NotInitialized);
        }
        self.module_paused.set(bytes_copy(&module.text), true);
        let ghost before = events@;
        events.push(KillswitchEvent::ModulePaused { module: module.duplicate(), timestamp: now });
        assert(killswitch_event_views(events@) =~= killswitch_event_views(before).push(
            KillswitchEventView::ModulePaused { module: module@, timestamp: now },
        ));
        Ok(())
    }

    /// Lifts the module's own pause flag; announced at `now`.
    pub fn unpause_module(&mut self, module: &Symbol, now: u64, events: &mut Vec<KillswitchEvent>) -> (r:
        Result<(), Error>)
        requires
            old(self).wf(),
        ensures
            final(self).wf(),
            (final(self)@, r) == old(self)@.set_module(module@, false),
            r is Ok ==> killswitch_event_views(final(events)@) == killswitch_event_views(old(events)@).push(
                KillswitchEventView::ModuleUnpaused { module: module@, timestamp: now },
            ),
            r is Err ==> final(events)@ == old(events)@,
    {
        if self.admin.is_none() {
            return Err(Error::NotInitialized);
        }
        self.module_paused.set(bytes_copy(&module.text), false);
        let ghost before = events@;
        events.push(KillswitchEvent::ModuleUnpaused { module: module.duplicate(), timestamp: now });
        assert(killswitch_event_views(events@) =~= killswitch_event_views(before).push(
            KillswitchEventView::ModuleUnpaused { module: module@, timestamp: now },
        ));
        Ok(())
    }
}


/// Re-pausing cancels a pending schedule: once paused again, `unpause` is
/// refused with `InvalidSchedule` at any time, until a new schedule is set.
pub proof fn lemma_repause_cancels_schedule(v: KillswitchView, time: u64, sched_now: u64, now: u64)
    requires
        v.admin is Some,
    ensures
        v.schedule_unpause(time, sched_now).0.pause().0.unpause(now) == (
            v.schedule_unpause(time, sched_now).0.pause().0,
            Err::<(), Error>(Error::InvalidSchedule),
        ),
{
}

/// The timelock: after a pause and a schedule for `time`, `unpause` is
/// refused with `Unauthorized` (changing nothing) before `time`, and from
/// `time` on it lifts the global pause and uses the schedule up.
pub proof fn lemma_unpause_timelock(v: KillswitchView, time: u64, sched_now: u64, now: u64)
    requires
        v.admin is Some,
        sched_now <= time,
    ensures
        ({
            let s = v.pause().0.schedule_unpause(time, sched_now).0;
            &&& s.global_paused
            &&& now < time ==> s.unpause(now) == (s, Err::<(), Error>(Error::Unauthorized))
            &&& now >= time ==> s.unpause(now).1 is Ok && !s.unpause(now).0.global_paused
                && s.unpause(now).0.unpause_schedule is None
        }),
{
}

/// The recovery path lifts the global pause whatever the schedule, keeps
/// module and function pauses, and is idempotent.
pub proof fn lemma_clear_emergency_state(v: KillswitchView, module: Seq<u8>, func: Seq<u8>)
    requires
        v.admin is Some,
    ensures
        !v.clear_emergency_state().0.global_paused,
        v.clear_emergency_state().0.unpause_schedule is None,
        v.clear_emergency_state().0.module_paused == v.module_paused,
        v.clear_emergency_state().0.paused_functions == v.paused_functions,
        v.clear_emergency_state().0.function_paused(module, func) == (v.module_flag(module)
            || v.functions_of(module).contains(func)),
        v.clear_emergency_state().0.clear_emergency_state() == v.clear_emergency_state(),
{
}

/// The global pause dominates every module and function, and a module
/// pause covers every function of the module; lifting the module pause
/// leaves the single-function pauses as they were.
pub proof fn lemma_pause_precedence(v: KillswitchView, module: Seq<u8>, func: Seq<u8>, other: Seq<u8>)
    requires
        v.admin is Some,
    ensures
        v.pause().0.function_paused(other, func),
        v.set_module(module, true).0.function_paused(module, func),
        v.set_module(module, true).0.set_module(module, false).0.function_paused(module, func) == (
        v.global_paused || v.functions_of(module).contains(func)),
        module != other ==> v.set_module(module, true).0.function_paused(other, func) == v.function_paused(
            other,
            func,
        ),
{
}

/// Pausing a function that was not paused and then lifting that pause
/// gives back the module's list as it was, leaving other modules alone.
pub proof fn lemma_pause_function_round_trip(v: KillswitchView, module: Seq<u8>, func: Seq<u8>, other: Seq<u8>)
    requires
        v.admin is Some,
        !v.functions_of(module).contains(func),
        v.functions_of(module).len() < MAX_PAUSED_FUNCTIONS,
        module != other,
    ensures
        v.pause_function(module, func).1 is Ok,
        v.pause_function(module, func).0.function_paused(module, func),
        v.pause_function(module, func).0.unpause_function(module, func).0.functions_of(module) == v.functions_of(
            module,
        ),
        v.pause_function(module, func).0.unpause_function(module, func).0.functions_of(other) == v.functions_of(
            other,
        ),
{
    let s1 = v.pause_function(module, func).0;
    let l = v.functions_of(module);
    assert(s1.functions_of(module) == l.push(func));
    assert(l.push(func)[l.len() as int] == func);
    l.push(func).index_of_first_ensures(func);
    let i = l.push(func).index_of_first(func).unwrap();
    assert(i == l.len()) by {
        if i < l.len() {
            assert(l[i] == func);
        }
    }
    assert(l.push(func).remove(i) =~= l);
}

/// Lifting the pause of `func` in `module` (once the killswitch has an
/// admin) takes exactly that function off the module's list: afterwards it
/// is not listed, every other function keeps its place and order (the list
/// is the old one with `func`'s entry cut out), a function that was not
/// listed leaves the list as it was, and other modules are untouched.
pub proof fn lemma_unpause_function_removes_exactly(
    v: KillswitchView,
    module: Seq<u8>,
    func: Seq<u8>,
    other: Seq<u8>,
)
    requires
        v.admin is Some,
        v.functions_of(module).no_duplicates(),
    ensures
        v.unpause_function(module, func).1 is Ok,
        ({
            let before = v.functions_of(module);
            let after = v.unpause_function(module, func).0.functions_of(module);
            &&& !after.contains(func)
            &&& !v.unpause_function(module, func).0.function_paused(module, func) <==> !v.global_paused
                && !v.module_flag(module)
            &&& before.contains(func) ==> exists|i: int|
                0 <= i < before.len() && #[trigger] before[i] == func && after == before.remove(i)
            &&& !before.contains(func) ==> after == before
            &&& forall|g: Seq<u8>| g != func ==> (#[trigger] after.contains(g) <==> before.contains(g))
        }),
        module != other ==> v.unpause_function(module, func).0.functions_of(other) == v.functions_of(other),
{
    let before = v.functions_of(module);
    let after = v.unpause_function(module, func).0.functions_of(module);
    before.index_of_first_ensures(func);
    if before.contains(func) {
        let i = before.index_of_first(func).unwrap();
        assert(after == before.remove(i));
        assert(before[i] == func);
        assert(!after.contains(func)) by {
            if after.contains(func) {
                let k = choose|k: int| 0 <= k < after.len() && after[k] == func;
                if k < i {
                    assert(before[k] == func);
                } else {
                    assert(before[k + 1] == func);
                }
            }
        }
        assert forall|g: Seq<u8>| g != func implies (#[trigger] after.contains(g) <==> before.contains(g)) by {
            if after.contains(g) {
                let k = choose|k: int| 0 <= k < after.len() && after[k] == g;
                if k < i {
                    assert(before[k] == g);
                } else {
                    assert(before[k + 1] == g);
                }
            }
            if before.contains(g) {
                let k = choose|k: int| 0 <= k < before.len() && before[k] == g;
                if k < i {
                    assert(after[k] == g);
                } else {
                    assert(k != i);
                    assert(after[k - 1] == g);
                }
            }
        }
    }
}

/// An admin is never the contract's own address: both ways of setting one
/// refuse it, and a refused call changes nothing.
pub proof fn lemma_admin_never_contract(v: KillswitchView, admin: Seq<u8>, contract: Seq<u8>)
    ensures
        v.initialize(admin, contract).1 is Ok ==> admin != contract && v.initialize(admin, contract).0.admin
            == Some(admin),
        v.transfer_admin(admin, contract).1 is Ok ==> admin != contract && v.transfer_admin(
            admin,
            contract,
        ).0.admin == Some(admin) && v.admin != Some(admin),
        v.initialize(admin, contract).1 is Err ==> v.initialize(admin, contract).0 == v,
        v.transfer_admin(admin, contract).1 is Err ==> v.transfer_admin(admin, contract).0 == v,
{
}

} // verus!
