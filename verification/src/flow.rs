//! The multi-contract remittance flow as a state machine.
//!
//! The flow asks a family wallet whether the amount is within the caller's
//! spending limit, asks a split contract how to divide it, then contributes to
//! a savings goal, pays a bill and pays an insurance premium. Each of these is
//! a call into another contract, which the caller of this module performs: the
//! machine names the next call (`FlowRun::action`), and the caller hands the
//! reply back (`FlowRun::on_reply`, `FlowRun::on_split`).
//!
//! In the compensating mode (the signed entry point) a refused bill payment or
//! premium undoes the writes already applied before the flow ends with
//! `RemittanceFlowRolledBack`.

use vstd::prelude::*;

use crate::orchestrator::OrchestratorError;

verus! {

/// Identifies a step of the remittance flow.
#[derive(Clone, Copy, Debug, PartialEq, Eq, Structural)]
pub enum FlowStep {
    SpendingCheck,
    SplitCalculation,
    SavingsGoal,
    BillPayment,
    InsurancePremium,
}

impl FlowStep {
    /// The number that identifies the step on the ledger.
    pub fn code(&self) -> (c: u32)
        ensures
            c == self.spec_code(),
    {
        match self {
            FlowStep::SpendingCheck => 1,
            FlowStep::SplitCalculation => 2,
            FlowStep::SavingsGoal => 3,
            FlowStep::BillPayment => 4,
            FlowStep::InsurancePremium => 5,
        }
    }

    pub open spec fn spec_code(&self) -> u32 {
        match self {
            FlowStep::SpendingCheck => 1,
            FlowStep::SplitCalculation => 2,
            FlowStep::SavingsGoal => 3,
            FlowStep::BillPayment => 4,
            FlowStep::InsurancePremium => 5,
        }
    }
}

/// Where a flow stands: the call it waits on, or its end.
#[derive(Clone, Copy, Debug, PartialEq, Eq, Structural)]
pub enum FlowStage {
    /// Waiting on the family wallet's spending-limit check.
    Spending,
    /// Waiting on the split calculation.
    Split,
    /// Waiting on the savings-goal contribution.
    Savings,
    /// Waiting on the bill payment.
    Bill,
    /// Waiting on the insurance premium payment.
    Premium,
    /// Waiting on the reversal of the savings contribution.
    UndoSavings,
    /// Waiting on the reversal of the bill payment.
    UndoBill,
    /// Finished; the outcome is in `FlowRun::outcome`.
    Done,
}

/// The next thing the flow asks for.
#[derive(Clone, Copy, Debug)]
pub enum FlowAction {
    CheckSpendingLimit { amount: i128 },
    CalculateSplit { amount: i128 },
    AddToGoal { goal_id: u32, amount: i128 },
    PayBill { bill_id: u32, amount: i128 },
    PayPremium { policy_id: u32, amount: i128 },
    RemoveFromGoal { goal_id: u32, amount: i128 },
    ReversePayment { bill_id: u32, amount: i128 },
    Finish(Result<(), OrchestratorError>),
}

/// A remittance flow in progress.
#[derive(Clone, Copy, Debug)]
pub struct FlowRun {
    /// Whether refused writes undo the writes already applied.
    pub compensate: bool,
    pub amount: i128,
    pub goal_id: u32,
    pub bill_id: u32,
    pub policy_id: u32,
    pub stage: FlowStage,
    /// The split's savings, bills and insurance amounts, once known.
    pub savings: i128,
    pub bills: i128,
    pub premium: i128,
    /// Whether the savings contribution and the bill payment were applied.
    pub savings_done: bool,
    pub bills_done: bool,
    /// The result once `Done`; while undoing, the result that follows.
    pub outcome: Result<(), OrchestratorError>,
}

/// The stage that follows once the writes before `from` are settled: the first
/// write at or after `from` with a positive amount, else the end.
pub open spec fn first_write_from(from: FlowStage, savings: i128, bills: i128, premium: i128) -> FlowStage {
    if from == FlowStage::Savings && savings > 0 {
        FlowStage::Savings
    } else if (from == FlowStage::Savings || from == FlowStage::Bill) && bills > 0 {
        FlowStage::Bill
    } else if premium > 0 {
        FlowStage::Premium
    } else {
        FlowStage::Done
    }
}

impl FlowRun {
    /// The run is in a state the machine can reach.
    pub open spec fn wf(&self) -> bool {
        &&& self.savings_done ==> self.savings > 0
        &&& self.bills_done ==> self.bills > 0
        &&& (self.stage == FlowStage::UndoSavings || self.stage == FlowStage::UndoBill) ==> {
            &&& self.compensate
            &&& self.outcome == Err::<(), OrchestratorError>(OrchestratorError::RemittanceFlowRolledBack)
        }
        &&& self.stage == FlowStage::UndoSavings ==> self.savings_done
        &&& self.stage == FlowStage::UndoBill ==> self.bills_done
        &&& (self.stage == FlowStage::Spending || self.stage == FlowStage::Split) ==> !self.savings_done
            && !self.bills_done
        &&& self.stage == FlowStage::Savings ==> !self.savings_done && !self.bills_done && self.savings > 0
        &&& self.stage == FlowStage::Bill ==> !self.bills_done && self.bills > 0
        &&& self.stage == FlowStage::Premium ==> self.premium > 0
        &&& (self.stage == FlowStage::Bill || self.stage == FlowStage::Premium || self.succeeded()) ==> (
        self.savings > 0 ==> self.savings_done)
        &&& (self.stage == FlowStage::Premium || self.succeeded()) ==> (self.bills > 0 ==> self.bills_done)
    }

    /// The run ended in success.
    pub open spec fn succeeded(&self) -> bool {
        self.stage == FlowStage::Done && self.outcome is Ok
    }

    /// How many more calls the run may ask for, at most.
    pub open spec fn rank(&self) -> nat {
        match self.stage {
            FlowStage::Spending => 7,
            FlowStage::Split => 6,
            FlowStage::Savings => 5,
            FlowStage::Bill => 4,
            FlowStage::Premium => 3,
            FlowStage::UndoSavings => 2,
            FlowStage::UndoBill => 1,
            FlowStage::Done => 0,
        }
    }

    /// The run that starts with the spending-limit check.
    pub open spec fn initial(compensate: bool, amount: i128, goal_id: u32, bill_id: u32, policy_id: u32) -> FlowRun {
        FlowRun {
            compensate,
            amount,
            goal_id,
            bill_id,
            policy_id,
            stage: FlowStage::Spending,
            savings: 0,
            bills: 0,
            premium: 0,
            savings_done: false,
            bills_done: false,
            outcome: Ok(()),
        }
    }

    /// The run that has already ended with `outcome`.
    pub open spec fn ended(outcome: Result<(), OrchestratorError>) -> FlowRun {
        FlowRun {
            compensate: false,
            amount: 0,
            goal_id: 0,
            bill_id: 0,
            policy_id: 0,
            stage: FlowStage::Done,
            savings: 0,
            bills: 0,
            premium: 0,
            savings_done: false,
            bills_done: false,
            outcome,
        }
    }

    /// A run that starts with the spending-limit check.
    pub fn start(compensate: bool, amount: i128, goal_id: u32, bill_id: u32, policy_id: u32) -> (r: FlowRun)
        ensures
            r.wf(),
            r == FlowRun::initial(compensate, amount, goal_id, bill_id, policy_id),
    {
        FlowRun {
            compensate,
            amount,
            goal_id,
            bill_id,
            policy_id,
            stage: FlowStage::Spending,
            savings: 0,
            bills: 0,
            premium: 0,
            savings_done: false,
            bills_done: false,
            outcome: Ok(()),
        }
    }

    /// A run that has already ended with `outcome`.
    pub fn finished(outcome: Result<(), OrchestratorError>) -> (r: FlowRun)
        ensures
            r.wf(),
            r == FlowRun::ended(outcome),
    {
        FlowRun {
            compensate: false,
            amount: 0,
            goal_id: 0,
            bill_id: 0,
            policy_id: 0,
            stage: FlowStage::Done,
            savings: 0,
            bills: 0,
            premium: 0,
            savings_done: false,
            bills_done: false,
            outcome,
        }
    }

    pub open spec fn spec_action(&self) -> FlowAction {
        match self.stage {
            FlowStage::Spending => FlowAction::CheckSpendingLimit { amount: self.amount },
            FlowStage::Split => FlowAction::CalculateSplit { amount: self.amount },
            FlowStage::Savings => FlowAction::AddToGoal { goal_id: self.goal_id, amount: self.savings },
            FlowStage::Bill => FlowAction::PayBill { bill_id: self.bill_id, amount: self.bills },
            FlowStage::Premium => FlowAction::PayPremium { policy_id: self.policy_id, amount: self.premium },
            FlowStage::UndoSavings => FlowAction::RemoveFromGoal {
                goal_id: self.goal_id,
                amount: self.savings,
            },
            FlowStage::UndoBill => FlowAction::ReversePayment { bill_id: self.bill_id, amount: self.bills },
            FlowStage::Done => FlowAction::Finish(self.outcome),
        }
    }

    /// The call the flow waits on, or its end.
    pub fn action(&self) -> (a: FlowAction)
        ensures
            a == self.spec_action(),
    {
        match self.stage {
            FlowStage::Spending => FlowAction::CheckSpendingLimit { amount: self.amount },
            FlowStage::Split => FlowAction::CalculateSplit { amount: self.amount },
            FlowStage::Savings => FlowAction::AddToGoal { goal_id: self.goal_id, amount: self.savings },
            FlowStage::Bill => FlowAction::PayBill { bill_id: self.bill_id, amount: self.bills },
            FlowStage::Premium => FlowAction::PayPremium { policy_id: self.policy_id, amount: self.premium },
            FlowStage::UndoSavings => FlowAction::RemoveFromGoal {
                goal_id: self.goal_id,
                amount: self.savings,
            },
            FlowStage::UndoBill => FlowAction::ReversePayment { bill_id: self.bill_id, amount: self.bills },
            FlowStage::Done => FlowAction::Finish(self.outcome),
        }
    }

    /// The run waits on a call that answers yes or no (every call but the split).
    pub open spec fn awaits_flag(&self) -> bool {
        self.stage != FlowStage::Split && self.stage != FlowStage::Done
    }

    /// The run after a refused write: it ends, undoing first where it compensates.
    pub open spec fn spec_after_refusal(&self) -> FlowRun {
        if !self.compensate {
            FlowRun {
                stage: FlowStage::Done,
                outcome: Err(OrchestratorError::CrossContractCallFailed),
                ..*self
            }
        } else {
            FlowRun {
                stage: if self.savings_done {
                    FlowStage::UndoSavings
                } else if self.bills_done {
                    FlowStage::UndoBill
                } else {
                    FlowStage::Done
                },
                outcome: Err(OrchestratorError::RemittanceFlowRolledBack),
                ..*self
            }
        }
    }

    /// The run after the reply `ok` to the call it waits on.
    pub open spec fn spec_on_reply(&self, ok: bool) -> FlowRun {
        match self.stage {
            FlowStage::Spending => if ok {
                FlowRun { stage: FlowStage::Split, ..*self }
            } else {
                FlowRun { stage: FlowStage::Done, outcome: Err(OrchestratorError::Unauthorized), ..*self }
            },
            FlowStage::Savings => if ok {
                FlowRun {
                    stage: first_write_from(FlowStage::Bill, self.savings, self.bills, self.premium),
                    savings_done: true,
                    ..*self
                }
            } else {
                FlowRun {
                    stage: FlowStage::Done,
                    outcome: Err(OrchestratorError::CrossContractCallFailed),
                    ..*self
                }
            },
            FlowStage::Bill => if ok {
                FlowRun {
                    stage: first_write_from(FlowStage::Premium, self.savings, self.bills, self.premium),
                    bills_done: true,
                    ..*self
                }
            } else {
                self.spec_after_refusal()
            },
            FlowStage::Premium => if ok {
                FlowRun { stage: FlowStage::Done, ..*self }
            } else {
                self.spec_after_refusal()
            },
            FlowStage::UndoSavings => FlowRun {
                stage: if self.bills_done {
                    FlowStage::UndoBill
                } else {
                    FlowStage::Done
                },
                ..*self
            },
            FlowStage::UndoBill => FlowRun { stage: FlowStage::Done, ..*self },
            _ => *self,
        }
    }

    /// Takes the yes/no reply to the call the run waits on. The replies to the
    /// reversal calls are not read: the flow goes on whatever they say.
    pub fn on_reply(&mut self, ok: bool)
        requires
            old(self).wf(),
            old(self).awaits_flag(),
        ensures
            final(self).wf(),
            *final(self) == old(self).spec_on_reply(ok),
    {
        match self.stage {
            FlowStage::Spending => {
                if ok {
                    self.stage = FlowStage::Split;
                } else {
                    self.stage = FlowStage::Done;
                    self.outcome = Err(OrchestratorError::Unauthorized);
                }
            },
            FlowStage::Savings => {
                if ok {
                    self.savings_done = true;
                    self.stage = Self::first_write(FlowStage::Bill, self.savings, self.bills, self.premium);
                } else {
                    self.stage = FlowStage::Done;
                    self.outcome = Err(OrchestratorError::CrossContractCallFailed);
                }
            },
            FlowStage::Bill => {
                if ok {
                    self.bills_done = true;
                    self.stage = Self::first_write(FlowStage::Premium, self.savings, self.bills, self.premium);
                } else {
                    self.refuse();
                }
            },
            FlowStage::Premium => {
                if ok {
                    self.stage = FlowStage::Done;
                } else {
                    self.refuse();
                }
            },
            FlowStage::UndoSavings => {
                if self.bills_done {
                    self.stage = FlowStage::UndoBill;
                } else {
                    self.stage = FlowStage::Done;
                }
            },
            FlowStage::UndoBill => {
                self.stage = FlowStage::Done;
            },
            _ => {},
        }
    }

    fn refuse(&mut self)
        requires
            old(self).wf(),
            old(self).stage == FlowStage::Bill || old(self).stage == FlowStage::Premium,
        ensures
            final(self).wf(),
            *final(self) == old(self).spec_after_refusal(),
    {
        if !self.compensate {
            self.stage = FlowStage::Done;
            self.outcome = Err(OrchestratorError::CrossContractCallFailed);
        } else {
            self.outcome = Err(OrchestratorError::RemittanceFlowRolledBack);
            if self.savings_done {
                self.stage = FlowStage::UndoSavings;
            } else if self.bills_done {
                self.stage = FlowStage::UndoBill;
            } else {
                self.stage = FlowStage::Done;
            }
        }
    }

    fn first_write(from: FlowStage, savings: i128, bills: i128, premium: i128) -> (s: FlowStage)
        ensures
            s == first_write_from(from, savings, bills, premium),
    {
        if from == FlowStage::Savings && savings > 0 {
            FlowStage::Savings
        } else if (from == FlowStage::Savings || from == FlowStage::Bill) && bills > 0 {
            FlowStage::Bill
        } else if premium > 0 {
            FlowStage::Premium
        } else {
            FlowStage::Done
        }
    }

    /// The run after the split contract returned `allocations`: spending,
    /// savings, bills and insurance amounts, in that order.
    pub open spec fn spec_on_split(&self, allocations: Seq<i128>) -> FlowRun {
        if allocations.len() < 4 {
            FlowRun { stage: FlowStage::Done, outcome: Err(OrchestratorError::InvalidAmount), ..*self }
        } else {
            FlowRun {
                savings: allocations[1],
                bills: allocations[2],
                premium: allocations[3],
                stage: first_write_from(FlowStage::Savings, allocations[1], allocations[2], allocations[3]),
                ..*self
            }
        }
    }

    /// Takes the split contract's answer.
    pub fn on_split(&mut self, allocations: &Vec<i128>)
        requires
            old(self).wf(),
            old(self).stage == FlowStage::Split,
        ensures
            final(self).wf(),
            *final(self) == old(self).spec_on_split(allocations@),
    {
        if allocations.len() < 4 {
            self.stage = FlowStage::Done;
            self.outcome = Err(OrchestratorError::InvalidAmount);
        } else {
            self.savings = allocations[1];
            self.bills = allocations[2];
            self.premium = allocations[3];
            self.stage = Self::first_write(FlowStage::Savings, self.savings, self.bills, self.premium);
        }
    }
}


/// A flow that ends in success applied every write its split asked for: the
/// savings contribution and the bill payment whenever their amounts were
/// positive (and the premium, the last write, was accepted to get there).
pub proof fn lemma_success_applied_all_writes(run: FlowRun)
    requires
        run.wf(),
        run.succeeded(),
    ensures
        run.savings > 0 ==> run.savings_done,
        run.bills > 0 ==> run.bills_done,
{
}

/// The split's answer decides the amounts of the three writes by position:
/// the savings contribution carries allocation 1, the bill payment
/// allocation 2 and the premium allocation 3 (allocation 0 is the spending
/// share and is not written anywhere). With all three positive, the calls
/// come in that order, each accepted call leads to the next, and the flow
/// then ends in success.
pub proof fn lemma_split_routes_allocations(run: FlowRun, a: Seq<i128>)
    requires
        run.wf(),
        run.stage == FlowStage::Split,
        a.len() >= 4,
    ensures
        ({
            let r1 = run.spec_on_split(a);
            &&& r1.savings == a[1]
            &&& r1.bills == a[2]
            &&& r1.premium == a[3]
            &&& r1.goal_id == run.goal_id && r1.bill_id == run.bill_id && r1.policy_id == run.policy_id
            &&& a[1] > 0 ==> r1.spec_action() == FlowAction::AddToGoal { goal_id: run.goal_id, amount: a[1] }
            &&& a[1] <= 0 && a[2] > 0 ==> r1.spec_action() == FlowAction::PayBill {
                bill_id: run.bill_id,
                amount: a[2],
            }
            &&& a[1] <= 0 && a[2] <= 0 && a[3] > 0 ==> r1.spec_action() == FlowAction::PayPremium {
                policy_id: run.policy_id,
                amount: a[3],
            }
            &&& (a[1] > 0 && a[2] > 0 && a[3] > 0) ==> {
                let r2 = r1.spec_on_reply(true);
                let r3 = r2.spec_on_reply(true);
                &&& r2.spec_action() == FlowAction::PayBill { bill_id: run.bill_id, amount: a[2] }
                &&& r3.spec_action() == FlowAction::PayPremium { policy_id: run.policy_id, amount: a[3] }
                &&& r3.spec_on_reply(true).stage == FlowStage::Done
                &&& r3.spec_on_reply(true).outcome == run.outcome
            }
        }),
{
}

/// Every reply moves a running flow strictly closer to its end, so a flow
/// makes at most seven calls before it finishes.
pub proof fn lemma_flow_progress(run: FlowRun, ok: bool, allocations: Seq<i128>)
    requires
        run.wf(),
        run.stage != FlowStage::Done,
    ensures
        run.awaits_flag() ==> run.spec_on_reply(ok).rank() < run.rank(),
        run.stage == FlowStage::Split ==> run.spec_on_split(allocations).rank() < run.rank(),
        run.rank() <= 7,
{
}

/// In the compensating mode a refused bill payment or premium never ends the
/// flow while a write it applied is unreversed: the next call reverses the
/// savings contribution if it was applied, else the bill payment if it was
/// applied, and the flow ends in `RemittanceFlowRolledBack`.
pub proof fn lemma_refusal_reverses_applied_writes(run: FlowRun)
    requires
        run.wf(),
        run.compensate,
        run.stage == FlowStage::Bill || run.stage == FlowStage::Premium,
    ensures
        run.spec_on_reply(false).outcome == Err::<(), OrchestratorError>(
            OrchestratorError::RemittanceFlowRolledBack,
        ),
        run.savings_done ==> run.spec_on_reply(false).stage == FlowStage::UndoSavings,
        !run.savings_done && run.bills_done ==> run.spec_on_reply(false).stage == FlowStage::UndoBill,
        !run.savings_done && !run.bills_done ==> run.spec_on_reply(false).stage == FlowStage::Done,
        run.spec_on_reply(false).stage == FlowStage::UndoSavings ==> run.spec_on_reply(false).spec_on_reply(
            true,
        ).stage == (if run.bills_done {
            FlowStage::UndoBill
        } else {
            FlowStage::Done
        }),
{
}

} // verus!
