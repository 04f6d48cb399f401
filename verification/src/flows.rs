use crate::errors::CustomError;
use crate::model::{lemma_deposit_step, lemma_withdraw_step, LedgerModel};
use vstd::prelude::*;

verus! {

/// One value-moving operation of a depositor: a deposit or a withdrawal of
/// the given amount.
#[derive(Clone, Copy, Debug, PartialEq, Eq, Structural)]
pub enum FlowOp {
    Deposit(u64),
    Withdraw(u64),
}

/// The outcome of one operation issued by `caller` against `depositor`'s
/// record.
pub open spec fn flow_step(l: LedgerModel, depositor: u64, caller: u64, op: FlowOp) -> (
    LedgerModel,
    Result<(), CustomError>,
) {
    match op {
        FlowOp::Deposit(a) => l.deposit_step(depositor, caller, a),
        FlowOp::Withdraw(a) => l.withdraw_step(depositor, caller, a),
    }
}

/// The ledger after a whole sequence of operations, run in order; an
/// operation that fails leaves the ledger exactly as it was.
pub open spec fn apply_flow(l: LedgerModel, depositor: u64, caller: u64, ops: Seq<FlowOp>) -> LedgerModel
    decreases ops.len(),
{
    if ops.len() == 0 {
        l
    } else {
        apply_flow(flow_step(l, depositor, caller, ops[0]).0, depositor, caller, ops.drop_first())
    }
}

/// The sum of the amounts of the deposits that succeed along the run.
pub open spec fn flow_deposits(l: LedgerModel, depositor: u64, caller: u64, ops: Seq<FlowOp>) -> int
    decreases ops.len(),
{
    if ops.len() == 0 {
        0
    } else {
        let here: int = if flow_step(l, depositor, caller, ops[0]).1 is Ok && ops[0] is Deposit {
            ops[0]->Deposit_0 as int
        } else {
            0
        };
        here + flow_deposits(
            flow_step(l, depositor, caller, ops[0]).0,
            depositor,
            caller,
            ops.drop_first(),
        )
    }
}

/// The sum of the amounts of the withdrawals that succeed along the run.
pub open spec fn flow_withdrawals(l: LedgerModel, depositor: u64, caller: u64, ops: Seq<FlowOp>) -> int
    decreases ops.len(),
{
    if ops.len() == 0 {
        0
    } else {
        let here: int = if flow_step(l, depositor, caller, ops[0]).1 is Ok && ops[0] is Withdraw {
            ops[0]->Withdraw_0 as int
        } else {
            0
        };
        here + flow_withdrawals(
            flow_step(l, depositor, caller, ops[0]).0,
            depositor,
            caller,
            ops.drop_first(),
        )
    }
}

/// Law of single-depositor accounting: under any sequence of deposits and
/// withdrawals issued against one record, the ledger invariant is kept and
/// the recorded balance moves by exactly the successful deposits minus the
/// successful withdrawals. The law holds of every sequence, hence of every
/// prefix of a run: the balance is the net flow at every point.
pub proof fn lemma_balance_tracks_flows(
    l: LedgerModel,
    depositor: u64,
    caller: u64,
    ops: Seq<FlowOp>,
)
    requires
        l.wf(),
    ensures
        ({
            let l2 = apply_flow(l, depositor, caller, ops);
            &&& l2.wf()
            &&& l2.balance_of(depositor) == l.balance_of(depositor) + flow_deposits(
                l,
                depositor,
                caller,
                ops,
            ) - flow_withdrawals(l, depositor, caller, ops)
        }),
    decreases ops.len(),
{
    if ops.len() > 0 {
        let l1 = flow_step(l, depositor, caller, ops[0]).0;
        match ops[0] {
            FlowOp::Deposit(a) => lemma_deposit_step(l, depositor, caller, a),
            FlowOp::Withdraw(a) => lemma_withdraw_step(l, depositor, caller, a),
        }
        lemma_balance_tracks_flows(l1, depositor, caller, ops.drop_first());
    }
}

/// Law of the freshly initialized depositor: starting from a record with a
/// zero balance, after any sequence of deposits and withdrawals the recorded
/// balance equals the sum of the successful deposits minus the sum of the
/// successful withdrawals — and, being unsigned, is never negative.
pub proof fn lemma_depositor_balance_is_net_flow(
    l: LedgerModel,
    depositor: u64,
    caller: u64,
    ops: Seq<FlowOp>,
)
    requires
        l.wf(),
        l.balance_of(depositor) == 0,
    ensures
        apply_flow(l, depositor, caller, ops).balance_of(depositor) == flow_deposits(
            l,
            depositor,
            caller,
            ops,
        ) - flow_withdrawals(l, depositor, caller, ops),
        apply_flow(l, depositor, caller, ops).balance_of(depositor) >= 0,
{
    lemma_balance_tracks_flows(l, depositor, caller, ops);
}

} // verus!
