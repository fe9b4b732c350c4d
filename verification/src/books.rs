//! How the books of the contract hang together: when the entries on the ledger
//! agree with one another, what moves, and what is owed.
use crate::entries::{BillView, DepositEscrow, EffectView, PlanView, RoomView};
use crate::ledger_vec::Address;
use crate::model::{all_set, due, held, held_for, LedgerView};
use vstd::prelude::*;

verus! {

/// What the first `k` of `n` tenants owe for a bill.
pub open spec fn dues(total: int, share: int, n: int, k: int) -> int
    decreases k,
{
    if k <= 0 {
        0
    } else {
        dues(total, share, n, k - 1) + due(total, share, n, k - 1)
    }
}

/// What the first `k` of `n` tenants have paid.
pub open spec fn paid(bill: BillView, n: int, k: int) -> int
    decreases k,
{
    if k <= 0 {
        0
    } else {
        paid(bill, n, k - 1) + if bill.paid_flags[k - 1] {
            bill.due_from(n, k - 1)
        } else {
            0
        }
    }
}

/// The books of a bill for `n` tenants agree with one another.
pub open spec fn bill_valid(bill: BillView, n: int) -> bool {
    &&& bill.total_amount > 0
    &&& bill.share_per_tenant == bill.total_amount as int / n
    &&& bill.paid_flags.len() == n
    &&& bill.collected == paid(bill, n, n)
    &&& bill.settled == all_set(bill.paid_flags)
}

/// An escrow record is blank, holds the full deposit, or has been refunded.
pub open spec fn record_valid(record: DepositEscrow, tenant: Address, deposit: i128) -> bool {
    &&& record.tenant == tenant
    &&& record.amount == 0 || record.amount == deposit
    &&& record.refunded ==> record.amount == deposit
}

/// The books of a room agree with one another.
pub open spec fn room_valid(ledger: LedgerView, room: RoomView) -> bool {
    let n = room.tenants.len() as int;
    &&& n > 0
    &&& room.deposit_per_tenant > 0
    &&& forall|a: Address| #[trigger] ledger.escrows.contains_key(a) <==> room.tenants.contains(a)
    &&& forall|a: Address| #[trigger]
        ledger.escrows.contains_key(a) ==> record_valid(
            ledger.escrows[a],
            a,
            room.deposit_per_tenant,
        )
    &&& ledger.total_deposited is Some
    &&& ledger.deposited() == held_for(room.tenants, ledger.escrows, n)
    &&& ledger.landlord_approval is Some
    &&& ledger.tenant_approval is Some
    &&& ledger.bill is Some ==> bill_valid(ledger.bill->0, n)
}

/// The invariant of the contract.
pub open spec fn valid(ledger: LedgerView) -> bool {
    match ledger.room {
        None => ledger == LedgerView::empty(),
        Some(room) => room_valid(ledger, room),
    }
}

/// The tokens that a sequence of effects brings into the contract, less those
/// that it pays out. No party is taken to be the contract itself.
pub open spec fn inflow(effects: Seq<EffectView>) -> int
    decreases effects.len(),
{
    if effects.len() == 0 {
        0
    } else {
        inflow(effects.drop_last()) + match effects.last() {
            EffectView::Collect { token, from, amount } => amount as int,
            EffectView::PayOut { token, to, amount } => -amount,
            _ => 0,
        }
    }
}

/// What the contract must be able to pay: the deposits that it holds and what
/// it has collected of an open bill.
pub open spec fn owed(ledger: LedgerView) -> int {
    ledger.deposited() + match ledger.bill {
        Some(bill) => if bill.settled {
            0
        } else {
            bill.collected as int
        },
        None => 0,
    }
}

/// No effect is a payment out of the contract.
pub open spec fn pays_nothing(effects: Seq<EffectView>) -> bool {
    forall|i: int| 0 <= i < effects.len() ==> !((#[trigger] effects[i]) is PayOut)
}

/// The records after the first `k` tenants have been refunded.
pub open spec fn released(
    escrows: Map<Address, DepositEscrow>,
    tenants: Seq<Address>,
    k: int,
) -> Map<Address, DepositEscrow> {
    Map::new(
        |a: Address| escrows.contains_key(a),
        |a: Address|
            if tenants.take(k).contains(a) && held(escrows, a) > 0 {
                DepositEscrow { refunded: true, ..escrows[a] }
            } else {
                escrows[a]
            },
    )
}

/// What a sequence of effects pays out to `a`.
pub open spec fn paid_to(effects: Seq<EffectView>, a: Address) -> int
    decreases effects.len(),
{
    if effects.len() == 0 {
        0
    } else {
        paid_to(effects.drop_last(), a) + match effects.last() {
            EffectView::PayOut { token, to, amount } => if to == a {
                amount as int
            } else {
                0
            },
            _ => 0,
        }
    }
}

/// A call of the contract.
pub enum Call {
    InitializeRoom(RoomView),
    DepositFunds(Address),
    CreateBill(Address, i128),
    PayBillShare(Address),
    ResolveEscrow(Address, bool, bool),
}

impl Call {
    /// Who has to authorize the call.
    pub open spec fn party(self) -> Address {
        match self {
            Call::InitializeRoom(room) => room.landlord,
            Call::DepositFunds(tenant) => tenant,
            Call::CreateBill(caller, _) => caller,
            Call::PayBillShare(tenant) => tenant,
            Call::ResolveEscrow(caller, _, _) => caller,
        }
    }

    /// What the call does on a ledger.
    pub open spec fn plan(self, ledger: LedgerView) -> PlanView {
        match self {
            Call::InitializeRoom(room) => ledger.initialize_room(room),
            Call::DepositFunds(tenant) => ledger.deposit_funds(tenant),
            Call::CreateBill(caller, total_amount) => ledger.create_bill(caller, total_amount),
            Call::PayBillShare(tenant) => ledger.pay_bill_share(tenant),
            Call::ResolveEscrow(
                caller,
                landlord_approved,
                tenant_approved,
            ) => ledger.resolve_escrow(caller, landlord_approved, tenant_approved),
        }
    }

    /// The amounts that the call computes stay within the amount type.
    pub open spec fn fits(self, ledger: LedgerView) -> bool {
        match self {
            Call::InitializeRoom(_) => true,
            Call::DepositFunds(tenant) => ledger.deposit_fits(tenant),
            Call::CreateBill(caller, total_amount) => ledger.bill_fits(caller, total_amount),
            Call::PayBillShare(tenant) => ledger.share_fits(tenant),
            Call::ResolveEscrow(caller, landlord_approved, tenant_approved) => ledger.resolve_fits(
                caller,
                landlord_approved,
                tenant_approved,
            ),
        }
    }
}

/// What can happen to the contract: a call that the host carries out, or the
/// end of the temporary entry that holds the bill.
pub enum Step {
    Call(Call),
    BillExpires,
}

impl Step {
    /// The ledger after the step.
    pub open spec fn ledger(self, before: LedgerView) -> LedgerView {
        match self {
            Step::Call(call) => before.after(call.plan(before)),
            Step::BillExpires => LedgerView { bill: None, ..before },
        }
    }

    /// The tokens that come into the contract, less those that leave it.
    pub open spec fn received(self, before: LedgerView) -> int {
        match self {
            Step::Call(call) => if call.plan(before).result is Ok {
                inflow(call.plan(before).effects)
            } else {
                0
            },
            Step::BillExpires => 0,
        }
    }
}

/// The ledger after a history that starts with nothing.
pub open spec fn ledger_after(history: Seq<Step>) -> LedgerView
    decreases history.len(),
{
    if history.len() == 0 {
        LedgerView::empty()
    } else {
        history.last().ledger(ledger_after(history.drop_last()))
    }
}

/// What the contract holds after a history: all tokens that came in, less all
/// that left.
pub open spec fn balance_after(history: Seq<Step>) -> int
    decreases history.len(),
{
    if history.len() == 0 {
        0
    } else {
        balance_after(history.drop_last()) + history.last().received(
            ledger_after(history.drop_last()),
        )
    }
}

/// Every call of a history fits the ledger that it finds.
pub open spec fn history_fits(history: Seq<Step>) -> bool
    decreases history.len(),
{
    history.len() == 0 || {
        &&& history_fits(history.drop_last())
        &&& history.last() is Call ==> history.last()->Call_0.fits(
            ledger_after(history.drop_last()),
        )
    }
}

/// The ledger after the given tenants have paid their shares, one by one.
pub open spec fn after_payments(ledger: LedgerView, payers: Seq<Address>) -> LedgerView
    decreases payers.len(),
{
    if payers.len() == 0 {
        ledger
    } else {
        let before = after_payments(ledger, payers.drop_last());
        before.after(before.pay_bill_share(payers.last()))
    }
}

/// What `a` is paid while the given tenants pay their shares.
pub open spec fn paid_during(ledger: LedgerView, payers: Seq<Address>, a: Address) -> int
    decreases payers.len(),
{
    if payers.len() == 0 {
        0
    } else {
        let before = after_payments(ledger, payers.drop_last());
        paid_during(ledger, payers.drop_last(), a) + paid_to(
            before.pay_bill_share(payers.last()).effects,
            a,
        )
    }
}

} // verus!
