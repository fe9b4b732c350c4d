//! What holds of the contract as a whole.
use crate::books::{
    after_payments, balance_after, dues, history_fits, inflow, ledger_after, owed, paid_during,
    paid_to, pays_nothing, record_valid, released, valid, Call, Step,
};
use crate::entries::{BillView, DepositEscrow, EffectView, EntryView, Error, RoomView};
use crate::ledger_vec::Address;
use crate::lemmas::{
    lemma_all_recorded, lemma_apply_concat, lemma_apply_one, lemma_apply_push, lemma_ballot,
    lemma_blank_records, lemma_due_bounds, lemma_dues, lemma_everyone_paid, lemma_held_for_bound,
    lemma_held_for_insert, lemma_held_for_none, lemma_held_for_zero, lemma_inflow_falls,
    lemma_listed, lemma_no_refunds, lemma_open_bill, lemma_paid_bounds, lemma_paid_none,
    lemma_paid_to_concat, lemma_pays_nobody, lemma_recorded_prefix, lemma_refunds,
    lemma_refunds_paid_to, lemma_refunds_shape,
};
use crate::model::{
    all_set, blank_records, due, held, is_amount, position, recorded_prefix, refunds, LedgerView,
};
use vstd::prelude::*;

verus! {

/// The shares of a bill add up to the bill. Every tenant but the last owes the
/// equal share, rounded down. The last owes the remainder on top.
pub proof fn law_shares_add_up(total: int, n: int)
    requires
        total > 0,
        n > 0,
    ensures
        dues(total, total / n, n, n) == total,
        forall|i: int| 0 <= i < n - 1 ==> #[trigger] due(total, total / n, n, i) == total / n,
        due(total, total / n, n, n - 1) == total / n + total % n,
{
    let share = total / n;
    lemma_dues(total, share, n, n - 1);
    assert(total == n * share + total % n) by {
        vstd::arithmetic::div_mod::lemma_fundamental_div_mod(total, n);
    }
    assert(n * share == share * (n - 1) + share) by (nonlinear_arith);
}

/// A room that was set up is on the ledger, with nothing deposited, no vote cast
/// and a blank escrow record for each tenant. No token moves.
pub proof fn law_room_set_up(ledger: LedgerView, room: RoomView)
    requires
        valid(ledger),
        ledger.initialize_room(room).result is Ok,
    ensures
        ({
            let after = ledger.after(ledger.initialize_room(room));
            &&& valid(after)
            &&& after.room == Some(room)
            &&& after.bill is None
            &&& after.deposited() == 0
            &&& after.landlord_approval == Some(false)
            &&& after.tenant_approval == Some(false)
            &&& forall|a: Address| #[trigger]
                after.escrows.contains_key(a) <==> room.tenants.contains(a)
            &&& forall|a: Address| #[trigger]
                after.escrows.contains_key(a) ==> after.escrows[a] == (DepositEscrow {
                    tenant: a,
                    amount: 0,
                    refunded: false,
                })
        }),
        inflow(ledger.initialize_room(room).effects) == 0,
{
    let plan = ledger.initialize_room(room);
    let auth = EffectView::RequireAuth(room.landlord);
    let e1 = EffectView::Store(EntryView::Room(room));
    let e2 = EffectView::Store(EntryView::TotalDeposited(0));
    let e3 = EffectView::Store(EntryView::LandlordApproval(false));
    let e4 = EffectView::Store(EntryView::TenantApproval(false));
    let records = blank_records(room.tenants);
    let n = room.tenants.len() as int;
    let head = seq![auth].push(e1).push(e2).push(e3).push(e4);
    assert(plan.effects =~= head + records);
    lemma_apply_one(ledger, auth);
    lemma_apply_push(ledger, seq![auth], e1);
    lemma_apply_push(ledger, seq![auth].push(e1), e2);
    lemma_apply_push(ledger, seq![auth].push(e1).push(e2), e3);
    lemma_apply_push(ledger, seq![auth].push(e1).push(e2).push(e3), e4);
    lemma_apply_one(ledger, e1);
    lemma_apply_one(ledger, e2);
    lemma_apply_one(ledger, e3);
    lemma_apply_one(ledger, e4);
    lemma_apply_concat(ledger, head, records);
    let middle = ledger.apply_all(head);
    assert(records.take(n) =~= records);
    assert(room.tenants.take(n) =~= room.tenants);
    lemma_blank_records(middle, room.tenants, n);
    let after = ledger.after(plan);
    lemma_held_for_none(room.tenants, after.escrows, n);
}

/// A deposit that was paid is on the tenant's record and in the total. Nothing
/// else changes, and exactly the deposit moves into the contract.
pub proof fn law_deposit_recorded(ledger: LedgerView, tenant: Address)
    requires
        valid(ledger),
        ledger.deposit_fits(tenant),
        ledger.deposit_funds(tenant).result is Ok,
    ensures
        ({
            let deposit = ledger.room->0.deposit_per_tenant;
            let after = ledger.after(ledger.deposit_funds(tenant));
            &&& valid(after)
            &&& after == LedgerView {
                escrows: ledger.escrows.insert(
                    tenant,
                    DepositEscrow { tenant, amount: deposit, refunded: false },
                ),
                total_deposited: Some((ledger.deposited() + deposit) as i128),
                ..ledger
            }
            &&& after.deposited() == ledger.deposited() + deposit
            &&& inflow(ledger.deposit_funds(tenant).effects) == deposit
        }),
{
    let room = ledger.room->0;
    let n = room.tenants.len() as int;
    let deposit = room.deposit_per_tenant;
    let plan = ledger.deposit_funds(tenant);
    let record = DepositEscrow { amount: deposit, ..ledger.escrows[tenant] };
    let total = (ledger.deposited() + deposit) as i128;
    let auth = EffectView::RequireAuth(tenant);
    let e1 = EffectView::Collect { token: room.usdc_token, from: tenant, amount: deposit };
    let e2 = EffectView::Store(EntryView::Escrow(tenant, record));
    let e3 = EffectView::Store(EntryView::TotalDeposited(total));
    assert(plan.effects =~= seq![auth].push(e1).push(e2).push(e3));
    lemma_apply_one(ledger, auth);
    lemma_apply_push(ledger, seq![auth], e1);
    lemma_apply_push(ledger, seq![auth].push(e1), e2);
    lemma_apply_push(ledger, seq![auth].push(e1).push(e2), e3);
    lemma_apply_one(ledger, e1);
    lemma_apply_one(ledger, e2);
    lemma_apply_one(ledger, e3);
    assert(record_valid(ledger.escrows[tenant], tenant, deposit));
    lemma_listed(room.tenants, tenant);
    lemma_held_for_insert(room.tenants, ledger.escrows, tenant, record, n);
}

/// A bill that was issued is on the ledger with no share paid. Nothing else
/// changes and no token moves.
pub proof fn law_bill_issued(ledger: LedgerView, caller: Address, total_amount: i128)
    requires
        valid(ledger),
        ledger.create_bill(caller, total_amount).result is Ok,
    ensures
        ({
            let n = ledger.room->0.tenants.len();
            let after = ledger.after(ledger.create_bill(caller, total_amount));
            &&& valid(after)
            &&& after == LedgerView { bill: Some(BillView::issued(total_amount, n)), ..ledger }
            &&& inflow(ledger.create_bill(caller, total_amount).effects) == 0
        }),
{
    let n = ledger.room->0.tenants.len();
    let plan = ledger.create_bill(caller, total_amount);
    let bill = BillView::issued(total_amount, n);
    let auth = EffectView::RequireAuth(caller);
    let e1 = EffectView::Store(EntryView::Bill(bill));
    assert(plan.effects =~= seq![auth].push(e1));
    lemma_apply_one(ledger, auth);
    lemma_apply_push(ledger, seq![auth], e1);
    lemma_apply_one(ledger, e1);
    lemma_due_bounds(total_amount as int, n as int, 0);
    vstd::arithmetic::div_mod::lemma_div_is_ordered_by_denominator(
        total_amount as int,
        1,
        n as int,
    );
    lemma_paid_none(bill, n as int, n as int);
    assert(!bill.paid_flags[0]);
}

/// A share that was paid is on the bill. The tenant is charged what is due.
/// While shares are open nothing is paid out. The share that completes the bill
/// settles it and sends the landlord exactly the amount of the bill.
pub proof fn law_share_paid(ledger: LedgerView, tenant: Address)
    requires
        valid(ledger),
        ledger.pay_bill_share(tenant).result is Ok,
    ensures
        ({
            let room = ledger.room->0;
            let bill = ledger.bill->0;
            let n = room.tenants.len() as int;
            let i = position(room.tenants, tenant);
            let plan = ledger.pay_bill_share(tenant);
            let after = ledger.after(plan);
            let charge = EffectView::Collect {
                token: room.usdc_token,
                from: tenant,
                amount: bill.due_from(n, i) as i128,
            };
            let payout = EffectView::PayOut {
                token: room.usdc_token,
                to: room.landlord,
                amount: bill.total_amount,
            };
            let write = EffectView::Store(EntryView::Bill(bill.paid_by(n, i)));
            let auth = EffectView::RequireAuth(tenant);
            &&& valid(after)
            &&& after == LedgerView { bill: Some(bill.paid_by(n, i)), ..ledger }
            &&& is_amount(bill.due_from(n, i))
            &&& after.bill->0.collected == bill.collected + bill.due_from(n, i)
            &&& after.bill->0.settled <==> all_set(bill.paid_flags.update(i, true))
            &&& !after.bill->0.settled ==> plan.effects == seq![auth, charge, write]
            &&& after.bill->0.settled ==> {
                &&& plan.effects == seq![auth, charge, payout, write]
                &&& after.bill->0.collected == bill.total_amount
            }
            &&& inflow(plan.effects) == bill.due_from(n, i) - if after.bill->0.settled {
                bill.total_amount as int
            } else {
                0
            }
        }),
{
    let room = ledger.room->0;
    let bill = ledger.bill->0;
    let n = room.tenants.len() as int;
    let i = position(room.tenants, tenant);
    let plan = ledger.pay_bill_share(tenant);
    lemma_listed(room.tenants, tenant);
    lemma_open_bill(bill, n, i);
    let settled = bill.paid_by(n, i);
    let auth = EffectView::RequireAuth(tenant);
    let charge = EffectView::Collect {
        token: room.usdc_token,
        from: tenant,
        amount: bill.due_from(n, i) as i128,
    };
    let payout = EffectView::PayOut {
        token: room.usdc_token,
        to: room.landlord,
        amount: settled.collected,
    };
    let write = EffectView::Store(EntryView::Bill(settled));
    lemma_apply_one(ledger, auth);
    lemma_apply_push(ledger, seq![auth], charge);
    lemma_apply_one(ledger, charge);
    lemma_apply_one(ledger, payout);
    lemma_apply_one(ledger, write);
    if settled.settled {
        assert(plan.effects =~= seq![auth].push(charge).push(payout).push(write));
        assert(plan.effects =~= seq![auth, charge, payout, write]);
        lemma_apply_push(ledger, seq![auth].push(charge), payout);
        lemma_apply_push(ledger, seq![auth].push(charge).push(payout), write);
    } else {
        assert(plan.effects =~= seq![auth].push(charge).push(write));
        assert(plan.effects =~= seq![auth, charge, write]);
        lemma_apply_push(ledger, seq![auth].push(charge), write);
    }
}

/// A vote is on the ledger. Without agreement that is all: no token moves and
/// the deposits stay where they are.
pub proof fn law_deposits_locked(
    ledger: LedgerView,
    caller: Address,
    landlord_approved: bool,
    tenant_approved: bool,
)
    requires
        valid(ledger),
        ledger.resolve_escrow(caller, landlord_approved, tenant_approved).result is Ok,
        !ledger.agreed(caller, landlord_approved, tenant_approved),
    ensures
        ({
            let plan = ledger.resolve_escrow(caller, landlord_approved, tenant_approved);
            let after = ledger.after(plan);
            &&& valid(after)
            &&& after == LedgerView {
                landlord_approval: Some(ledger.landlord_vote(caller, landlord_approved)),
                tenant_approval: Some(ledger.tenant_vote(caller, tenant_approved)),
                ..ledger
            }
            &&& pays_nothing(plan.effects)
            &&& inflow(plan.effects) == 0
        }),
{
    lemma_ballot(ledger, caller, landlord_approved, tenant_approved);
}

/// On agreement every tenant is paid the deposit held for them and nobody else
/// is paid anything. The records are marked and nothing remains deposited.
pub proof fn law_deposits_released(
    ledger: LedgerView,
    caller: Address,
    landlord_approved: bool,
    tenant_approved: bool,
)
    requires
        valid(ledger),
        ledger.resolve_escrow(caller, landlord_approved, tenant_approved).result is Ok,
        ledger.agreed(caller, landlord_approved, tenant_approved),
    ensures
        ({
            let tenants = ledger.room->0.tenants;
            let plan = ledger.resolve_escrow(caller, landlord_approved, tenant_approved);
            let after = ledger.after(plan);
            &&& valid(after)
            &&& after == LedgerView {
                escrows: released(ledger.escrows, tenants, tenants.len() as int),
                total_deposited: Some(0),
                landlord_approval: Some(true),
                tenant_approval: Some(true),
                ..ledger
            }
            &&& forall|a: Address|
                #![trigger after.escrows[a]]
                after.escrows.contains_key(a) && after.escrows[a].amount > 0
                    ==> after.escrows[a].refunded
            &&& forall|a: Address| #[trigger]
                paid_to(plan.effects, a) == if tenants.contains(a) {
                    held(ledger.escrows, a)
                } else {
                    0
                }
            &&& inflow(plan.effects) == -ledger.deposited()
        }),
{
    let room = ledger.room->0;
    let n = room.tenants.len() as int;
    let plan = ledger.resolve_escrow(caller, landlord_approved, tenant_approved);
    let voted = seq![EffectView::RequireAuth(caller)] + ledger.ballot(
        caller,
        landlord_approved,
        tenant_approved,
    );
    let paying = refunds(room, ledger.escrows, n);
    let write = EffectView::Store(EntryView::TotalDeposited(0));
    lemma_all_recorded(ledger);
    assert(plan.effects =~= voted + paying + seq![write]);
    lemma_ballot(ledger, caller, landlord_approved, tenant_approved);
    lemma_apply_concat(ledger, voted + paying, seq![write]);
    lemma_apply_concat(ledger, voted, paying);
    let middle = ledger.apply_all(voted);
    lemma_refunds(middle, room, n);
    lemma_apply_one(middle.apply_all(paying), write);
    assert(room.tenants.take(n) =~= room.tenants);
    let after = ledger.after(plan);
    lemma_held_for_none(room.tenants, after.escrows, n);
    assert forall|a: Address| #[trigger] paid_to(plan.effects, a) == if room.tenants.contains(a) {
        held(ledger.escrows, a)
    } else {
        0
    } by {
        lemma_paid_to_concat(voted + paying, seq![write], a);
        lemma_paid_to_concat(voted, paying, a);
        lemma_pays_nobody(voted, a);
        lemma_pays_nobody(seq![write], a);
        lemma_refunds_paid_to(room, ledger.escrows, n, a);
    }
}

/// Once the deposits have been released, no later vote pays anything until
/// another deposit is paid.
pub proof fn law_no_second_refund(
    ledger: LedgerView,
    caller: Address,
    landlord_approved: bool,
    tenant_approved: bool,
)
    requires
        valid(ledger),
        ledger.deposited() == 0,
    ensures
        pays_nothing(ledger.resolve_escrow(caller, landlord_approved, tenant_approved).effects),
        ledger.after(
            ledger.resolve_escrow(caller, landlord_approved, tenant_approved),
        ).escrows == ledger.escrows,
{
    let plan = ledger.resolve_escrow(caller, landlord_approved, tenant_approved);
    if ledger.room is Some {
        let room = ledger.room->0;
        let n = room.tenants.len() as int;
        lemma_all_recorded(ledger);
        lemma_held_for_zero(room.tenants, ledger.escrows, n);
        lemma_no_refunds(room, ledger.escrows, n);
        if plan.result is Ok {
            lemma_ballot(ledger, caller, landlord_approved, tenant_approved);
            if ledger.agreed(caller, landlord_approved, tenant_approved) {
                law_deposits_released(ledger, caller, landlord_approved, tenant_approved);
                assert(released(ledger.escrows, room.tenants, n) =~= ledger.escrows) by {
                    assert forall|a: Address| room.tenants.take(n).contains(a) implies held(
                        ledger.escrows,
                        a,
                    ) == 0 by {
                        lemma_listed(room.tenants.take(n), a);
                    }
                }
            } else {
                law_deposits_locked(ledger, caller, landlord_approved, tenant_approved);
            }
        }
    }
}

/// No one gets at the deposits alone: after a call that lowers their total, the
/// votes of both sides stand at approval.
pub proof fn law_no_unilateral_release(ledger: LedgerView, call: Call)
    requires
        valid(ledger),
        call.fits(ledger),
    ensures
        ({
            let after = ledger.after(call.plan(ledger));
            after.deposited() < ledger.deposited() ==> {
                &&& call is ResolveEscrow
                &&& after.landlord_approval == Some(true)
                &&& after.tenant_approval == Some(true)
            }
        }),
{
    if call.plan(ledger).result is Ok {
        match call {
            Call::InitializeRoom(room) => law_room_set_up(ledger, room),
            Call::DepositFunds(tenant) => law_deposit_recorded(ledger, tenant),
            Call::CreateBill(caller, total_amount) => law_bill_issued(ledger, caller, total_amount),
            Call::PayBillShare(tenant) => law_share_paid(ledger, tenant),
            Call::ResolveEscrow(caller, landlord_approved, tenant_approved) => {
                if ledger.agreed(caller, landlord_approved, tenant_approved) {
                    law_deposits_released(ledger, caller, landlord_approved, tenant_approved);
                } else {
                    law_deposits_locked(ledger, caller, landlord_approved, tenant_approved);
                }
            },
        }
    }
}

/// Each side changes its own vote only.
pub proof fn law_own_vote_only(
    ledger: LedgerView,
    caller: Address,
    landlord_approved: bool,
    tenant_approved: bool,
)
    requires
        valid(ledger),
        ledger.room is Some,
    ensures
        ({
            let after = ledger.after(
                ledger.resolve_escrow(caller, landlord_approved, tenant_approved),
            );
            &&& caller != ledger.room->0.landlord ==> after.landlord_approval
                == ledger.landlord_approval
            &&& !ledger.room->0.tenants.contains(caller) ==> after.tenant_approval
                == ledger.tenant_approval
        }),
{
    if ledger.resolve_escrow(caller, landlord_approved, tenant_approved).result is Ok {
        if ledger.agreed(caller, landlord_approved, tenant_approved) {
            law_deposits_released(ledger, caller, landlord_approved, tenant_approved);
        } else {
            law_deposits_locked(ledger, caller, landlord_approved, tenant_approved);
        }
    }
}

/// With valid books no call runs into the limits of the amount type, except
/// that all deposits together must be an amount.
pub proof fn law_within_limits(ledger: LedgerView, call: Call)
    requires
        valid(ledger),
        call is DepositFunds && ledger.room is Some ==> is_amount(
            ledger.room->0.deposit_per_tenant * ledger.room->0.tenants.len(),
        ),
    ensures
        call.fits(ledger),
{
    if ledger.room is Some {
        let room = ledger.room->0;
        let n = room.tenants.len() as int;
        let deposit = room.deposit_per_tenant as int;
        match call {
            Call::DepositFunds(tenant) => {
                if room.tenants.contains(tenant) && ledger.deposit_refusal(tenant) is None {
                    let p = position(room.tenants, tenant);
                    lemma_listed(room.tenants, tenant);
                    assert forall|i: int| 0 <= i < n implies 0 <= held(
                        ledger.escrows,
                        #[trigger] room.tenants[i],
                    ) <= deposit by {
                        assert(ledger.escrows.contains_key(room.tenants[i]));
                    }
                    lemma_held_for_bound(room.tenants, ledger.escrows, deposit, p, n);
                    assert(deposit * (n - 1) + deposit == deposit * n) by (nonlinear_arith);
                }
            },
            Call::PayBillShare(tenant) => {
                if room.tenants.contains(tenant) && ledger.share_refusal(tenant) is None {
                    lemma_listed(room.tenants, tenant);
                    lemma_open_bill(ledger.bill->0, n, position(room.tenants, tenant));
                }
            },
            Call::ResolveEscrow(_, _, _) => {
                lemma_all_recorded(ledger);
            },
            _ => {},
        }
    }
}

/// Every call keeps the books valid.
pub proof fn law_books_stay_valid(ledger: LedgerView, call: Call)
    requires
        valid(ledger),
        call.fits(ledger),
    ensures
        valid(ledger.after(call.plan(ledger))),
{
    if call.plan(ledger).result is Ok {
        lemma_call(ledger, call);
    }
}

/// What a call brings into the contract or takes out of it is exactly what the
/// books gain or lose.
pub proof fn law_tokens_match_books(ledger: LedgerView, call: Call)
    requires
        valid(ledger),
        call.fits(ledger),
        call.plan(ledger).result is Ok,
    ensures
        inflow(call.plan(ledger).effects) == owed(ledger.after(call.plan(ledger))) - owed(ledger),
{
    lemma_call(ledger, call);
}

/// What the books of any state and call come to.
proof fn lemma_call(ledger: LedgerView, call: Call)
    requires
        valid(ledger),
        call.fits(ledger),
        call.plan(ledger).result is Ok,
    ensures
        valid(ledger.after(call.plan(ledger))),
        inflow(call.plan(ledger).effects) == owed(ledger.after(call.plan(ledger))) - owed(ledger),
{
    match call {
        Call::InitializeRoom(room) => law_room_set_up(ledger, room),
        Call::DepositFunds(tenant) => law_deposit_recorded(ledger, tenant),
        Call::CreateBill(caller, total_amount) => law_bill_issued(ledger, caller, total_amount),
        Call::PayBillShare(tenant) => law_share_paid(ledger, tenant),
        Call::ResolveEscrow(caller, landlord_approved, tenant_approved) => {
            if ledger.agreed(caller, landlord_approved, tenant_approved) {
                law_deposits_released(ledger, caller, landlord_approved, tenant_approved);
            } else {
                law_deposits_locked(ledger, caller, landlord_approved, tenant_approved);
            }
        },
    }
}

/// At every point of its life the books of the contract are valid and it holds
/// at least what it owes; exactly that, as long as no bill entry has expired.
pub proof fn law_balance_covers_debts(history: Seq<Step>)
    requires
        history_fits(history),
    ensures
        valid(ledger_after(history)),
        balance_after(history) >= owed(ledger_after(history)),
        (forall|i: int| 0 <= i < history.len() ==> (#[trigger] history[i]) is Call)
            ==> balance_after(history) == owed(ledger_after(history)),
    decreases history.len(),
{
    if history.len() > 0 {
        let before = ledger_after(history.drop_last());
        law_balance_covers_debts(history.drop_last());
        if forall|i: int| 0 <= i < history.len() ==> (#[trigger] history[i]) is Call {
            assert forall|i: int| 0 <= i < history.drop_last().len() implies (
            #[trigger] history.drop_last()[i]) is Call by {
                assert(history.drop_last()[i] == history[i]);
            }
            assert(history[history.len() - 1] is Call);
        }
        match history.last() {
            Step::Call(call) => {
                law_books_stay_valid(before, call);
                if call.plan(before).result is Ok {
                    law_tokens_match_books(before, call);
                }
            },
            Step::BillExpires => {
                lemma_owes_nothing_less(before);
            },
        }
    }
}

/// A contract that holds what it owes can make every payment of a call at the
/// moment it is made.
pub proof fn law_payouts_covered(ledger: LedgerView, call: Call, k: int)
    requires
        valid(ledger),
        call.fits(ledger),
        call.plan(ledger).result is Ok,
        0 <= k <= call.plan(ledger).effects.len(),
    ensures
        owed(ledger) + inflow(call.plan(ledger).effects.take(k)) >= 0,
{
    let plan = call.plan(ledger);
    let effects = plan.effects;
    lemma_owes_nothing_less(ledger);
    lemma_call(ledger, call);
    lemma_owes_nothing_less(ledger.after(plan));
    match call {
        Call::PayBillShare(tenant) => {
            let room = ledger.room->0;
            let bill = ledger.bill->0;
            let n = room.tenants.len() as int;
            let i = position(room.tenants, tenant);
            law_share_paid(ledger, tenant);
            lemma_listed(room.tenants, tenant);
            lemma_open_bill(bill, n, i);
            let settled = ledger.after(plan).bill->0.settled;
            let auth = effects[0];
            let charge = effects[1];
            assert(effects.len() == if settled {
                4nat
            } else {
                3nat
            });
            assert(charge == EffectView::Collect {
                token: room.usdc_token,
                from: tenant,
                amount: bill.due_from(n, i) as i128,
            });
            lemma_apply_one(ledger, auth);
            lemma_apply_one(ledger, charge);
            lemma_apply_one(ledger, effects[2]);
            lemma_apply_push(ledger, seq![auth], charge);
            lemma_apply_push(ledger, seq![auth].push(charge), effects[2]);
            if k == 0 {
                assert(effects.take(k) =~= Seq::empty());
            } else if k == 1 {
                assert(effects.take(k) =~= seq![auth]);
            } else if k == 2 {
                assert(effects.take(k) =~= seq![auth].push(charge));
            } else if k == 3 {
                assert(effects.take(k) =~= seq![auth].push(charge).push(effects[2]));
            } else {
                assert(effects.take(k) =~= effects);
            }
        },
        Call::DepositFunds(tenant) => {
            let auth = effects[0];
            let charge = effects[1];
            lemma_apply_one(ledger, auth);
            lemma_apply_one(ledger, charge);
            lemma_apply_one(ledger, effects[2]);
            lemma_apply_push(ledger, seq![auth], charge);
            lemma_apply_push(ledger, seq![auth].push(charge), effects[2]);
            if k == 0 {
                assert(effects.take(k) =~= Seq::empty());
            } else if k == 1 {
                assert(effects.take(k) =~= seq![auth]);
            } else if k == 2 {
                assert(effects.take(k) =~= seq![auth].push(charge));
            } else if k == 3 {
                assert(effects.take(k) =~= seq![auth].push(charge).push(effects[2]));
            } else {
                assert(effects.take(k) =~= effects);
            }
        },
        _ => {
            lemma_only_pays_out(ledger, call);
            lemma_inflow_falls(effects, k);
        },
    }
}

/// What is owed is never less than nothing.
proof fn lemma_owes_nothing_less(ledger: LedgerView)
    requires
        valid(ledger),
    ensures
        0 <= ledger.deposited() <= owed(ledger),
{
    if ledger.room is Some {
        let n = ledger.room->0.tenants.len() as int;
        lemma_all_recorded(ledger);
        if ledger.bill is Some {
            lemma_paid_bounds(ledger.bill->0, n, n);
        }
    }
}

/// Setting up a room, issuing a bill and voting collect nothing.
proof fn lemma_only_pays_out(ledger: LedgerView, call: Call)
    requires
        call is InitializeRoom || call is CreateBill || call is ResolveEscrow,
    ensures
        forall|i: int|
            0 <= i < call.plan(ledger).effects.len() ==> match #[trigger] call.plan(
                ledger,
            ).effects[i] {
                EffectView::Collect { token, from, amount } => false,
                EffectView::PayOut { token, to, amount } => amount >= 0 && token
                    == ledger.room->0.usdc_token,
                _ => true,
            },
{
    if call is ResolveEscrow && ledger.room is Some {
        let room = ledger.room->0;
        lemma_recorded_prefix(room.tenants, ledger.escrows);
        lemma_refunds_shape(room, ledger.escrows, recorded_prefix(room.tenants, ledger.escrows));
    }
}

/// Nothing happens without the authorization of the party in whose name the
/// call is made: it is asked for ahead of everything else. Tokens are collected
/// from that party only, and every transfer is made in the token of the room.
pub proof fn law_authorized(ledger: LedgerView, call: Call)
    ensures
        ({
            let plan = call.plan(ledger);
            let token_of_room = ledger.room->0.usdc_token;
            &&& plan.effects.len() > 0 ==> plan.effects[0] == EffectView::RequireAuth(call.party())
            &&& plan.result is Ok ==> plan.effects.len() > 0
            &&& forall|i: int|
                0 <= i < plan.effects.len() ==> match #[trigger] plan.effects[i] {
                    EffectView::Collect { token, from, amount } => from == call.party() && token
                        == token_of_room,
                    EffectView::PayOut { token, to, amount } => token == token_of_room,
                    _ => true,
                }
        }),
{
    if call is InitializeRoom || call is CreateBill || call is ResolveEscrow {
        lemma_only_pays_out(ledger, call);
    }
}

/// A room is set up once. Nothing changes it afterwards.
pub proof fn law_room_is_permanent(ledger: LedgerView, call: Call)
    requires
        valid(ledger),
        call.fits(ledger),
        ledger.room is Some,
    ensures
        ledger.after(call.plan(ledger)).room == ledger.room,
        call is InitializeRoom ==> call.plan(ledger).result == Err::<(), Error>(
            Error::AlreadyInitialized,
        ),
{
    if call.plan(ledger).result is Ok {
        lemma_kept(ledger, call);
    }
}

/// A deposit that was paid stays on record, so that it cannot be paid again, and
/// one that was refunded stays refunded.
pub proof fn law_deposit_once(ledger: LedgerView, call: Call, tenant: Address)
    requires
        valid(ledger),
        call.fits(ledger),
        ledger.escrows.contains_key(tenant),
        ledger.escrows[tenant].amount > 0,
    ensures
        ledger.deposit_funds(tenant).result == Err::<(), Error>(Error::DepositAlreadyPaid),
        ({
            let after = ledger.after(call.plan(ledger));
            &&& after.escrows.contains_key(tenant)
            &&& after.escrows[tenant].amount == ledger.escrows[tenant].amount
            &&& ledger.escrows[tenant].refunded ==> after.escrows[tenant].refunded
        }),
{
    if call.plan(ledger).result is Ok {
        lemma_kept(ledger, call);
    }
}

/// What no call takes away.
proof fn lemma_kept(ledger: LedgerView, call: Call)
    requires
        valid(ledger),
        call.fits(ledger),
        ledger.room is Some,
        call.plan(ledger).result is Ok,
    ensures
        ({
            let after = ledger.after(call.plan(ledger));
            &&& after.room == ledger.room
            &&& forall|a: Address| #[trigger]
                ledger.escrows.contains_key(a) && ledger.escrows[a].amount > 0 ==> {
                    &&& after.escrows.contains_key(a)
                    &&& after.escrows[a].amount == ledger.escrows[a].amount
                    &&& ledger.escrows[a].refunded ==> after.escrows[a].refunded
                }
        }),
{
    match call {
        Call::InitializeRoom(_) => {},
        Call::DepositFunds(tenant) => law_deposit_recorded(ledger, tenant),
        Call::CreateBill(caller, total_amount) => law_bill_issued(ledger, caller, total_amount),
        Call::PayBillShare(tenant) => law_share_paid(ledger, tenant),
        Call::ResolveEscrow(caller, landlord_approved, tenant_approved) => {
            if ledger.agreed(caller, landlord_approved, tenant_approved) {
                law_deposits_released(ledger, caller, landlord_approved, tenant_approved);
            } else {
                law_deposits_locked(ledger, caller, landlord_approved, tenant_approved);
            }
        },
    }
}

/// A share is paid once: the tenant who has paid is turned away, and so is
/// everyone once the bill is settled.
pub proof fn law_share_once(ledger: LedgerView, tenant: Address, other: Address)
    requires
        valid(ledger),
        ledger.pay_bill_share(tenant).result is Ok,
        ledger.room->0.tenants.contains(other),
    ensures
        ({
            let after = ledger.after(ledger.pay_bill_share(tenant));
            &&& after.bill->0.settled ==> after.pay_bill_share(other).result == Err::<(), Error>(
                Error::BillAlreadySettled,
            )
            &&& !after.bill->0.settled ==> after.pay_bill_share(tenant).result == Err::<(), Error>(
                Error::ShareAlreadyPaid,
            )
        }),
{
    law_share_paid(ledger, tenant);
    lemma_listed(ledger.room->0.tenants, tenant);
}

/// There is one open bill at a time: the landlord can issue a bill exactly while
/// none is open.
pub proof fn law_one_open_bill(ledger: LedgerView, total_amount: i128)
    requires
        ledger.room is Some,
        total_amount > 0,
    ensures
        ledger.create_bill(ledger.room->0.landlord, total_amount).result == if ledger.bill is Some
            && !ledger.bill->0.settled {
            Err(Error::BillAlreadyActive)
        } else {
            Ok(())
        },
{
}

/// Every call has those who may make it: tenants pay deposits and shares, the
/// landlord issues bills, and the two sides vote. Anyone else is turned away with
/// the error for it, and nothing changes.
pub proof fn law_roles_enforced(ledger: LedgerView, call: Call)
    requires
        ledger.room is Some,
    ensures
        ({
            let room = ledger.room->0;
            let party = call.party();
            let plan = call.plan(ledger);
            let (entitled, error) = match call {
                Call::InitializeRoom(_) => (false, Error::AlreadyInitialized),
                Call::DepositFunds(_) => (
                    room.tenants.contains(party),
                    Error::UnauthorizedTenant,
                ),
                Call::CreateBill(_, _) => (party == room.landlord, Error::UnauthorizedLandlord),
                Call::PayBillShare(_) => (
                    room.tenants.contains(party),
                    Error::UnauthorizedTenant,
                ),
                Call::ResolveEscrow(_, _, _) => (
                    party == room.landlord || room.tenants.contains(party),
                    Error::UnauthorizedTenant,
                ),
            };
            &&& plan.result == Err::<(), Error>(error) <==> !entitled
            &&& !entitled ==> ledger.after(plan) == ledger
        }),
{
}

/// The landlord and a tenant approve one after the other, in either order,
/// whatever each says of the other side's vote: then every deposit that was paid
/// has been refunded. (Where the landlord is a tenant too, the second vote must
/// not withdraw what the first has granted.)
pub proof fn law_agreement_in_either_order(
    ledger: LedgerView,
    first: Address,
    second: Address,
    first_votes: (bool, bool),
    second_votes: (bool, bool),
)
    requires
        valid(ledger),
        ledger.room is Some,
        ({
            let room = ledger.room->0;
            ||| {
                &&& first == room.landlord && first_votes.0
                &&& room.tenants.contains(second) && second_votes.1
                &&& second == room.landlord ==> second_votes.0
            }
            ||| {
                &&& room.tenants.contains(first) && first_votes.1
                &&& second == room.landlord && second_votes.0
                &&& room.tenants.contains(second) ==> second_votes.1
            }
        }),
    ensures
        ({
            let vote = ledger.resolve_escrow(first, first_votes.0, first_votes.1);
            let midway = ledger.after(vote);
            let other_vote = midway.resolve_escrow(second, second_votes.0, second_votes.1);
            let end = midway.after(other_vote);
            &&& vote.result is Ok
            &&& other_vote.result is Ok
            &&& end.deposited() == 0
            &&& forall|a: Address|
                #![trigger ledger.escrows[a]]
                ledger.room->0.tenants.contains(a) && ledger.escrows[a].amount > 0 ==> {
                    &&& end.escrows[a].amount == ledger.escrows[a].amount
                    &&& end.escrows[a].refunded
                }
        }),
{
    let call = Call::ResolveEscrow(first, first_votes.0, first_votes.1);
    let again = Call::ResolveEscrow(second, second_votes.0, second_votes.1);
    lemma_all_recorded(ledger);
    law_within_limits(ledger, call);
    lemma_call(ledger, call);
    lemma_kept(ledger, call);
    let midway = ledger.after(call.plan(ledger));
    lemma_all_recorded(midway);
    law_within_limits(midway, again);
    if ledger.agreed(first, first_votes.0, first_votes.1) {
        law_deposits_released(ledger, first, first_votes.0, first_votes.1);
    } else {
        law_deposits_locked(ledger, first, first_votes.0, first_votes.1);
    }
    assert(midway.agreed(second, second_votes.0, second_votes.1));
    law_deposits_released(midway, second, second_votes.0, second_votes.1);
    lemma_kept(midway, again);
    let end = midway.after(again.plan(midway));
    assert forall|a: Address|
        #![trigger ledger.escrows[a]]
        ledger.room->0.tenants.contains(a) && ledger.escrows[a].amount > 0 implies {
        &&& end.escrows[a].amount == ledger.escrows[a].amount
        &&& end.escrows[a].refunded
    } by {
        assert(ledger.escrows.contains_key(a));
        assert(midway.escrows.contains_key(a));
        assert(end.escrows.contains_key(a));
        assert(end.escrows[a].amount > 0);
    }
}

/// The state of a bill part of the way through.
proof fn lemma_payments(ledger: LedgerView, payers: Seq<Address>)
    requires
        valid(ledger),
        ledger.room is Some,
        ledger.bill == Some(
            BillView::issued(ledger.bill->0.total_amount, ledger.room->0.tenants.len()),
        ),
        ledger.room->0.tenants.no_duplicates(),
        payers.no_duplicates(),
        payers.len() <= ledger.room->0.tenants.len(),
        forall|p: Address| #[trigger] payers.contains(p) ==> ledger.room->0.tenants.contains(p),
    ensures
        ({
            let room = ledger.room->0;
            let after = after_payments(ledger, payers);
            let complete = payers.len() == room.tenants.len();
            &&& valid(after)
            &&& after == LedgerView { bill: after.bill, ..ledger }
            &&& after.bill is Some
            &&& after.bill->0.total_amount == ledger.bill->0.total_amount
            &&& forall|i: int|
                0 <= i < room.tenants.len() ==> #[trigger] after.bill->0.paid_flags[i]
                    == payers.contains(room.tenants[i])
            &&& after.bill->0.settled <==> complete
            &&& complete ==> after.bill->0.collected == ledger.bill->0.total_amount
            &&& forall|a: Address| #[trigger]
                paid_during(ledger, payers, a) == if complete && a == room.landlord {
                    ledger.bill->0.total_amount as int
                } else {
                    0
                }
            &&& payers.len() > 0 ==> after_payments(ledger, payers.drop_last()).pay_bill_share(
                payers.last(),
            ).result is Ok
        }),
    decreases payers.len(),
{
    let room = ledger.room->0;
    let n = room.tenants.len() as int;
    lemma_everyone_paid(room.tenants, payers);
    if payers.len() == 0 {
        assert(!ledger.bill->0.paid_flags[0]);
    } else {
        let earlier = payers.drop_last();
        let payer = payers.last();
        assert forall|p: Address| #[trigger] earlier.contains(p) implies room.tenants.contains(
            p,
        ) by {
            let j = choose|j: int| 0 <= j < earlier.len() && earlier[j] == p;
            assert(payers[j] == p);
            assert(payers.contains(p));
        }
        lemma_payments(ledger, earlier);
        lemma_everyone_paid(room.tenants, earlier);
        let before = after_payments(ledger, earlier);
        let bill = before.bill->0;
        assert(payers.contains(payer)) by {
            assert(payers[payers.len() - 1] == payer);
        }
        lemma_listed(room.tenants, payer);
        let i = position(room.tenants, payer);
        assert(!earlier.contains(payer)) by {
            if earlier.contains(payer) {
                let j = choose|j: int| 0 <= j < earlier.len() && earlier[j] == payer;
                assert(payers[j] == payers[payers.len() - 1]);
            }
        }
        assert(!bill.paid_flags[i]);
        law_share_paid(before, payer);
        let after = after_payments(ledger, payers);
        let plan = before.pay_bill_share(payer);
        assert forall|k: int| 0 <= k < n implies #[trigger] after.bill->0.paid_flags[k]
            == payers.contains(room.tenants[k]) by {
            let a = room.tenants[k];
            if earlier.contains(a) {
                let j = choose|j: int| 0 <= j < earlier.len() && earlier[j] == a;
                assert(payers[j] == a);
            }
            if payers.contains(a) && a != payer {
                let j = choose|j: int| 0 <= j < payers.len() && payers[j] == a;
                assert(earlier[j] == a);
            }
            if a == payer {
                assert(room.tenants[k] == room.tenants[i]);
            }
        }
        if payers.len() == n {
            assert forall|k: int| 0 <= k < n implies after.bill->0.paid_flags[k] by {
                assert(payers.contains(room.tenants[k]));
            }
        } else {
            let k = choose|k: int| 0 <= k < n && !payers.contains(#[trigger] room.tenants[k]);
            assert(!after.bill->0.paid_flags[k]);
        }
        assert forall|a: Address| #[trigger]
            paid_during(ledger, payers, a) == if payers.len() == n && a == room.landlord {
                ledger.bill->0.total_amount as int
            } else {
                0
            } by {
            assert(paid_during(ledger, earlier, a) == 0);
            if payers.len() == n {
                let payout = plan.effects[2];
                assert(plan.effects =~= plan.effects.take(2) + seq![payout] + plan.effects.skip(3));
                lemma_paid_to_concat(
                    plan.effects.take(2) + seq![payout],
                    plan.effects.skip(3),
                    a,
                );
                lemma_paid_to_concat(plan.effects.take(2), seq![payout], a);
                lemma_pays_nobody(plan.effects.take(2), a);
                lemma_pays_nobody(plan.effects.skip(3), a);
                assert(seq![payout].drop_last() =~= Seq::empty());
                assert(paid_to(Seq::empty(), a) == 0);
            } else {
                lemma_pays_nobody(plan.effects, a);
            }
        }
    }
}

/// A bill for a room of different tenants is settled once each of them has paid,
/// in whatever order. Every payment is accepted. The landlord is paid the exact
/// amount of the bill, by the last payment and not before; nobody else is paid.
pub proof fn law_bill_settles_in_any_order(ledger: LedgerView, payers: Seq<Address>, k: int)
    requires
        valid(ledger),
        ledger.room is Some,
        ledger.bill == Some(
            BillView::issued(ledger.bill->0.total_amount, ledger.room->0.tenants.len()),
        ),
        ledger.room->0.tenants.no_duplicates(),
        payers.no_duplicates(),
        payers.len() == ledger.room->0.tenants.len(),
        forall|p: Address| #[trigger] payers.contains(p) ==> ledger.room->0.tenants.contains(p),
        0 <= k < payers.len(),
    ensures
        ({
            let landlord = ledger.room->0.landlord;
            let total = ledger.bill->0.total_amount;
            let midway = after_payments(ledger, payers.take(k));
            let end = after_payments(ledger, payers);
            &&& midway.pay_bill_share(payers[k]).result is Ok
            &&& !midway.bill->0.settled
            &&& end.bill->0.settled
            &&& end.bill->0.collected == total
            &&& end == LedgerView { bill: end.bill, ..ledger }
            &&& forall|a: Address| #[trigger] paid_during(ledger, payers.take(k), a) == 0
            &&& forall|a: Address| #[trigger]
                paid_during(ledger, payers, a) == if a == landlord {
                    total as int
                } else {
                    0
                }
        }),
{
    lemma_payments(ledger, payers);
    let part = payers.take(k);
    let next = payers.take(k + 1);
    assert forall|p: Address| #[trigger] part.contains(p) implies payers.contains(p) by {
        let j = choose|j: int| 0 <= j < part.len() && part[j] == p;
        assert(payers[j] == p);
    }
    assert forall|p: Address| #[trigger] next.contains(p) implies payers.contains(p) by {
        let j = choose|j: int| 0 <= j < next.len() && next[j] == p;
        assert(payers[j] == p);
    }
    lemma_payments(ledger, part);
    lemma_payments(ledger, next);
    assert(next.drop_last() =~= part);
}

} // verus!
