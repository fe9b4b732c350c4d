//! What each call comes to on any ledger, whatever else the ledger holds: when it
//! succeeds and what each refusal means, who is charged, who is paid, and every
//! entry afterwards.
//!
//! The statements speak of what the call is given, of the entries before and
//! after, and of the single effects in the plan.
use crate::books::{bill_valid, released};
use crate::entries::{
    Bill, BillView, DepositEscrow, Effect, EffectView, Entry, EntryView, Error, Plan, PlanView,
    Room, RoomView,
};
use crate::ledger_vec::Address;
use crate::lemmas::{
    lemma_apply_concat, lemma_apply_one, lemma_apply_push, lemma_blank_records,
    lemma_everyone_paid, lemma_listed, lemma_open_bill, lemma_paid_none, lemma_position,
    lemma_recorded_prefix, lemma_refund_payments, lemma_refunds, lemma_refunds_shape,
    lemma_votes_cast,
};
use crate::model::{
    all_set, blank_records, held, held_for, is_first, position, recorded_prefix, refunds,
    LedgerView,
};
use vstd::prelude::*;

verus! {

/// The view of an effect shows the effect as it is, down to the fields of the
/// room or bill that it stores.
pub proof fn law_effects_shown(effect: Effect)
    ensures
        match effect {
            Effect::RequireAuth(party) => effect@ == EffectView::RequireAuth(party),
            Effect::Collect { token, from, amount } => effect@ == (EffectView::Collect {
                token,
                from,
                amount,
            }),
            Effect::PayOut { token, to, amount } => effect@ == (EffectView::PayOut {
                token,
                to,
                amount,
            }),
            Effect::Store(Entry::Room(room)) => effect@ == EffectView::Store(
                EntryView::Room(
                    RoomView {
                        landlord: room.landlord,
                        tenants: room.tenants@,
                        deposit_per_tenant: room.deposit_per_tenant,
                        usdc_token: room.usdc_token,
                    },
                ),
            ),
            Effect::Store(Entry::Bill(bill)) => effect@ == EffectView::Store(
                EntryView::Bill(
                    BillView {
                        total_amount: bill.total_amount,
                        share_per_tenant: bill.share_per_tenant,
                        paid_flags: bill.paid_flags@,
                        collected: bill.collected,
                        settled: bill.settled,
                    },
                ),
            ),
            Effect::Store(Entry::Escrow(tenant, record)) => effect@ == EffectView::Store(
                EntryView::Escrow(tenant, record),
            ),
            Effect::Store(Entry::TotalDeposited(total)) => effect@ == EffectView::Store(
                EntryView::TotalDeposited(total),
            ),
            Effect::Store(Entry::LandlordApproval(vote)) => effect@ == EffectView::Store(
                EntryView::LandlordApproval(vote),
            ),
            Effect::Store(Entry::TenantApproval(vote)) => effect@ == EffectView::Store(
                EntryView::TenantApproval(vote),
            ),
        },
{
}

/// A stored entry shows as itself, and so do the fields of a room and of a bill.
pub proof fn law_entries_shown(entry: Entry, room: Room, bill: Bill)
    ensures
        Effect::Store(entry)@ == EffectView::Store(entry@),
        room@.landlord == room.landlord,
        room@.tenants == room.tenants@,
        room@.deposit_per_tenant == room.deposit_per_tenant,
        room@.usdc_token == room.usdc_token,
        bill@.total_amount == bill.total_amount,
        bill@.share_per_tenant == bill.share_per_tenant,
        bill@.paid_flags == bill.paid_flags@,
        bill@.collected == bill.collected,
        bill@.settled == bill.settled,
{
}

/// The view of a plan shows every effect in its place, and how the call ends.
pub proof fn law_plan_shown(plan: Plan)
    ensures
        plan@.result == plan.result,
        plan@.effects.len() == plan.effects@.len(),
        forall|i: int| 0 <= i < plan.effects@.len() ==> #[trigger] plan@.effects[i]
            == plan.effects@[i]@,
{
}

/// An entry that is written can be read back. The other entries stay.
pub proof fn law_entry_written(ledger: LedgerView, entry: EntryView)
    ensures
        ({
            let after = ledger.store(entry);
            &&& match entry {
                EntryView::Room(room) => after.room == Some(room),
                _ => after.room == ledger.room,
            }
            &&& match entry {
                EntryView::Bill(bill) => after.bill == Some(bill),
                _ => after.bill == ledger.bill,
            }
            &&& match entry {
                EntryView::Escrow(tenant, record) => after.escrows == ledger.escrows.insert(
                    tenant,
                    record,
                ),
                _ => after.escrows == ledger.escrows,
            }
            &&& match entry {
                EntryView::TotalDeposited(total) => after.total_deposited == Some(total),
                _ => after.total_deposited == ledger.total_deposited,
            }
            &&& match entry {
                EntryView::LandlordApproval(vote) => after.landlord_approval == Some(vote),
                _ => after.landlord_approval == ledger.landlord_approval,
            }
            &&& match entry {
                EntryView::TenantApproval(vote) => after.tenant_approval == Some(vote),
                _ => after.tenant_approval == ledger.tenant_approval,
            }
        }),
{
}

/// A call that ends in an error changes nothing. Of one that succeeds every
/// effect counts, in order: without effects nothing changes, and one effect more
/// is a write if it stores an entry and otherwise leaves the ledger as it is.
pub proof fn law_effects_carried_out(
    ledger: LedgerView,
    effects: Seq<EffectView>,
    effect: EffectView,
    error: Error,
)
    ensures
        ledger.after(PlanView { effects, result: Err(error) }) == ledger,
        ledger.after(PlanView { effects: Seq::empty(), result: Ok(()) }) == ledger,
        ({
            let before = ledger.after(PlanView { effects, result: Ok(()) });
            let after = ledger.after(PlanView { effects: effects.push(effect), result: Ok(()) });
            match effect {
                EffectView::Store(entry) => after == before.store(entry),
                _ => after == before,
            }
        }),
{
    lemma_apply_push(ledger, effects, effect);
}

/// A room can be set up exactly while there is none, for any tenants but an empty
/// list and any deposit above zero. Only the landlord has to agree and no token
/// moves. The room is then on the ledger as given, nothing is deposited, no side
/// has approved, and each tenant has a blank record.
pub proof fn law_setting_up(ledger: LedgerView, room: RoomView)
    ensures
        ({
            let plan = ledger.initialize_room(room);
            let after = ledger.after(plan);
            let people = room.tenants.len();
            let deposit = room.deposit_per_tenant;
            &&& plan.result is Ok <==> ledger.room is None && people > 0 && deposit > 0
            &&& plan.result == Err::<(), Error>(Error::AlreadyInitialized) <==> ledger.room is Some
            &&& plan.result == Err::<(), Error>(Error::NoTenants) <==> ledger.room is None && people
                == 0
            &&& plan.result == Err::<(), Error>(Error::InvalidAmount) <==> ledger.room is None
                && people > 0 && deposit <= 0
            &&& plan.result is Err ==> plan.effects.len() == 0 && after == ledger
            &&& plan.result is Ok ==> {
                &&& plan.effects.len() > 0
                &&& plan.effects[0] == EffectView::RequireAuth(room.landlord)
                &&& forall|i: int|
                    1 <= i < plan.effects.len() ==> (#[trigger] plan.effects[i]) is Store
                &&& after.room == Some(room)
                &&& after.bill == ledger.bill
                &&& after.total_deposited == Some(0i128)
                &&& after.landlord_approval == Some(false)
                &&& after.tenant_approval == Some(false)
                &&& forall|a: Address| #[trigger]
                    after.escrows.contains_key(a) <==> room.tenants.contains(a)
                        || ledger.escrows.contains_key(a)
                &&& forall|a: Address| #[trigger]
                    after.escrows.contains_key(a) ==> if room.tenants.contains(a) {
                        &&& after.escrows[a].tenant == a
                        &&& after.escrows[a].amount == 0
                        &&& !after.escrows[a].refunded
                    } else {
                        after.escrows[a] == ledger.escrows[a]
                    }
            }
        }),
{
    let plan = ledger.initialize_room(room);
    if plan.result is Ok {
        let auth = EffectView::RequireAuth(room.landlord);
        let e1 = EffectView::Store(EntryView::Room(room));
        let e2 = EffectView::Store(EntryView::TotalDeposited(0));
        let e3 = EffectView::Store(EntryView::LandlordApproval(false));
        let e4 = EffectView::Store(EntryView::TenantApproval(false));
        let records = blank_records(room.tenants);
        let n = room.tenants.len() as int;
        let head = seq![auth].push(e1).push(e2).push(e3).push(e4);
        assert(plan.effects =~= head + records);
        lemma_apply_one(ledger, auth);
        lemma_apply_push(ledger, seq![auth], e1);
        lemma_apply_push(ledger, seq![auth].push(e1), e2);
        lemma_apply_push(ledger, seq![auth].push(e1).push(e2), e3);
        lemma_apply_push(ledger, seq![auth].push(e1).push(e2).push(e3), e4);
        lemma_apply_concat(ledger, head, records);
        assert(records.take(n) =~= records);
        assert(room.tenants.take(n) =~= room.tenants);
        lemma_blank_records(ledger.apply_all(head), room.tenants, n);
    }
}

/// A listed tenant whose record shows no deposit can pay it, and nobody else can.
/// The tenant is charged once, exactly the deposit, and nobody is paid. The
/// deposit is then on the tenant's record and in the total; all else stays.
pub proof fn law_paying_a_deposit(ledger: LedgerView, tenant: Address)
    ensures
        ({
            let plan = ledger.deposit_funds(tenant);
            let after = ledger.after(plan);
            let room = ledger.room->0;
            let listed = ledger.room is Some && room.tenants.contains(tenant);
            let on_record = ledger.escrows.contains_key(tenant);
            let record = ledger.escrows[tenant];
            let before: int = match ledger.total_deposited {
                Some(total) => total as int,
                None => 0,
            };
            let new_total = before + room.deposit_per_tenant;
            let fits = i128::MIN <= new_total <= i128::MAX;
            &&& plan.result is Ok <==> listed && on_record && record.amount <= 0
            &&& plan.result == Err::<(), Error>(Error::NotInitialized) <==> ledger.room is None || (
            listed && !on_record)
            &&& plan.result == Err::<(), Error>(Error::UnauthorizedTenant) <==> ledger.room is Some
                && !listed
            &&& plan.result == Err::<(), Error>(Error::DepositAlreadyPaid) <==> listed && on_record
                && record.amount > 0
            &&& !listed ==> plan.effects.len() == 0
            &&& listed ==> plan.effects.len() > 0 && plan.effects[0] == EffectView::RequireAuth(
                tenant,
            )
            &&& plan.result is Err ==> plan.effects.len() <= 1 && after == ledger
            &&& ledger.deposit_fits(tenant) <==> (plan.result is Ok ==> fits)
            &&& plan.result is Ok ==> {
                &&& forall|i: int|
                    1 <= i < plan.effects.len() ==> !((#[trigger] plan.effects[i]) is RequireAuth)
                        && !(plan.effects[i] is PayOut)
                &&& exists|c: int|
                    0 <= c < plan.effects.len() && #[trigger] plan.effects[c]
                        == (EffectView::Collect {
                        token: room.usdc_token,
                        from: tenant,
                        amount: room.deposit_per_tenant,
                    })
                &&& forall|c: int, d: int|
                    0 <= c < plan.effects.len() && 0 <= d < plan.effects.len() && (
                    #[trigger] plan.effects[c]) is Collect && (#[trigger] plan.effects[d]) is Collect
                        ==> c == d
                &&& after.room == ledger.room
                &&& after.bill == ledger.bill
                &&& after.landlord_approval == ledger.landlord_approval
                &&& after.tenant_approval == ledger.tenant_approval
                &&& after.escrows == ledger.escrows.insert(
                    tenant,
                    DepositEscrow {
                        tenant: record.tenant,
                        amount: room.deposit_per_tenant,
                        refunded: record.refunded,
                    },
                )
                &&& fits ==> after.total_deposited is Some && after.total_deposited->0 == new_total
            }
        }),
{
    let plan = ledger.deposit_funds(tenant);
    if plan.result is Ok {
        let room = ledger.room->0;
        let deposit = room.deposit_per_tenant;
        let record = DepositEscrow { amount: deposit, ..ledger.escrows[tenant] };
        let total = (ledger.deposited() + deposit) as i128;
        let auth = EffectView::RequireAuth(tenant);
        let e1 = EffectView::Collect { token: room.usdc_token, from: tenant, amount: deposit };
        let e2 = EffectView::Store(EntryView::Escrow(tenant, record));
        let e3 = EffectView::Store(EntryView::TotalDeposited(total));
        assert(plan.effects =~= seq![auth].push(e1).push(e2).push(e3));
        lemma_apply_one(ledger, auth);
        lemma_apply_push(ledger, seq![auth], e1);
        lemma_apply_push(ledger, seq![auth].push(e1), e2);
        lemma_apply_push(ledger, seq![auth].push(e1).push(e2), e3);
        assert(plan.effects[1] == e1);
    }
}

/// The landlord can issue a bill over any amount above zero while no bill is
/// open, and nobody else can. No token moves. The bill is then on the ledger over
/// the amount asked for, with an equal share for each tenant, rounded down, and
/// nothing paid; all else stays.
pub proof fn law_issuing_a_bill(ledger: LedgerView, caller: Address, total_amount: i128)
    ensures
        ({
            let plan = ledger.create_bill(caller, total_amount);
            let after = ledger.after(plan);
            let room = ledger.room->0;
            let n = room.tenants.len() as int;
            let by_landlord = ledger.room is Some && caller == room.landlord;
            let open = ledger.bill is Some && !ledger.bill->0.settled;
            &&& plan.result is Ok <==> by_landlord && total_amount > 0 && !open
            &&& plan.result == Err::<(), Error>(Error::NotInitialized) <==> ledger.room is None
            &&& plan.result == Err::<(), Error>(Error::UnauthorizedLandlord) <==> ledger.room is Some
                && !by_landlord
            &&& plan.result == Err::<(), Error>(Error::InvalidAmount) <==> by_landlord
                && total_amount <= 0
            &&& plan.result == Err::<(), Error>(Error::BillAlreadyActive) <==> by_landlord
                && total_amount > 0 && open
            &&& !by_landlord ==> plan.effects.len() == 0
            &&& by_landlord ==> plan.effects.len() > 0 && plan.effects[0]
                == EffectView::RequireAuth(caller)
            &&& plan.result is Err ==> plan.effects.len() <= 1 && after == ledger
            &&& ledger.bill_fits(caller, total_amount) <==> (plan.result is Ok ==> n > 0)
            &&& plan.result is Ok && n > 0 ==> {
                &&& forall|i: int|
                    1 <= i < plan.effects.len() ==> (#[trigger] plan.effects[i]) is Store
                &&& after.bill is Some
                &&& after.bill->0.total_amount == total_amount
                &&& after.bill->0.share_per_tenant == total_amount as int / n
                &&& after.bill->0.paid_flags.len() == n
                &&& forall|i: int| 0 <= i < n ==> !(#[trigger] after.bill->0.paid_flags[i])
                &&& after.bill->0.collected == 0
                &&& !after.bill->0.settled
                &&& after.room == ledger.room
                &&& after.escrows == ledger.escrows
                &&& after.total_deposited == ledger.total_deposited
                &&& after.landlord_approval == ledger.landlord_approval
                &&& after.tenant_approval == ledger.tenant_approval
            }
        }),
{
    let plan = ledger.create_bill(caller, total_amount);
    let n = ledger.room->0.tenants.len();
    if plan.result is Ok && n > 0 {
        let auth = EffectView::RequireAuth(caller);
        let e1 = EffectView::Store(EntryView::Bill(BillView::issued(total_amount, n)));
        assert(plan.effects =~= seq![auth].push(e1));
        lemma_apply_one(ledger, auth);
        lemma_apply_push(ledger, seq![auth], e1);
        vstd::arithmetic::div_mod::lemma_div_pos_is_pos(total_amount as int, n as int);
        vstd::arithmetic::div_mod::lemma_div_is_ordered_by_denominator(
            total_amount as int,
            1,
            n as int,
        );
    }
}

/// Only a listed tenant can pay a share. Anyone else is turned away before being
/// asked for anything.
pub proof fn law_share_from_outside(ledger: LedgerView, tenant: Address)
    requires
        ledger.room is None || !ledger.room->0.tenants.contains(tenant),
    ensures
        ({
            let plan = ledger.pay_bill_share(tenant);
            &&& plan.result == Err::<(), Error>(
                if ledger.room is None {
                    Error::NotInitialized
                } else {
                    Error::UnauthorizedTenant
                },
            )
            &&& plan.effects.len() == 0
            &&& ledger.after(plan) == ledger
            &&& ledger.share_fits(tenant)
        }),
{
}

/// The tenant who is listed at `i` can pay while the bill is open and that share
/// is not paid. The tenant is charged once: the equal share or, at the end of the
/// list, all that the equal shares of the others leave of the bill. The flag is
/// set and the charge is added to what was collected. The landlord is sent all
/// that was collected when no flag is left, and otherwise nobody is paid. All
/// else stays.
pub proof fn law_paying_a_share(ledger: LedgerView, i: int)
    requires
        ledger.room is Some,
        0 <= i < ledger.room->0.tenants.len(),
        forall|j: int| 0 <= j < i ==> ledger.room->0.tenants[j] != ledger.room->0.tenants[i],
    ensures
        ({
            let room = ledger.room->0;
            let tenant = room.tenants[i];
            let n = room.tenants.len() as int;
            let plan = ledger.pay_bill_share(tenant);
            let after = ledger.after(plan);
            let bill = ledger.bill->0;
            let paid = after.bill->0;
            let open = ledger.bill is Some && !bill.settled;
            let already = i < bill.paid_flags.len() && bill.paid_flags[i];
            let charge: int = if i == n - 1 {
                bill.total_amount - bill.share_per_tenant * (n - 1)
            } else {
                bill.share_per_tenant as int
            };
            let fits = {
                &&& i < bill.paid_flags.len()
                &&& i == n - 1 ==> i128::MIN <= bill.share_per_tenant * (n - 1) <= i128::MAX
                &&& i128::MIN <= charge <= i128::MAX
                &&& i128::MIN <= bill.collected + charge <= i128::MAX
            };
            &&& plan.result is Ok <==> open && !already
            &&& plan.result == Err::<(), Error>(Error::NoActiveBill) <==> ledger.bill is None
            &&& plan.result == Err::<(), Error>(Error::BillAlreadySettled) <==> ledger.bill is Some
                && bill.settled
            &&& plan.result == Err::<(), Error>(Error::ShareAlreadyPaid) <==> open && already
            &&& plan.effects.len() > 0
            &&& plan.effects[0] == EffectView::RequireAuth(tenant)
            &&& plan.result is Err ==> plan.effects.len() == 1 && after == ledger
            &&& ledger.share_fits(tenant) <==> (plan.result is Ok ==> fits)
            &&& plan.result is Ok && fits ==> {
                &&& forall|k: int|
                    1 <= k < plan.effects.len() ==> !((#[trigger] plan.effects[k]) is RequireAuth)
                &&& exists|c: int|
                    0 <= c < plan.effects.len() && match #[trigger] plan.effects[c] {
                        EffectView::Collect { token, from, amount } => token == room.usdc_token
                            && from == tenant && amount == charge,
                        _ => false,
                    }
                &&& forall|c: int, d: int|
                    0 <= c < plan.effects.len() && 0 <= d < plan.effects.len() && (
                    #[trigger] plan.effects[c]) is Collect && (#[trigger] plan.effects[d]) is Collect
                        ==> c == d
                &&& after.bill is Some
                &&& paid.total_amount == bill.total_amount
                &&& paid.share_per_tenant == bill.share_per_tenant
                &&& paid.paid_flags.len() == bill.paid_flags.len()
                &&& forall|k: int|
                    0 <= k < bill.paid_flags.len() ==> #[trigger] paid.paid_flags[k] == (k == i
                        || bill.paid_flags[k])
                &&& paid.collected == bill.collected + charge
                &&& paid.settled <==> forall|k: int|
                    0 <= k < bill.paid_flags.len() && k != i ==> bill.paid_flags[k]
                &&& paid.settled ==> exists|p: int|
                    0 <= p < plan.effects.len() && #[trigger] plan.effects[p]
                        == (EffectView::PayOut {
                        token: room.usdc_token,
                        to: room.landlord,
                        amount: paid.collected,
                    })
                &&& forall|p: int|
                    0 <= p < plan.effects.len() && (#[trigger] plan.effects[p]) is PayOut
                        ==> paid.settled
                &&& forall|p: int, q: int|
                    0 <= p < plan.effects.len() && 0 <= q < plan.effects.len() && (
                    #[trigger] plan.effects[p]) is PayOut && (#[trigger] plan.effects[q]) is PayOut
                        ==> p == q
                &&& forall|c: int, p: int|
                    0 <= c < plan.effects.len() && 0 <= p < plan.effects.len() && (
                    #[trigger] plan.effects[c]) is Collect && (#[trigger] plan.effects[p]) is PayOut
                        ==> c < p
                &&& after.room == ledger.room
                &&& after.escrows == ledger.escrows
                &&& after.total_deposited == ledger.total_deposited
                &&& after.landlord_approval == ledger.landlord_approval
                &&& after.tenant_approval == ledger.tenant_approval
            }
        }),
{
    let room = ledger.room->0;
    let tenant = room.tenants[i];
    let n = room.tenants.len() as int;
    let plan = ledger.pay_bill_share(tenant);
    let bill = ledger.bill->0;
    assert(is_first(room.tenants, i));
    lemma_position(room.tenants, i);
    assert(room.tenants.contains(tenant));
    if plan.result is Ok && i < bill.paid_flags.len() {
        let paid = bill.paid_by(n, i);
        let auth = EffectView::RequireAuth(tenant);
        let charge = EffectView::Collect {
            token: room.usdc_token,
            from: tenant,
            amount: bill.due_from(n, i) as i128,
        };
        let payout = EffectView::PayOut {
            token: room.usdc_token,
            to: room.landlord,
            amount: paid.collected,
        };
        let write = EffectView::Store(EntryView::Bill(paid));
        lemma_apply_one(ledger, auth);
        lemma_apply_push(ledger, seq![auth], charge);
        if paid.settled {
            assert(plan.effects =~= seq![auth].push(charge).push(payout).push(write));
            lemma_apply_push(ledger, seq![auth].push(charge), payout);
            lemma_apply_push(ledger, seq![auth].push(charge).push(payout), write);
            assert(plan.effects[2] == payout);
            assert forall|k: int| 0 <= k < bill.paid_flags.len() && k != i implies bill.paid_flags[k] by {
                assert(paid.paid_flags[k]);
            }
        } else {
            assert(plan.effects =~= seq![auth].push(charge).push(write));
            lemma_apply_push(ledger, seq![auth].push(charge), write);
        }
        assert(plan.effects[1] == charge);
    }
}

/// The landlord and the tenants can vote, and nobody else can. A vote fails only
/// where both sides approve and a tenant has no record. The caller has to agree
/// and nobody is charged.
pub proof fn law_voting(
    ledger: LedgerView,
    caller: Address,
    landlord_approved: bool,
    tenant_approved: bool,
)
    ensures
        ({
            let plan = ledger.resolve_escrow(caller, landlord_approved, tenant_approved);
            let room = ledger.room->0;
            let by_landlord = caller == room.landlord;
            let by_tenant = room.tenants.contains(caller);
            let entitled = ledger.room is Some && (by_landlord || by_tenant);
            let landlord_agrees = if by_landlord {
                landlord_approved
            } else {
                ledger.landlord_approval == Some(true)
            };
            let tenants_agree = if by_tenant {
                tenant_approved
            } else {
                ledger.tenant_approval == Some(true)
            };
            let both = landlord_agrees && tenants_agree;
            let complete = forall|i: int|
                0 <= i < room.tenants.len() ==> ledger.escrows.contains_key(
                    #[trigger] room.tenants[i],
                );
            &&& plan.result is Ok <==> entitled && (both ==> complete)
            &&& plan.result == Err::<(), Error>(Error::NotInitialized) <==> ledger.room is None
            &&& plan.result == Err::<(), Error>(Error::UnauthorizedTenant) <==> ledger.room is Some
                && !entitled
            &&& plan.result == Err::<(), Error>(Error::DepositMissing) <==> entitled && both
                && !complete
            &&& ledger.room is None ==> plan.effects.len() == 0
            &&& ledger.room is None ==> ledger.resolve_fits(
                caller,
                landlord_approved,
                tenant_approved,
            )
            &&& ledger.room is Some ==> plan.effects.len() > 0 && plan.effects[0]
                == EffectView::RequireAuth(caller)
            &&& !entitled ==> plan.effects.len() <= 1
            &&& forall|i: int|
                1 <= i < plan.effects.len() ==> !((#[trigger] plan.effects[i]) is RequireAuth)
                    && !(plan.effects[i] is Collect)
            &&& plan.result is Err ==> ledger.after(plan) == ledger
        }),
{
    let room = ledger.room->0;
    let plan = ledger.resolve_escrow(caller, landlord_approved, tenant_approved);
    let k = recorded_prefix(room.tenants, ledger.escrows);
    lemma_recorded_prefix(room.tenants, ledger.escrows);
    lemma_refunds_shape(room, ledger.escrows, k);
    if k < room.tenants.len() {
        assert(!ledger.escrows.contains_key(room.tenants[k]));
    }
}

/// Each side's vote is stored as that side cast it, and the vote of a side that
/// did not call stays. The room and the bill stay.
pub proof fn law_votes_as_cast(
    ledger: LedgerView,
    caller: Address,
    landlord_approved: bool,
    tenant_approved: bool,
)
    requires
        ledger.resolve_escrow(caller, landlord_approved, tenant_approved).result is Ok,
    ensures
        ({
            let after = ledger.after(
                ledger.resolve_escrow(caller, landlord_approved, tenant_approved),
            );
            let room = ledger.room->0;
            &&& caller == room.landlord ==> after.landlord_approval == Some(landlord_approved)
            &&& caller != room.landlord ==> after.landlord_approval == ledger.landlord_approval
            &&& room.tenants.contains(caller) ==> after.tenant_approval == Some(tenant_approved)
            &&& !room.tenants.contains(caller) ==> after.tenant_approval == ledger.tenant_approval
            &&& after.room == ledger.room
            &&& after.bill == ledger.bill
        }),
{
    lemma_vote_carried_out(ledger, caller, landlord_approved, tenant_approved);
}

/// Deposits are paid back exactly when a vote leaves both sides at approval. Every
/// tenant with a deposit that was not yet refunded is then paid it, once and in
/// the order of the list, and is marked; nobody else is paid, and no other record
/// changes. Otherwise nobody is paid and the records and the total stay.
pub proof fn law_paying_back(
    ledger: LedgerView,
    caller: Address,
    landlord_approved: bool,
    tenant_approved: bool,
)
    requires
        ledger.resolve_escrow(caller, landlord_approved, tenant_approved).result is Ok,
    ensures
        ({
            let plan = ledger.resolve_escrow(caller, landlord_approved, tenant_approved);
            let after = ledger.after(plan);
            let room = ledger.room->0;
            let both = after.landlord_approval == Some(true) && after.tenant_approval == Some(true);
            &&& !both ==> {
                &&& forall|p: int|
                    0 <= p < plan.effects.len() ==> !((#[trigger] plan.effects[p]) is PayOut)
                &&& after.escrows == ledger.escrows
                &&& after.total_deposited == ledger.total_deposited
            }
            &&& both ==> forall|a: Address| #[trigger]
                room.tenants.contains(a) && !ledger.escrows[a].refunded && ledger.escrows[a].amount
                    > 0 ==> exists|p: int|
                    0 <= p < plan.effects.len() && #[trigger] plan.effects[p]
                        == (EffectView::PayOut {
                        token: room.usdc_token,
                        to: a,
                        amount: ledger.escrows[a].amount,
                    })
            &&& forall|p: int|
                0 <= p < plan.effects.len() ==> match #[trigger] plan.effects[p] {
                    EffectView::PayOut { token, to, amount } => {
                        &&& token == room.usdc_token
                        &&& room.tenants.contains(to)
                        &&& ledger.escrows.contains_key(to)
                        &&& !ledger.escrows[to].refunded
                        &&& amount == ledger.escrows[to].amount
                        &&& amount > 0
                    },
                    _ => true,
                }
            &&& forall|p: int, q: int|
                0 <= p < q < plan.effects.len() && (#[trigger] plan.effects[p]) is PayOut && (
                #[trigger] plan.effects[q]) is PayOut ==> exists|i: int|
                    0 <= i < room.tenants.len() && #[trigger] room.tenants[i]
                        == plan.effects[p]->PayOut_to && !room.tenants.take(i + 1).contains(
                        plan.effects[q]->PayOut_to,
                    )
            &&& forall|a: Address| #[trigger]
                after.escrows.contains_key(a) <==> ledger.escrows.contains_key(a)
            &&& forall|a: Address| #[trigger]
                after.escrows.contains_key(a) ==> {
                    &&& after.escrows[a].tenant == ledger.escrows[a].tenant
                    &&& after.escrows[a].amount == ledger.escrows[a].amount
                    &&& after.escrows[a].refunded <==> ledger.escrows[a].refunded || (both
                        && room.tenants.contains(a) && ledger.escrows[a].amount > 0)
                }
        }),
{
    let room = ledger.room->0;
    let n = room.tenants.len() as int;
    let plan = ledger.resolve_escrow(caller, landlord_approved, tenant_approved);
    let voted = seq![EffectView::RequireAuth(caller)] + ledger.ballot(
        caller,
        landlord_approved,
        tenant_approved,
    );
    let paying = refunds(room, ledger.escrows, n);
    law_voting(ledger, caller, landlord_approved, tenant_approved);
    lemma_vote_carried_out(ledger, caller, landlord_approved, tenant_approved);
    lemma_refund_payments(room, ledger.escrows, n);
    assert(room.tenants.take(n) =~= room.tenants);
    let after = ledger.after(plan);
    if after.landlord_approval == Some(true) && after.tenant_approval == Some(true) {
        assert(forall|p: int|
            0 <= p < voted.len() ==> #[trigger] plan.effects[p] == voted[p] && !(voted[p] is PayOut));
        assert(forall|p: int|
            voted.len() <= p < voted.len() + paying.len() ==> #[trigger] plan.effects[p]
                == paying[p - voted.len()]);
        assert forall|a: Address| #[trigger]
            room.tenants.contains(a) && !ledger.escrows[a].refunded && ledger.escrows[a].amount
                > 0 implies exists|p: int|
            0 <= p < plan.effects.len() && #[trigger] plan.effects[p] == (EffectView::PayOut {
                token: room.usdc_token,
                to: a,
                amount: ledger.escrows[a].amount,
            }) by {
            let i = choose|i: int| 0 <= i < room.tenants.len() && room.tenants[i] == a;
            assert(ledger.escrows.contains_key(room.tenants[i]));
            assert(held(ledger.escrows, a) > 0);
            assert(room.tenants.take(n).contains(a));
            let q = choose|q: int|
                0 <= q < paying.len() && #[trigger] paying[q] == (EffectView::PayOut {
                    token: room.usdc_token,
                    to: a,
                    amount: ledger.escrows[a].amount,
                });
            assert(plan.effects[q + voted.len()] == paying[q]);
        }
    }
}

/// A vote that fails for want of a record has tried to pay, once each, the tenants
/// who are listed before the first one without, and nobody else.
pub proof fn law_paying_back_fails(
    ledger: LedgerView,
    caller: Address,
    landlord_approved: bool,
    tenant_approved: bool,
    k: int,
)
    requires
        ledger.resolve_escrow(caller, landlord_approved, tenant_approved).result == Err::<
            (),
            Error,
        >(Error::DepositMissing),
        0 <= k < ledger.room->0.tenants.len(),
        forall|i: int|
            0 <= i < k ==> ledger.escrows.contains_key(#[trigger] ledger.room->0.tenants[i]),
        !ledger.escrows.contains_key(ledger.room->0.tenants[k]),
    ensures
        ({
            let plan = ledger.resolve_escrow(caller, landlord_approved, tenant_approved);
            let room = ledger.room->0;
            &&& ledger.after(plan) == ledger
            &&& forall|i: int|
                0 <= i < k && !ledger.escrows[#[trigger] room.tenants[i]].refunded
                    && ledger.escrows[room.tenants[i]].amount > 0 ==> exists|p: int|
                    0 <= p < plan.effects.len() && #[trigger] plan.effects[p]
                        == (EffectView::PayOut {
                        token: room.usdc_token,
                        to: room.tenants[i],
                        amount: ledger.escrows[room.tenants[i]].amount,
                    })
            &&& forall|p: int|
                0 <= p < plan.effects.len() ==> match #[trigger] plan.effects[p] {
                    EffectView::PayOut { token, to, amount } => {
                        &&& token == room.usdc_token
                        &&& room.tenants.take(k).contains(to)
                        &&& ledger.escrows.contains_key(to)
                        &&& !ledger.escrows[to].refunded
                        &&& amount == ledger.escrows[to].amount
                        &&& amount > 0
                    },
                    _ => true,
                }
            &&& forall|p: int, q: int|
                0 <= p < q < plan.effects.len() && (#[trigger] plan.effects[p]) is PayOut && (
                #[trigger] plan.effects[q]) is PayOut ==> plan.effects[p]->PayOut_to
                    != plan.effects[q]->PayOut_to
        }),
{
    let room = ledger.room->0;
    let plan = ledger.resolve_escrow(caller, landlord_approved, tenant_approved);
    let voted = seq![EffectView::RequireAuth(caller)] + ledger.ballot(
        caller,
        landlord_approved,
        tenant_approved,
    );
    let paying = refunds(room, ledger.escrows, k);
    let reached = recorded_prefix(room.tenants, ledger.escrows);
    lemma_recorded_prefix(room.tenants, ledger.escrows);
    assert(reached == k) by {
        if reached < k {
            assert(ledger.escrows.contains_key(room.tenants[reached]));
        }
        if k < reached {
            assert(!ledger.escrows.contains_key(room.tenants[k]));
        }
    }
    law_voting(ledger, caller, landlord_approved, tenant_approved);
    lemma_refund_payments(room, ledger.escrows, k);
    assert(plan.effects == voted + paying);
    assert(forall|p: int|
        0 <= p < voted.len() ==> #[trigger] plan.effects[p] == voted[p] && !(voted[p] is PayOut));
    assert(forall|p: int|
        voted.len() <= p < plan.effects.len() ==> #[trigger] plan.effects[p] == paying[p
            - voted.len()]);
    assert forall|i: int|
        0 <= i < k && !ledger.escrows[#[trigger] room.tenants[i]].refunded
            && ledger.escrows[room.tenants[i]].amount > 0 implies exists|p: int|
        0 <= p < plan.effects.len() && #[trigger] plan.effects[p] == (EffectView::PayOut {
            token: room.usdc_token,
            to: room.tenants[i],
            amount: ledger.escrows[room.tenants[i]].amount,
        }) by {
        let a = room.tenants[i];
        assert(room.tenants.take(k)[i] == a);
        assert(room.tenants.take(k).contains(a) && held(ledger.escrows, a) > 0);
        let q = choose|q: int|
            0 <= q < paying.len() && #[trigger] paying[q] == (EffectView::PayOut {
                token: room.usdc_token,
                to: a,
                amount: ledger.escrows[a].amount,
            });
        assert(plan.effects[q + voted.len()] == paying[q]);
    }
    assert forall|p: int, q: int|
        0 <= p < q < plan.effects.len() && (#[trigger] plan.effects[p]) is PayOut && (
        #[trigger] plan.effects[q]) is PayOut implies plan.effects[p]->PayOut_to
        != plan.effects[q]->PayOut_to by {
        let (x, y) = (p - voted.len(), q - voted.len());
        assert(plan.effects[p] == paying[x] && plan.effects[q] == paying[y]);
        let i = choose|i: int|
            0 <= i < k && #[trigger] room.tenants[i] == paying[x]->PayOut_to
                && !room.tenants.take(i + 1).contains(paying[y]->PayOut_to);
        assert(room.tenants.take(i + 1)[i] == room.tenants[i]);
    }
}

/// A side that votes against paying back keeps every deposit where it is,
/// whatever the other side has voted: nobody is paid, and the records and the
/// total stay.
pub proof fn law_rejection_keeps_deposits(
    ledger: LedgerView,
    caller: Address,
    landlord_approved: bool,
    tenant_approved: bool,
)
    requires
        ledger.room is Some,
        ({
            ||| caller == ledger.room->0.landlord && !landlord_approved
            ||| ledger.room->0.tenants.contains(caller) && !tenant_approved
        }),
    ensures
        ({
            let plan = ledger.resolve_escrow(caller, landlord_approved, tenant_approved);
            let after = ledger.after(plan);
            &&& plan.result is Ok
            &&& forall|p: int|
                0 <= p < plan.effects.len() ==> !((#[trigger] plan.effects[p]) is PayOut)
            &&& after.escrows == ledger.escrows
            &&& after.total_deposited == ledger.total_deposited
        }),
{
    law_voting(ledger, caller, landlord_approved, tenant_approved);
    law_votes_as_cast(ledger, caller, landlord_approved, tenant_approved);
    law_paying_back(ledger, caller, landlord_approved, tenant_approved);
}

/// A vote that pays deposits back takes their sum off the total. `sums` holds the
/// running sums of the deposits not yet refunded, in the order of the list up to
/// the first tenant without a record; a tenant counts where first listed. Where
/// both sides approve, the sum and what then remains have to be amounts. Nothing
/// else limits a vote.
pub proof fn law_total_after_paying_back(
    ledger: LedgerView,
    caller: Address,
    landlord_approved: bool,
    tenant_approved: bool,
    sums: Seq<int>,
)
    requires
        ledger.room is Some,
        0 < sums.len() <= ledger.room->0.tenants.len() + 1,
        forall|i: int|
            0 <= i < sums.len() - 1 ==> ledger.escrows.contains_key(
                #[trigger] ledger.room->0.tenants[i],
            ),
        sums.len() <= ledger.room->0.tenants.len() ==> !ledger.escrows.contains_key(
            ledger.room->0.tenants[sums.len() - 1],
        ),
        sums[0] == 0,
        forall|i: int|
            0 < i < sums.len() ==> #[trigger] sums[i] == sums[i - 1] + ({
                let tenants = ledger.room->0.tenants;
                let record = ledger.escrows[tenants[i - 1]];
                if record.refunded || record.amount <= 0 || exists|j: int|
                    0 <= j < i - 1 && #[trigger] tenants[j] == tenants[i - 1] {
                    0
                } else {
                    record.amount as int
                }
            }),
    ensures
        ({
            let plan = ledger.resolve_escrow(caller, landlord_approved, tenant_approved);
            let after = ledger.after(plan);
            let room = ledger.room->0;
            let by_landlord = caller == room.landlord;
            let by_tenant = room.tenants.contains(caller);
            let landlord_agrees = if by_landlord {
                landlord_approved
            } else {
                ledger.landlord_approval == Some(true)
            };
            let tenants_agree = if by_tenant {
                tenant_approved
            } else {
                ledger.tenant_approval == Some(true)
            };
            let release = (by_landlord || by_tenant) && landlord_agrees && tenants_agree;
            let complete = sums.len() == room.tenants.len() + 1;
            let before: int = match ledger.total_deposited {
                Some(total) => total as int,
                None => 0,
            };
            let remains = before - sums.last();
            &&& ledger.resolve_fits(caller, landlord_approved, tenant_approved) <==> (release ==> {
                &&& i128::MIN <= sums.last() <= i128::MAX
                &&& complete ==> i128::MIN <= remains <= i128::MAX
            })
            &&& release && complete && i128::MIN <= remains <= i128::MAX ==> {
                &&& after.total_deposited is Some
                &&& after.total_deposited->0 == remains
            }
        }),
{
    let room = ledger.room->0;
    let k = sums.len() - 1;
    let reached = recorded_prefix(room.tenants, ledger.escrows);
    lemma_recorded_prefix(room.tenants, ledger.escrows);
    assert(reached == k) by {
        if reached < k {
            assert(ledger.escrows.contains_key(room.tenants[reached]));
        }
        if k < reached {
            assert(!ledger.escrows.contains_key(room.tenants[k]));
        }
    }
    lemma_running_sums(room.tenants, ledger.escrows, sums, k);
    let plan = ledger.resolve_escrow(caller, landlord_approved, tenant_approved);
    if plan.result is Ok {
        lemma_vote_carried_out(ledger, caller, landlord_approved, tenant_approved);
    }
}

/// Running sums over the list come to what is held.
proof fn lemma_running_sums(
    tenants: Seq<Address>,
    escrows: Map<Address, DepositEscrow>,
    sums: Seq<int>,
    k: int,
)
    requires
        0 <= k < sums.len() <= tenants.len() + 1,
        forall|i: int| 0 <= i < k ==> escrows.contains_key(#[trigger] tenants[i]),
        sums[0] == 0,
        forall|i: int|
            0 < i < sums.len() ==> #[trigger] sums[i] == sums[i - 1] + ({
                let record = escrows[tenants[i - 1]];
                if record.refunded || record.amount <= 0 || exists|j: int|
                    0 <= j < i - 1 && #[trigger] tenants[j] == tenants[i - 1] {
                    0
                } else {
                    record.amount as int
                }
            }),
    ensures
        sums[k] == held_for(tenants, escrows, k),
    decreases k,
{
    if k > 0 {
        lemma_running_sums(tenants, escrows, sums, k - 1);
        assert(escrows.contains_key(tenants[k - 1]));
        if !is_first(tenants, k - 1) {
            let j = choose|j: int| 0 <= j < k - 1 && #[trigger] tenants[j] == tenants[k - 1];
            assert(tenants[j] == tenants[k - 1]);
        }
    }
}

/// The ledger after a vote.
proof fn lemma_vote_carried_out(
    ledger: LedgerView,
    caller: Address,
    landlord_approved: bool,
    tenant_approved: bool,
)
    requires
        ledger.resolve_escrow(caller, landlord_approved, tenant_approved).result is Ok,
    ensures
        ({
            let room = ledger.room->0;
            let n = room.tenants.len() as int;
            let after = ledger.after(
                ledger.resolve_escrow(caller, landlord_approved, tenant_approved),
            );
            let both = ledger.agreed(caller, landlord_approved, tenant_approved);
            &&& after == LedgerView {
                landlord_approval: if caller == room.landlord {
                    Some(landlord_approved)
                } else {
                    ledger.landlord_approval
                },
                tenant_approval: if room.tenants.contains(caller) {
                    Some(tenant_approved)
                } else {
                    ledger.tenant_approval
                },
                escrows: if both {
                    released(ledger.escrows, room.tenants, n)
                } else {
                    ledger.escrows
                },
                total_deposited: if both {
                    Some((ledger.deposited() - held_for(room.tenants, ledger.escrows, n)) as i128)
                } else {
                    ledger.total_deposited
                },
                ..ledger
            }
            &&& both <==> after.landlord_approval == Some(true) && after.tenant_approval == Some(
                true,
            )
        }),
{
    let room = ledger.room->0;
    let n = room.tenants.len() as int;
    let plan = ledger.resolve_escrow(caller, landlord_approved, tenant_approved);
    let voted = seq![EffectView::RequireAuth(caller)] + ledger.ballot(
        caller,
        landlord_approved,
        tenant_approved,
    );
    lemma_votes_cast(ledger, caller, landlord_approved, tenant_approved);
    lemma_recorded_prefix(room.tenants, ledger.escrows);
    if ledger.agreed(caller, landlord_approved, tenant_approved) {
        let paying = refunds(room, ledger.escrows, n);
        let write = EffectView::Store(
            EntryView::TotalDeposited(
                (ledger.deposited() - held_for(room.tenants, ledger.escrows, n)) as i128,
            ),
        );
        assert(plan.effects =~= voted + paying + seq![write]);
        lemma_apply_concat(ledger, voted + paying, seq![write]);
        lemma_apply_concat(ledger, voted, paying);
        lemma_refunds(ledger.apply_all(voted), room, n);
        lemma_apply_one(ledger.apply_all(voted + paying), write);
    }
}

/// A deposit comes back to the tenant who paid it: the first vote that leaves both
/// sides at approval pays that tenant the deposit, and no vote after it pays that
/// tenant again. Meanwhile the tenant cannot pay a second time.
pub proof fn law_deposit_comes_back(
    ledger: LedgerView,
    tenant: Address,
    voters: (Address, Address),
    votes: (bool, bool),
    later_votes: (bool, bool),
)
    requires
        ledger.deposit_funds(tenant).result is Ok,
        ledger.room->0.deposit_per_tenant > 0,
        !ledger.escrows[tenant].refunded,
        ({
            let paid = ledger.after(ledger.deposit_funds(tenant));
            let vote = paid.resolve_escrow(voters.0, votes.0, votes.1);
            let back = paid.after(vote);
            &&& vote.result is Ok
            &&& back.landlord_approval == Some(true)
            &&& back.tenant_approval == Some(true)
            &&& back.resolve_escrow(voters.1, later_votes.0, later_votes.1).result is Ok
        }),
    ensures
        ({
            let deposit = ledger.room->0.deposit_per_tenant;
            let paid = ledger.after(ledger.deposit_funds(tenant));
            let vote = paid.resolve_escrow(voters.0, votes.0, votes.1);
            let back = paid.after(vote);
            let later = back.resolve_escrow(voters.1, later_votes.0, later_votes.1);
            &&& paid.deposit_funds(tenant).result == Err::<(), Error>(Error::DepositAlreadyPaid)
            &&& back.deposit_funds(tenant).result == Err::<(), Error>(Error::DepositAlreadyPaid)
            &&& exists|p: int|
                0 <= p < vote.effects.len() && #[trigger] vote.effects[p] == (EffectView::PayOut {
                    token: ledger.room->0.usdc_token,
                    to: tenant,
                    amount: deposit,
                })
            &&& forall|p: int|
                0 <= p < later.effects.len() && (#[trigger] later.effects[p]) is PayOut
                    ==> later.effects[p]->PayOut_to != tenant
        }),
{
    let paid = ledger.after(ledger.deposit_funds(tenant));
    let back = paid.after(paid.resolve_escrow(voters.0, votes.0, votes.1));
    law_paying_a_deposit(ledger, tenant);
    law_paying_a_deposit(paid, tenant);
    law_votes_as_cast(paid, voters.0, votes.0, votes.1);
    law_paying_back(paid, voters.0, votes.0, votes.1);
    assert(back.escrows.contains_key(tenant));
    assert(paid.room->0.tenants.contains(tenant));
    law_paying_a_deposit(back, tenant);
    law_paying_back(back, voters.1, later_votes.0, later_votes.1);
}

/// The landlord gets what was asked for. A bill over `total_amount` is issued for
/// a room of different tenants and each of them pays, in whatever order; `states`
/// holds the ledger before the first payment and after each. Every payment is
/// accepted. Each tenant is charged once, the equal share, and the last one on the
/// list the rest. No payment but the last pays anyone, and that one pays the
/// landlord exactly `total_amount`. The bill is then settled.
pub proof fn law_landlord_gets_the_bill(
    ledger: LedgerView,
    caller: Address,
    total_amount: i128,
    payers: Seq<Address>,
    states: Seq<LedgerView>,
)
    requires
        ledger.create_bill(caller, total_amount).result is Ok,
        ledger.room->0.tenants.len() > 0,
        ledger.room->0.tenants.no_duplicates(),
        payers.no_duplicates(),
        payers.len() == ledger.room->0.tenants.len(),
        forall|p: Address| #[trigger] payers.contains(p) ==> ledger.room->0.tenants.contains(p),
        states.len() == payers.len() + 1,
        states[0] == ledger.after(ledger.create_bill(caller, total_amount)),
        forall|k: int|
            0 <= k < payers.len() ==> #[trigger] states[k + 1] == states[k].after(
                states[k].pay_bill_share(payers[k]),
            ),
    ensures
        ({
            let room = ledger.room->0;
            let n = room.tenants.len() as int;
            let end = states[n];
            &&& forall|k: int|
                0 <= k < n ==> ({
                    let plan = (#[trigger] states[k]).pay_bill_share(payers[k]);
                    let charge: int = if payers[k] == room.tenants[n - 1] {
                        total_amount - (total_amount as int / n) * (n - 1)
                    } else {
                        total_amount as int / n
                    };
                    &&& plan.result is Ok
                    &&& exists|c: int|
                        0 <= c < plan.effects.len() && match #[trigger] plan.effects[c] {
                            EffectView::Collect { token, from, amount } => token == room.usdc_token
                                && from == payers[k] && amount == charge,
                            _ => false,
                        }
                    &&& forall|c: int, d: int|
                        0 <= c < plan.effects.len() && 0 <= d < plan.effects.len() && (
                        #[trigger] plan.effects[c]) is Collect && (
                        #[trigger] plan.effects[d]) is Collect ==> c == d
                    &&& k < n - 1 ==> forall|p: int|
                        0 <= p < plan.effects.len() ==> !((#[trigger] plan.effects[p]) is PayOut)
                    &&& k == n - 1 ==> exists|p: int|
                        0 <= p < plan.effects.len() && #[trigger] plan.effects[p]
                            == (EffectView::PayOut {
                            token: room.usdc_token,
                            to: room.landlord,
                            amount: total_amount,
                        })
                    &&& forall|p: int, q: int|
                        0 <= p < plan.effects.len() && 0 <= q < plan.effects.len() && (
                        #[trigger] plan.effects[p]) is PayOut && (
                        #[trigger] plan.effects[q]) is PayOut ==> p == q
                })
            &&& end.bill is Some
            &&& end.bill->0.settled
            &&& end.bill->0.collected == total_amount
            &&& end.bill->0.total_amount == total_amount
            &&& end.room == ledger.room
            &&& end.escrows == ledger.escrows
            &&& end.total_deposited == ledger.total_deposited
            &&& end.landlord_approval == ledger.landlord_approval
            &&& end.tenant_approval == ledger.tenant_approval
        }),
{
    let room = ledger.room->0;
    let n = room.tenants.len() as int;
    lemma_part_paid(ledger, caller, total_amount, payers, states, n);
    assert forall|k: int| 0 <= k < n implies ({
        let plan = (#[trigger] states[k]).pay_bill_share(payers[k]);
        let i = position(room.tenants, payers[k]);
        let bill = states[k].bill->0;
        &&& plan.result is Ok
        &&& is_first(room.tenants, i)
        &&& room.tenants[i] == payers[k]
        &&& states[k].room == ledger.room
        &&& states[k].share_fits(payers[k])
        &&& bill.total_amount == total_amount
        &&& bill.share_per_tenant == total_amount as int / n
        &&& states[k + 1].bill->0.settled <==> k == n - 1
        &&& k == n - 1 ==> states[k + 1].bill->0.collected == total_amount
    }) by {
        lemma_part_paid(ledger, caller, total_amount, payers, states, k);
        lemma_part_paid(ledger, caller, total_amount, payers, states, k + 1);
        assert(payers.contains(payers[k]));
        lemma_listed(room.tenants, payers[k]);
    }
    assert forall|k: int| 0 <= k < n implies ({
        let plan = (#[trigger] states[k]).pay_bill_share(payers[k]);
        let charge: int = if payers[k] == room.tenants[n - 1] {
            total_amount - (total_amount as int / n) * (n - 1)
        } else {
            total_amount as int / n
        };
        &&& plan.result is Ok
        &&& exists|c: int|
            0 <= c < plan.effects.len() && match #[trigger] plan.effects[c] {
                EffectView::Collect { token, from, amount } => token == room.usdc_token && from
                    == payers[k] && amount == charge,
                _ => false,
            }
        &&& forall|c: int, d: int|
            0 <= c < plan.effects.len() && 0 <= d < plan.effects.len() && (
            #[trigger] plan.effects[c]) is Collect && (#[trigger] plan.effects[d]) is Collect ==> c
                == d
        &&& k < n - 1 ==> forall|p: int|
            0 <= p < plan.effects.len() ==> !((#[trigger] plan.effects[p]) is PayOut)
        &&& k == n - 1 ==> exists|p: int|
            0 <= p < plan.effects.len() && #[trigger] plan.effects[p] == (EffectView::PayOut {
                token: room.usdc_token,
                to: room.landlord,
                amount: total_amount,
            })
        &&& forall|p: int, q: int|
            0 <= p < plan.effects.len() && 0 <= q < plan.effects.len() && (
            #[trigger] plan.effects[p]) is PayOut && (#[trigger] plan.effects[q]) is PayOut ==> p
                == q
    }) by {
        let i = position(room.tenants, payers[k]);
        law_paying_a_share(states[k], i);
        assert(states[k + 1] == states[k].after(states[k].pay_bill_share(payers[k])));
    }
    assert(states[n] == states[n - 1 + 1]);
    assert(states[n - 1].pay_bill_share(payers[n - 1]).result is Ok);
}

/// The ledger once the first `k` payers have paid.
proof fn lemma_part_paid(
    ledger: LedgerView,
    caller: Address,
    total_amount: i128,
    payers: Seq<Address>,
    states: Seq<LedgerView>,
    k: int,
)
    requires
        ledger.create_bill(caller, total_amount).result is Ok,
        ledger.room->0.tenants.len() > 0,
        ledger.room->0.tenants.no_duplicates(),
        payers.no_duplicates(),
        payers.len() == ledger.room->0.tenants.len(),
        forall|p: Address| #[trigger] payers.contains(p) ==> ledger.room->0.tenants.contains(p),
        states.len() == payers.len() + 1,
        states[0] == ledger.after(ledger.create_bill(caller, total_amount)),
        forall|k: int|
            0 <= k < payers.len() ==> #[trigger] states[k + 1] == states[k].after(
                states[k].pay_bill_share(payers[k]),
            ),
        0 <= k <= payers.len(),
    ensures
        ({
            let tenants = ledger.room->0.tenants;
            let n = tenants.len() as int;
            let state = states[k];
            let bill = state.bill->0;
            &&& state == LedgerView { bill: state.bill, ..ledger }
            &&& state.bill is Some
            &&& bill_valid(bill, n)
            &&& bill.total_amount == total_amount
            &&& forall|i: int|
                0 <= i < n ==> #[trigger] bill.paid_flags[i] == payers.take(k).contains(tenants[i])
            &&& bill.settled <==> k == n
            &&& k == n ==> bill.collected == total_amount
            &&& k < n ==> state.pay_bill_share(payers[k]).result is Ok && state.share_fits(
                payers[k],
            )
        }),
    decreases k,
{
    let room = ledger.room->0;
    let tenants = room.tenants;
    let n = tenants.len() as int;
    let bill = states[k].bill->0;
    let part = payers.take(k);
    if k == 0 {
        law_issuing_a_bill(ledger, caller, total_amount);
        lemma_paid_none(bill, n, n);
        assert(!bill.paid_flags[0]);
    } else {
        let payer = payers[k - 1];
        let before = states[k - 1];
        let earlier = payers.take(k - 1);
        lemma_part_paid(ledger, caller, total_amount, payers, states, k - 1);
        assert(states[k - 1 + 1] == before.after(before.pay_bill_share(payer)));
        assert(payers.contains(payer));
        lemma_listed(tenants, payer);
        let i = position(tenants, payer);
        law_paying_a_share(before, i);
        assert(!before.bill->0.paid_flags[i]);
        lemma_open_bill(before.bill->0, n, i);
        assert forall|j: int| 0 <= j < n implies #[trigger] bill.paid_flags[j] == part.contains(
            tenants[j],
        ) by {
            let a = tenants[j];
            assert(before.bill->0.paid_flags[j] == earlier.contains(a));
            if earlier.contains(a) {
                let m = choose|m: int| 0 <= m < earlier.len() && earlier[m] == a;
                assert(part[m] == a);
            }
            if part.contains(a) && a != payer {
                let m = choose|m: int| 0 <= m < part.len() && part[m] == a;
                assert(earlier[m] == a);
            }
            assert(part[k - 1] == payer);
        }
        assert(bill.paid_flags =~= before.bill->0.paid_by(n, i).paid_flags);
        assert(all_set(bill.paid_flags) == bill.settled);
        assert(bill == before.bill->0.paid_by(n, i));
        assert forall|p: Address| #[trigger] part.contains(p) implies tenants.contains(p) by {
            let m = choose|m: int| 0 <= m < part.len() && part[m] == p;
            assert(payers[m] == p);
            assert(payers.contains(p));
        }
        lemma_everyone_paid(tenants, part);
        if k == n {
            assert forall|j: int| 0 <= j < n implies bill.paid_flags[j] by {
                assert(part.contains(tenants[j]));
            }
        } else {
            let j = choose|j: int| 0 <= j < n && !part.contains(#[trigger] tenants[j]);
            assert(!bill.paid_flags[j]);
        }
    }
    if k < n {
        let payer = payers[k];
        assert(payers.contains(payer));
        lemma_listed(tenants, payer);
        let i = position(tenants, payer);
        assert(!part.contains(payer)) by {
            if part.contains(payer) {
                let m = choose|m: int| 0 <= m < part.len() && part[m] == payer;
                assert(payers[m] == payers[k]);
            }
        }
        assert(!bill.paid_flags[i]);
        lemma_open_bill(bill, n, i);
        law_paying_a_share(states[k], i);
    }
}

} // verus!
