//! Steps of the proofs.
use crate::books::{bill_valid, dues, inflow, paid, paid_to, pays_nothing, released, valid};
use crate::entries::{BillView, DepositEscrow, EffectView, EntryView, RoomView};
use crate::laws::law_shares_add_up;
use crate::ledger_vec::Address;
use crate::model::{
    all_set, blank_records, due, held, held_for, is_amount, is_first, position, recorded,
    recorded_prefix, refund, refunds, LedgerView,
};
use vstd::prelude::*;

verus! {

/// All but the last tenant owe equal shares.
pub(crate) proof fn lemma_dues(total: int, share: int, n: int, k: int)
    requires
        0 <= k < n,
    ensures
        dues(total, share, n, k) == share * k,
    decreases k,
{
    if k > 0 {
        lemma_dues(total, share, n, k - 1);
        assert(share * (k - 1) + share == share * k) by (nonlinear_arith);
    } else {
        assert(share * 0 == 0) by (nonlinear_arith);
    }
}

/// Every due is at least zero, and the shares of all but the last tenant stay
/// within the bill.
pub(crate) proof fn lemma_due_bounds(total: int, n: int, i: int)
    requires
        total > 0,
        0 <= i < n,
    ensures
        0 <= total / n,
        0 <= (total / n) * (n - 1) <= total,
        0 <= due(total, total / n, n, i) <= total,
{
    let share = total / n;
    law_shares_add_up(total, n);
    assert(0 <= share <= total && 0 <= total % n) by {
        vstd::arithmetic::div_mod::lemma_div_pos_is_pos(total, n);
        vstd::arithmetic::div_mod::lemma_div_is_ordered_by_denominator(total, 1, n);
        vstd::arithmetic::div_mod::lemma_mod_bound(total, n);
    }
    assert(0 <= share * (n - 1)) by (nonlinear_arith)
        requires
            0 <= share,
            n > 0,
    ;
}

/// What the first `k` tenants have paid lies between nothing and what they owe.
pub(crate) proof fn lemma_paid_bounds(bill: BillView, n: int, k: int)
    requires
        bill.total_amount > 0,
        bill.share_per_tenant == bill.total_amount as int / n,
        0 <= k <= n,
        n > 0,
    ensures
        0 <= paid(bill, n, k) <= dues(
            bill.total_amount as int,
            bill.share_per_tenant as int,
            n,
            k,
        ),
    decreases k,
{
    if k > 0 {
        lemma_paid_bounds(bill, n, k - 1);
        lemma_due_bounds(bill.total_amount as int, n, k - 1);
    }
}

/// What has been paid is all that is owed once every flag is set.
pub(crate) proof fn lemma_paid_all(bill: BillView, n: int, k: int)
    requires
        0 <= k <= bill.paid_flags.len(),
        all_set(bill.paid_flags),
    ensures
        paid(bill, n, k) == dues(bill.total_amount as int, bill.share_per_tenant as int, n, k),
    decreases k,
{
    if k > 0 {
        lemma_paid_all(bill, n, k - 1);
    }
}

/// Setting the flag of one tenant adds what that tenant owes.
pub(crate) proof fn lemma_paid_step(bill: BillView, after: BillView, n: int, i: int, k: int)
    requires
        0 <= i < bill.paid_flags.len(),
        0 <= k <= bill.paid_flags.len(),
        !bill.paid_flags[i],
        after.paid_flags == bill.paid_flags.update(i, true),
        after.total_amount == bill.total_amount,
        after.share_per_tenant == bill.share_per_tenant,
    ensures
        paid(after, n, k) == paid(bill, n, k) + if i < k {
            bill.due_from(n, i)
        } else {
            0
        },
    decreases k,
{
    if k > 0 {
        lemma_paid_step(bill, after, n, i, k - 1);
    }
}

/// A valid bill that is open has room for every share that is still due.
pub(crate) proof fn lemma_open_bill(bill: BillView, n: int, i: int)
    requires
        bill_valid(bill, n),
        0 <= i < n,
        !bill.paid_flags[i],
    ensures
        0 <= bill.collected,
        is_amount(bill.share_per_tenant * (n - 1)),
        0 <= bill.due_from(n, i),
        is_amount(bill.due_from(n, i)),
        bill.collected + bill.due_from(n, i) <= bill.total_amount,
        bill_valid(bill.paid_by(n, i), n),
        bill.paid_by(n, i).settled ==> bill.paid_by(n, i).collected == bill.total_amount,
{
    let total = bill.total_amount as int;
    let share = bill.share_per_tenant as int;
    let after = bill.paid_by(n, i);
    lemma_paid_bounds(bill, n, n);
    lemma_due_bounds(total, n, i);
    law_shares_add_up(total, n);
    lemma_paid_step(bill, after, n, i, n);
    lemma_paid_bounds(after, n, n);
    if all_set(after.paid_flags) {
        lemma_paid_all(after, n, n);
    }
}

/// An address that is listed has a first position.
pub(crate) proof fn lemma_listed(list: Seq<Address>, a: Address)
    requires
        list.contains(a),
    ensures
        is_first(list, position(list, a)),
        list[position(list, a)] == a,
{
    let m = choose|i: int| 0 <= i < list.len() && list[i] == a;
    lemma_first_before(list, m);
}

/// What stands at `m` has a first position.
pub(crate) proof fn lemma_first_before(list: Seq<Address>, m: int)
    requires
        0 <= m < list.len(),
    ensures
        exists|i: int| #[trigger] is_first(list, i) && list[i] == list[m],
    decreases m,
{
    if !is_first(list, m) {
        let j = choose|j: int| 0 <= j < m && list[j] == list[m];
        lemma_first_before(list, j);
    }
}

/// Changing the record of one tenant changes the sum by the change of what is
/// held for that tenant.
pub(crate) proof fn lemma_held_for_insert(
    tenants: Seq<Address>,
    escrows: Map<Address, DepositEscrow>,
    a: Address,
    record: DepositEscrow,
    k: int,
)
    requires
        tenants.contains(a),
        0 <= k <= tenants.len(),
    ensures
        held_for(tenants, escrows.insert(a, record), k) == held_for(tenants, escrows, k) + if position(
            tenants,
            a,
        ) < k {
            held(escrows.insert(a, record), a) - held(escrows, a)
        } else {
            0
        },
    decreases k,
{
    lemma_listed(tenants, a);
    if k > 0 {
        lemma_held_for_insert(tenants, escrows, a, record, k - 1);
        if is_first(tenants, k - 1) && tenants[k - 1] == a {
            assert(position(tenants, a) == k - 1) by {
                let p = position(tenants, a);
                assert(is_first(tenants, p) && tenants[p] == a);
            }
        }
    }
}

/// Nothing is held by blank records.
pub(crate) proof fn lemma_held_for_none(
    tenants: Seq<Address>,
    escrows: Map<Address, DepositEscrow>,
    k: int,
)
    requires
        0 <= k <= tenants.len(),
        forall|i: int| 0 <= i < k ==> held(escrows, #[trigger] tenants[i]) == 0,
    ensures
        held_for(tenants, escrows, k) == 0,
    decreases k,
{
    if k > 0 {
        lemma_held_for_none(tenants, escrows, k - 1);
    }
}

/// With one tenant holding nothing, at most all the others hold a deposit.
pub(crate) proof fn lemma_held_for_bound(
    tenants: Seq<Address>,
    escrows: Map<Address, DepositEscrow>,
    deposit: int,
    p: int,
    k: int,
)
    requires
        0 <= k <= tenants.len(),
        0 <= p,
        deposit > 0,
        forall|i: int| 0 <= i < k ==> 0 <= held(escrows, #[trigger] tenants[i]) <= deposit,
        p < k ==> held(escrows, tenants[p]) == 0,
    ensures
        0 <= held_for(tenants, escrows, k) <= deposit * (k - if p < k {
            1int
        } else {
            0
        }),
    decreases k,
{
    if k > 0 {
        lemma_held_for_bound(tenants, escrows, deposit, p, k - 1);
        if p == k - 1 {
        } else {
            let c = if p < k {
                1int
            } else {
                0
            };
            assert(deposit * (k - 1 - c) + deposit == deposit * (k - c)) by (nonlinear_arith);
        }
    } else {
        assert(deposit * 0 == 0);
    }
}

/// One effect more.
pub(crate) proof fn lemma_apply_push(ledger: LedgerView, effects: Seq<EffectView>, effect: EffectView)
    ensures
        ledger.apply_all(effects.push(effect)) == ledger.apply_all(effects).apply(effect),
        inflow(effects.push(effect)) == inflow(effects) + inflow(seq![effect]),
{
    assert(effects.push(effect).drop_last() =~= effects);
    assert(seq![effect].drop_last() =~= Seq::empty());
    assert(inflow(Seq::<EffectView>::empty()) == 0);
}

/// Effects in two parts.
pub(crate) proof fn lemma_apply_concat(ledger: LedgerView, a: Seq<EffectView>, b: Seq<EffectView>)
    ensures
        ledger.apply_all(a + b) == ledger.apply_all(a).apply_all(b),
        inflow(a + b) == inflow(a) + inflow(b),
    decreases b.len(),
{
    if b.len() == 0 {
        assert(a + b =~= a);
    } else {
        lemma_apply_concat(ledger, a, b.drop_last());
        assert((a + b).drop_last() =~= a + b.drop_last());
    }
}

/// A single effect.
pub(crate) proof fn lemma_apply_one(ledger: LedgerView, effect: EffectView)
    ensures
        ledger.apply_all(seq![effect]) == ledger.apply(effect),
        inflow(seq![effect]) == match effect {
            EffectView::Collect { token, from, amount } => amount as int,
            EffectView::PayOut { token, to, amount } => -amount,
            _ => 0,
        },
{
    assert(seq![effect].drop_last() =~= Seq::empty());
    assert(ledger.apply_all(Seq::empty()) == ledger);
    assert(inflow(Seq::<EffectView>::empty()) == 0);
}

/// Refunding the first `k` tenants marks their records and pays out what is
/// held for them.
pub(crate) proof fn lemma_refunds(ledger: LedgerView, room: RoomView, k: int)
    requires
        0 <= k <= room.tenants.len(),
    ensures
        ledger.apply_all(refunds(room, ledger.escrows, k)) == (LedgerView {
            escrows: released(ledger.escrows, room.tenants, k),
            ..ledger
        }),
        inflow(refunds(room, ledger.escrows, k)) == -held_for(room.tenants, ledger.escrows, k),
    decreases k,
{
    let escrows = ledger.escrows;
    let tenants = room.tenants;
    if k <= 0 {
        assert(released(escrows, tenants, k) =~= escrows);
    } else {
        let tenant = tenants[k - 1];
        let before = LedgerView { escrows: released(escrows, tenants, k - 1), ..ledger };
        let step = refund(room, escrows, k - 1);
        lemma_refunds(ledger, room, k - 1);
        lemma_apply_concat(ledger, refunds(room, escrows, k - 1), step);
        assert forall|a: Address| #[trigger]
            tenants.take(k).contains(a) == (tenants.take(k - 1).contains(a) || a == tenant) by {
            lemma_take_contains(tenants, k, a);
        }
        if is_first(tenants, k - 1) && held(escrows, tenant) > 0 {
            let mark = DepositEscrow { refunded: true, ..escrows[tenant] };
            let pay = EffectView::PayOut {
                token: room.usdc_token,
                to: tenant,
                amount: escrows[tenant].amount,
            };
            let write = EffectView::Store(EntryView::Escrow(tenant, mark));
            assert(step =~= seq![pay] + seq![write]);
            lemma_apply_concat(before, seq![pay], seq![write]);
            lemma_apply_one(before, pay);
            lemma_apply_one(before, write);
            assert(released(escrows, tenants, k) =~= released(escrows, tenants, k - 1).insert(
                tenant,
                mark,
            ));
        } else {
            assert(before.apply_all(step) == before);
            assert(inflow(step) == 0);
            if !is_first(tenants, k - 1) {
                let j = choose|j: int| 0 <= j < k - 1 && tenants[j] == tenant;
                assert(tenants.take(k - 1)[j] == tenant);
            }
            assert(released(escrows, tenants, k) =~= released(escrows, tenants, k - 1));
        }
    }
}

/// Writing blank records gives each of the first `k` tenants one and leaves all
/// other records as they are.
pub(crate) proof fn lemma_blank_records(ledger: LedgerView, tenants: Seq<Address>, k: int)
    requires
        0 <= k <= tenants.len(),
    ensures
        ({
            let after = ledger.apply_all(blank_records(tenants).take(k));
            &&& after == LedgerView { escrows: after.escrows, ..ledger }
            &&& forall|a: Address| #[trigger]
                after.escrows.contains_key(a) <==> tenants.take(k).contains(a)
                    || ledger.escrows.contains_key(a)
            &&& forall|a: Address| #[trigger]
                after.escrows.contains_key(a) ==> after.escrows[a] == if tenants.take(k).contains(
                    a,
                ) {
                    DepositEscrow { tenant: a, amount: 0, refunded: false }
                } else {
                    ledger.escrows[a]
                }
        }),
        inflow(blank_records(tenants).take(k)) == 0,
    decreases k,
{
    let effects = blank_records(tenants);
    if k <= 0 {
        assert(effects.take(k) =~= Seq::empty());
    } else {
        let tenant = tenants[k - 1];
        lemma_blank_records(ledger, tenants, k - 1);
        assert(effects.take(k) =~= effects.take(k - 1).push(effects[k - 1]));
        lemma_apply_push(ledger, effects.take(k - 1), effects[k - 1]);
        lemma_apply_one(ledger, effects[k - 1]);
        assert forall|a: Address| #[trigger]
            tenants.take(k).contains(a) == (tenants.take(k - 1).contains(a) || a == tenant) by {
            lemma_take_contains(tenants, k, a);
        }
    }
}

/// Nothing has been paid while no flag is set.
pub(crate) proof fn lemma_paid_none(bill: BillView, n: int, k: int)
    requires
        0 <= k <= bill.paid_flags.len(),
        forall|i: int| 0 <= i < k ==> !bill.paid_flags[i],
    ensures
        paid(bill, n, k) == 0,
    decreases k,
{
    if k > 0 {
        lemma_paid_none(bill, n, k - 1);
    }
}

/// Where an address first occurs is where nothing before it is that address.
pub(crate) proof fn lemma_position(list: Seq<Address>, i: int)
    requires
        is_first(list, i),
    ensures
        position(list, list[i]) == i,
{
    let j = position(list, list[i]);
    assert(is_first(list, j) && list[j] == list[i]);
}

/// The prefix ends at the first tenant without a record.
pub(crate) proof fn lemma_recorded_prefix(tenants: Seq<Address>, escrows: Map<Address, DepositEscrow>)
    ensures
        0 <= recorded_prefix(tenants, escrows) <= tenants.len(),
        recorded(tenants, escrows, recorded_prefix(tenants, escrows)),
        recorded_prefix(tenants, escrows) < tenants.len() ==> !escrows.contains_key(
            tenants[recorded_prefix(tenants, escrows)],
        ),
{
    if !recorded(tenants, escrows, tenants.len() as int) {
        lemma_some_prefix(tenants, escrows, tenants.len() as int);
    }
}

/// If one of the first `k` tenants has no record, there is a first such tenant.
pub(crate) proof fn lemma_some_prefix(tenants: Seq<Address>, escrows: Map<Address, DepositEscrow>, k: int)
    requires
        0 <= k <= tenants.len(),
        !recorded(tenants, escrows, k),
    ensures
        exists|m: int|
            0 <= m < tenants.len() && #[trigger] recorded(tenants, escrows, m)
                && !escrows.contains_key(tenants[m]),
    decreases k,
{
    if k > 0 {
        if recorded(tenants, escrows, k - 1) {
            assert(!escrows.contains_key(tenants[k - 1]));
        } else {
            lemma_some_prefix(tenants, escrows, k - 1);
        }
    }
}

/// What is held does not shrink as more tenants are counted.
pub(crate) proof fn lemma_held_for_grows(
    tenants: Seq<Address>,
    escrows: Map<Address, DepositEscrow>,
    k: int,
    m: int,
)
    requires
        0 <= k <= m,
    ensures
        0 <= held_for(tenants, escrows, k) <= held_for(tenants, escrows, m),
    decreases m,
{
    if k < m {
        lemma_held_for_grows(tenants, escrows, k, m - 1);
    } else if k > 0 {
        lemma_held_for_grows(tenants, escrows, k - 1, m - 1);
    }
}

/// What is paid out by effects in two parts.
pub(crate) proof fn lemma_paid_to_concat(a: Seq<EffectView>, b: Seq<EffectView>, party: Address)
    ensures
        paid_to(a + b, party) == paid_to(a, party) + paid_to(b, party),
    decreases b.len(),
{
    if b.len() == 0 {
        assert(a + b =~= a);
    } else {
        lemma_paid_to_concat(a, b.drop_last(), party);
        assert((a + b).drop_last() =~= a + b.drop_last());
    }
}

/// Without a payment nobody is paid.
pub(crate) proof fn lemma_pays_nobody(effects: Seq<EffectView>, party: Address)
    requires
        pays_nothing(effects),
    ensures
        paid_to(effects, party) == 0,
    decreases effects.len(),
{
    if effects.len() > 0 {
        assert(pays_nothing(effects.drop_last())) by {
            assert forall|i: int| 0 <= i < effects.drop_last().len() implies !((
            #[trigger] effects.drop_last()[i]) is PayOut) by {
                assert(effects.drop_last()[i] == effects[i]);
            }
        }
        lemma_pays_nobody(effects.drop_last(), party);
        assert(!(effects[effects.len() - 1] is PayOut));
    }
}

/// Refunding the first `k` tenants pays each of them what is held for them.
pub(crate) proof fn lemma_refunds_paid_to(
    room: RoomView,
    escrows: Map<Address, DepositEscrow>,
    k: int,
    party: Address,
)
    requires
        0 <= k <= room.tenants.len(),
    ensures
        paid_to(refunds(room, escrows, k), party) == if room.tenants.take(k).contains(party) {
            held(escrows, party)
        } else {
            0
        },
    decreases k,
{
    let tenants = room.tenants;
    if k > 0 {
        let tenant = tenants[k - 1];
        let step = refund(room, escrows, k - 1);
        lemma_refunds_paid_to(room, escrows, k - 1, party);
        lemma_paid_to_concat(refunds(room, escrows, k - 1), step, party);
        lemma_take_contains(tenants, k, party);
        if is_first(tenants, k - 1) {
            if tenants.take(k - 1).contains(tenant) {
                let list = tenants.take(k - 1);
                let j = choose|j: int| 0 <= j < list.len() && list[j] == tenant;
                assert(tenants[j] == tenant);
            }
            if held(escrows, tenant) > 0 {
                let pay = EffectView::PayOut {
                    token: room.usdc_token,
                    to: tenant,
                    amount: escrows[tenant].amount,
                };
                assert(step.drop_last() =~= seq![pay]);
                assert(seq![pay].drop_last() =~= Seq::empty());
                assert(paid_to(Seq::empty(), party) == 0);
                assert(paid_to(seq![pay], party) == if party == tenant {
                    held(escrows, tenant)
                } else {
                    0
                });
            }
        } else {
            let j = choose|j: int| 0 <= j < k - 1 && tenants[j] == tenant;
            assert(tenants.take(k - 1)[j] == tenant);
        }
    }
}

/// What is in the first `k` entries of a list.
pub(crate) proof fn lemma_take_contains(list: Seq<Address>, k: int, a: Address)
    requires
        0 < k <= list.len(),
    ensures
        list.take(k).contains(a) == (list.take(k - 1).contains(a) || a == list[k - 1]),
{
    let shorter = list.take(k - 1);
    if shorter.contains(a) {
        let j = choose|j: int| 0 <= j < shorter.len() && shorter[j] == a;
        assert(list.take(k)[j] == a);
    }
    if list.take(k).contains(a) && a != list[k - 1] {
        let j = choose|j: int| 0 <= j < list.take(k).len() && list.take(k)[j] == a;
        assert(shorter[j] == a);
    }
    assert(list.take(k)[k - 1] == list[k - 1]);
}

/// A refund is made of payments in the token of the room and of records.
pub(crate) proof fn lemma_refunds_shape(
    room: RoomView,
    escrows: Map<Address, DepositEscrow>,
    k: int,
)
    requires
        0 <= k <= room.tenants.len(),
    ensures
        forall|i: int|
            0 <= i < refunds(room, escrows, k).len() ==> match #[trigger] refunds(
                room,
                escrows,
                k,
            )[i] {
                EffectView::PayOut { token, to, amount } => token == room.usdc_token && amount > 0,
                EffectView::Store(EntryView::Escrow(_, _)) => true,
                _ => false,
            },
    decreases k,
{
    if k > 0 {
        lemma_refunds_shape(room, escrows, k - 1);
        let before = refunds(room, escrows, k - 1);
        let step = refund(room, escrows, k - 1);
        assert forall|i: int| 0 <= i < refunds(room, escrows, k).len() implies match #[trigger] refunds(
            room,
            escrows,
            k,
        )[i] {
            EffectView::PayOut { token, to, amount } => token == room.usdc_token && amount > 0,
            EffectView::Store(EntryView::Escrow(_, _)) => true,
            _ => false,
        } by {
            if i < before.len() {
                assert(refunds(room, escrows, k)[i] == before[i]);
            } else {
                assert(refunds(room, escrows, k)[i] == step[i - before.len()]);
            }
        }
    }
}

/// Effects that only pay out bring in less and less.
pub(crate) proof fn lemma_inflow_falls(effects: Seq<EffectView>, k: int)
    requires
        0 <= k <= effects.len(),
        forall|i: int|
            0 <= i < effects.len() ==> match #[trigger] effects[i] {
                EffectView::Collect { token, from, amount } => false,
                EffectView::PayOut { token, to, amount } => amount >= 0,
                _ => true,
            },
    ensures
        inflow(effects.take(k)) >= inflow(effects),
    decreases effects.len(),
{
    if k == effects.len() {
        assert(effects.take(k) =~= effects);
    } else {
        assert forall|i: int| 0 <= i < effects.drop_last().len() implies match #[trigger] effects.drop_last()[i] {
            EffectView::Collect { token, from, amount } => false,
            EffectView::PayOut { token, to, amount } => amount >= 0,
            _ => true,
        } by {
            assert(effects.drop_last()[i] == effects[i]);
        }
        lemma_inflow_falls(effects.drop_last(), k);
        assert(effects.drop_last().take(k) =~= effects.take(k));
        assert(effects.last() == effects[effects.len() - 1]);
    }
}

/// In valid books every tenant has a record, and what is held for them all is
/// the total.
pub(crate) proof fn lemma_all_recorded(ledger: LedgerView)
    requires
        valid(ledger),
        ledger.room is Some,
    ensures
        ({
            let tenants = ledger.room->0.tenants;
            &&& recorded_prefix(tenants, ledger.escrows) == tenants.len()
            &&& held_for(tenants, ledger.escrows, tenants.len() as int) == ledger.deposited()
            &&& ledger.deposited() >= 0
        }),
{
    let tenants = ledger.room->0.tenants;
    assert forall|i: int| 0 <= i < tenants.len() implies ledger.escrows.contains_key(
        #[trigger] tenants[i],
    ) by {
        assert(tenants.contains(tenants[i]));
    }
    lemma_held_for_grows(tenants, ledger.escrows, 0, tenants.len() as int);
}

/// What casting votes leaves on the ledger.
pub(crate) proof fn lemma_ballot(
    ledger: LedgerView,
    caller: Address,
    landlord_approved: bool,
    tenant_approved: bool,
)
    requires
        valid(ledger),
        ledger.room is Some,
    ensures
        ({
            let voted = seq![EffectView::RequireAuth(caller)] + ledger.ballot(
                caller,
                landlord_approved,
                tenant_approved,
            );
            &&& ledger.apply_all(voted) == LedgerView {
                landlord_approval: Some(ledger.landlord_vote(caller, landlord_approved)),
                tenant_approval: Some(ledger.tenant_vote(caller, tenant_approved)),
                ..ledger
            }
            &&& pays_nothing(voted)
            &&& inflow(voted) == 0
        }),
{
    let auth = EffectView::RequireAuth(caller);
    let mine = EffectView::Store(EntryView::LandlordApproval(landlord_approved));
    let theirs = EffectView::Store(EntryView::TenantApproval(tenant_approved));
    let is_landlord = caller == ledger.room->0.landlord;
    let is_tenant = ledger.room->0.tenants.contains(caller);
    let voted = seq![auth] + ledger.ballot(caller, landlord_approved, tenant_approved);
    let first = if is_landlord {
        seq![auth].push(mine)
    } else {
        seq![auth]
    };
    lemma_apply_one(ledger, auth);
    lemma_apply_one(ledger, mine);
    lemma_apply_one(ledger, theirs);
    lemma_apply_push(ledger, seq![auth], mine);
    lemma_apply_push(ledger, first, theirs);
    if is_tenant {
        assert(voted =~= first.push(theirs));
    } else {
        assert(voted =~= first);
    }
}

/// Where nothing is held in all, nothing is held for anyone.
pub(crate) proof fn lemma_held_for_zero(
    tenants: Seq<Address>,
    escrows: Map<Address, DepositEscrow>,
    k: int,
)
    requires
        0 <= k <= tenants.len(),
        held_for(tenants, escrows, k) == 0,
    ensures
        forall|i: int| 0 <= i < k ==> held(escrows, #[trigger] tenants[i]) == 0,
    decreases k,
{
    if k > 0 {
        lemma_held_for_grows(tenants, escrows, k - 1, k);
        lemma_held_for_zero(tenants, escrows, k - 1);
        if !is_first(tenants, k - 1) {
            let j = choose|j: int| 0 <= j < k - 1 && #[trigger] tenants[j] == tenants[k - 1];
            assert(held(escrows, tenants[j]) == 0);
        }
    }
}

/// Where nothing is held there is nothing to refund.
pub(crate) proof fn lemma_no_refunds(
    room: RoomView,
    escrows: Map<Address, DepositEscrow>,
    k: int,
)
    requires
        0 <= k <= room.tenants.len(),
        forall|i: int| 0 <= i < k ==> held(escrows, #[trigger] room.tenants[i]) == 0,
    ensures
        refunds(room, escrows, k) == Seq::<EffectView>::empty(),
    decreases k,
{
    if k > 0 {
        lemma_no_refunds(room, escrows, k - 1);
        assert(held(escrows, room.tenants[k - 1]) == 0);
        assert(refunds(room, escrows, k) =~= Seq::empty());
    }
}

/// Among as many different payers as there are tenants is every tenant; among
/// fewer, one is missing.
pub(crate) proof fn lemma_everyone_paid(tenants: Seq<Address>, payers: Seq<Address>)
    requires
        tenants.no_duplicates(),
        payers.no_duplicates(),
        payers.len() <= tenants.len(),
        forall|p: Address| #[trigger] payers.contains(p) ==> tenants.contains(p),
    ensures
        (forall|i: int| 0 <= i < tenants.len() ==> payers.contains(#[trigger] tenants[i])) <==> (
        payers.len() == tenants.len()),
{
    let owing = tenants.to_set();
    let paying = payers.to_set();
    tenants.unique_seq_to_set();
    payers.unique_seq_to_set();
    assert(paying.subset_of(owing)) by {
        assert forall|a: Address| paying.contains(a) implies owing.contains(a) by {
            assert(payers.contains(a));
        }
    }
    if payers.len() == tenants.len() {
        vstd::set_lib::lemma_subset_equality(paying, owing);
        assert forall|i: int| 0 <= i < tenants.len() implies payers.contains(
            #[trigger] tenants[i],
        ) by {
            assert(owing.contains(tenants[i]));
            assert(paying.contains(tenants[i]));
        }
    } else if forall|i: int| 0 <= i < tenants.len() ==> payers.contains(#[trigger] tenants[i]) {
        assert(owing.subset_of(paying)) by {
            assert forall|a: Address| owing.contains(a) implies paying.contains(a) by {
                assert(tenants.contains(a));
                let i = choose|i: int| 0 <= i < tenants.len() && tenants[i] == a;
                assert(payers.contains(tenants[i]));
            }
        }
        vstd::set_lib::lemma_len_subset(owing, paying);
    }
}

/// What casting votes leaves on any ledger.
pub(crate) proof fn lemma_votes_cast(
    ledger: LedgerView,
    caller: Address,
    landlord_approved: bool,
    tenant_approved: bool,
)
    ensures
        ({
            let voted = seq![EffectView::RequireAuth(caller)] + ledger.ballot(
                caller,
                landlord_approved,
                tenant_approved,
            );
            ledger.apply_all(voted) == LedgerView {
                landlord_approval: if caller == ledger.room->0.landlord {
                    Some(landlord_approved)
                } else {
                    ledger.landlord_approval
                },
                tenant_approval: if ledger.room->0.tenants.contains(caller) {
                    Some(tenant_approved)
                } else {
                    ledger.tenant_approval
                },
                ..ledger
            }
        }),
{
    let auth = EffectView::RequireAuth(caller);
    let mine = EffectView::Store(EntryView::LandlordApproval(landlord_approved));
    let theirs = EffectView::Store(EntryView::TenantApproval(tenant_approved));
    let voted = seq![auth] + ledger.ballot(caller, landlord_approved, tenant_approved);
    let first = if caller == ledger.room->0.landlord {
        seq![auth].push(mine)
    } else {
        seq![auth]
    };
    lemma_apply_one(ledger, auth);
    lemma_apply_push(ledger, seq![auth], mine);
    lemma_apply_push(ledger, first, theirs);
    if ledger.room->0.tenants.contains(caller) {
        assert(voted =~= first.push(theirs));
    } else {
        assert(voted =~= first);
    }
}

/// Among the refunds of the first `k` tenants is one payment, of the recorded
/// amount, for each of them who is owed one, and no other payment. The payments
/// are in the order of the list.
pub(crate) proof fn lemma_refund_payments(
    room: RoomView,
    escrows: Map<Address, DepositEscrow>,
    k: int,
)
    requires
        0 <= k <= room.tenants.len(),
    ensures
        ({
            let effects = refunds(room, escrows, k);
            &&& forall|p: int|
                0 <= p < effects.len() ==> match #[trigger] effects[p] {
                    EffectView::PayOut { token, to, amount } => {
                        &&& token == room.usdc_token
                        &&& room.tenants.take(k).contains(to)
                        &&& held(escrows, to) > 0
                        &&& amount == escrows[to].amount
                    },
                    _ => true,
                }
            &&& forall|p: int, q: int|
                0 <= p < q < effects.len() && (#[trigger] effects[p]) is PayOut && (
                #[trigger] effects[q]) is PayOut ==> exists|i: int|
                    0 <= i < k && #[trigger] room.tenants[i] == effects[p]->PayOut_to
                        && !room.tenants.take(i + 1).contains(effects[q]->PayOut_to)
            &&& forall|a: Address| #[trigger]
                room.tenants.take(k).contains(a) && held(escrows, a) > 0 ==> exists|p: int|
                    0 <= p < effects.len() && #[trigger] effects[p] == (EffectView::PayOut {
                        token: room.usdc_token,
                        to: a,
                        amount: escrows[a].amount,
                    })
        }),
    decreases k,
{
    let tenants = room.tenants;
    let effects = refunds(room, escrows, k);
    if k > 0 {
        let tenant = tenants[k - 1];
        let before = refunds(room, escrows, k - 1);
        let step = refund(room, escrows, k - 1);
        lemma_refund_payments(room, escrows, k - 1);
        assert(effects == before + step);
        assert forall|a: Address| #[trigger]
            tenants.take(k).contains(a) == (tenants.take(k - 1).contains(a) || a == tenant) by {
            lemma_take_contains(tenants, k, a);
        }
        if is_first(tenants, k - 1) {
            if tenants.take(k - 1).contains(tenant) {
                let list = tenants.take(k - 1);
                let j = choose|j: int| 0 <= j < list.len() && list[j] == tenant;
                assert(tenants[j] == tenant);
            }
        } else {
            let j = choose|j: int| 0 <= j < k - 1 && tenants[j] == tenant;
            assert(tenants.take(k - 1)[j] == tenant);
        }
        assert(forall|p: int| 0 <= p < before.len() ==> #[trigger] effects[p] == before[p]);
        assert(forall|p: int|
            before.len() <= p < effects.len() ==> #[trigger] effects[p] == step[p - before.len()]);
        assert forall|p: int, q: int|
            0 <= p < q < effects.len() && (#[trigger] effects[p]) is PayOut && (
            #[trigger] effects[q]) is PayOut implies exists|i: int|
            0 <= i < k && #[trigger] tenants[i] == effects[p]->PayOut_to && !tenants.take(
                i + 1,
            ).contains(effects[q]->PayOut_to) by {
            let list = tenants.take(k - 1);
            if q < before.len() {
                let i = choose|i: int|
                    0 <= i < k - 1 && #[trigger] tenants[i] == before[p]->PayOut_to
                        && !tenants.take(i + 1).contains(before[q]->PayOut_to);
                assert(tenants[i] == effects[p]->PayOut_to);
            } else {
                assert(effects[p] == before[p]);
                let i = choose|i: int| 0 <= i < list.len() && list[i] == before[p]->PayOut_to;
                assert(tenants[i] == effects[p]->PayOut_to);
                let upto = tenants.take(i + 1);
                if upto.contains(tenant) {
                    let j = choose|j: int| 0 <= j < upto.len() && upto[j] == tenant;
                    assert(tenants[j] == tenant);
                }
            }
        }
        assert forall|a: Address| #[trigger]
            tenants.take(k).contains(a) && held(escrows, a) > 0 implies exists|p: int|
            0 <= p < effects.len() && #[trigger] effects[p] == (EffectView::PayOut {
                token: room.usdc_token,
                to: a,
                amount: escrows[a].amount,
            }) by {
            if tenants.take(k - 1).contains(a) {
                let p = choose|p: int|
                    0 <= p < before.len() && #[trigger] before[p] == (EffectView::PayOut {
                        token: room.usdc_token,
                        to: a,
                        amount: escrows[a].amount,
                    });
                assert(effects[p] == before[p]);
            } else {
                assert(effects[before.len() as int] == step[0]);
            }
        }
    }
}

} // verus!
