//! The contract as mathematics: what the ledger holds and what each call plans,
//! given what the ledger holds.
use crate::entries::{BillView, DepositEscrow, EffectView, EntryView, Error, PlanView, RoomView};
use crate::ledger_vec::Address;
use vstd::prelude::*;

verus! {

/// The ledger entries of the contract. `None` stands for an entry that was
/// never written (or, for the bill, that has expired).
#[verifier::ext_equal]
pub struct LedgerView {
    pub room: Option<RoomView>,
    pub bill: Option<BillView>,
    pub escrows: Map<Address, DepositEscrow>,
    pub total_deposited: Option<i128>,
    pub landlord_approval: Option<bool>,
    pub tenant_approval: Option<bool>,
}

/// `list[i]` occurs nowhere before position `i`.
pub open spec fn is_first(list: Seq<Address>, i: int) -> bool {
    0 <= i < list.len() && forall|j: int| 0 <= j < i ==> list[j] != list[i]
}

/// The position at which `a` first occurs in `list`.
pub open spec fn position(list: Seq<Address>, a: Address) -> int {
    choose|i: int| #[trigger] is_first(list, i) && list[i] == a
}

/// Every flag is set.
pub open spec fn all_set(flags: Seq<bool>) -> bool {
    forall|i: int| 0 <= i < flags.len() ==> flags[i]
}

/// `x` is a value of the amount type.
pub open spec fn is_amount(x: int) -> bool {
    i128::MIN <= x <= i128::MAX
}

/// What is due from tenant `i` of `n`: an equal share, rounded down, and for the
/// last tenant all that the others leave.
pub open spec fn due(total: int, share: int, n: int, i: int) -> int {
    if i == n - 1 {
        total - share * (n - 1)
    } else {
        share
    }
}

/// The deposit still held for `a`.
pub open spec fn held(escrows: Map<Address, DepositEscrow>, a: Address) -> int {
    if escrows.contains_key(a) && !escrows[a].refunded && escrows[a].amount > 0 {
        escrows[a].amount as int
    } else {
        0
    }
}

/// The deposits still held for the first `k` tenants of the list. A tenant who
/// is listed twice counts once.
pub open spec fn held_for(
    tenants: Seq<Address>,
    escrows: Map<Address, DepositEscrow>,
    k: int,
) -> int
    decreases k,
{
    if k <= 0 {
        0
    } else {
        held_for(tenants, escrows, k - 1) + if is_first(tenants, k - 1) {
            held(escrows, tenants[k - 1])
        } else {
            0
        }
    }
}

/// Every one of the first `k` tenants has an escrow record.
pub open spec fn recorded(
    tenants: Seq<Address>,
    escrows: Map<Address, DepositEscrow>,
    k: int,
) -> bool {
    forall|i: int| 0 <= i < k ==> escrows.contains_key(#[trigger] tenants[i])
}

/// The number of tenants before the first one without an escrow record.
pub open spec fn recorded_prefix(
    tenants: Seq<Address>,
    escrows: Map<Address, DepositEscrow>,
) -> int {
    if recorded(tenants, escrows, tenants.len() as int) {
        tenants.len() as int
    } else {
        choose|k: int|
            0 <= k < tenants.len() && #[trigger] recorded(tenants, escrows, k)
                && !escrows.contains_key(tenants[k])
    }
}

/// The refund of tenant `i`: the deposit held for the tenant is paid out and the
/// record marked. Nothing for a tenant without one.
pub open spec fn refund(
    room: RoomView,
    escrows: Map<Address, DepositEscrow>,
    i: int,
) -> Seq<EffectView> {
    let tenant = room.tenants[i];
    if is_first(room.tenants, i) && held(escrows, tenant) > 0 {
        seq![
            EffectView::PayOut {
                token: room.usdc_token,
                to: tenant,
                amount: escrows[tenant].amount,
            },
            EffectView::Store(
                EntryView::Escrow(tenant, DepositEscrow { refunded: true, ..escrows[tenant] }),
            ),
        ]
    } else {
        Seq::empty()
    }
}

/// The refunds of the first `k` tenants.
pub open spec fn refunds(
    room: RoomView,
    escrows: Map<Address, DepositEscrow>,
    k: int,
) -> Seq<EffectView>
    decreases k,
{
    if k <= 0 {
        Seq::empty()
    } else {
        refunds(room, escrows, k - 1) + refund(room, escrows, k - 1)
    }
}

/// The empty escrow records that a new room starts with.
pub open spec fn blank_records(tenants: Seq<Address>) -> Seq<EffectView> {
    Seq::new(
        tenants.len(),
        |i: int|
            EffectView::Store(
                EntryView::Escrow(
                    tenants[i],
                    DepositEscrow { tenant: tenants[i], amount: 0, refunded: false },
                ),
            ),
    )
}

impl PlanView {
    /// The call has these effects and succeeds.
    pub open spec fn done(effects: Seq<EffectView>) -> PlanView {
        PlanView { effects, result: Ok(()) }
    }

    /// The call has these effects and then fails.
    pub open spec fn failed(effects: Seq<EffectView>, error: Error) -> PlanView {
        PlanView { effects, result: Err(error) }
    }

    /// A call that needs the authorization of `party`: it fails with `before`
    /// ahead of the authorization, fails with `after` behind it, or else goes on
    /// to `effects`.
    pub open spec fn guarded(
        before: Option<Error>,
        party: Address,
        after: Option<Error>,
        effects: Seq<EffectView>,
    ) -> PlanView {
        match (before, after) {
            (Some(error), _) => PlanView::failed(Seq::empty(), error),
            (None, Some(error)) => PlanView::failed(seq![EffectView::RequireAuth(party)], error),
            (None, None) => PlanView::done(seq![EffectView::RequireAuth(party)] + effects),
        }
    }
}

impl BillView {
    /// A new bill over `total` for `n` tenants.
    pub open spec fn issued(total: i128, n: nat) -> BillView {
        BillView {
            total_amount: total,
            share_per_tenant: (total as int / n as int) as i128,
            paid_flags: Seq::new(n, |i: int| false),
            collected: 0,
            settled: false,
        }
    }

    /// What is due from tenant `i` of `n`.
    pub open spec fn due_from(self, n: int, i: int) -> int {
        due(self.total_amount as int, self.share_per_tenant as int, n, i)
    }

    /// The bill after tenant `i` of `n` has paid.
    pub open spec fn paid_by(self, n: int, i: int) -> BillView {
        let flags = self.paid_flags.update(i, true);
        BillView {
            paid_flags: flags,
            collected: (self.collected + self.due_from(n, i)) as i128,
            settled: all_set(flags),
            ..self
        }
    }
}

impl LedgerView {
    /// The ledger before the contract has been set up.
    pub open spec fn empty() -> LedgerView {
        LedgerView {
            room: None,
            bill: None,
            escrows: Map::empty(),
            total_deposited: None,
            landlord_approval: None,
            tenant_approval: None,
        }
    }

    /// The ledger with one entry written.
    pub open spec fn store(self, entry: EntryView) -> LedgerView {
        match entry {
            EntryView::Room(room) => LedgerView { room: Some(room), ..self },
            EntryView::Bill(bill) => LedgerView { bill: Some(bill), ..self },
            EntryView::Escrow(tenant, record) => LedgerView {
                escrows: self.escrows.insert(tenant, record),
                ..self
            },
            EntryView::TotalDeposited(total) => LedgerView {
                total_deposited: Some(total),
                ..self
            },
            EntryView::LandlordApproval(vote) => LedgerView {
                landlord_approval: Some(vote),
                ..self
            },
            EntryView::TenantApproval(vote) => LedgerView { tenant_approval: Some(vote), ..self },
        }
    }

    /// The ledger after one effect.
    pub open spec fn apply(self, effect: EffectView) -> LedgerView {
        match effect {
            EffectView::Store(entry) => self.store(entry),
            _ => self,
        }
    }

    /// The ledger after a sequence of effects.
    pub open spec fn apply_all(self, effects: Seq<EffectView>) -> LedgerView
        decreases effects.len(),
    {
        if effects.len() == 0 {
            self
        } else {
            self.apply_all(effects.drop_last()).apply(effects.last())
        }
    }

    /// The ledger after a call that the host carried out. An error undoes all.
    pub open spec fn after(self, plan: PlanView) -> LedgerView {
        match plan.result {
            Ok(_) => self.apply_all(plan.effects),
            Err(_) => self,
        }
    }

    /// The total of the deposits, as recorded.
    pub open spec fn deposited(self) -> i128 {
        match self.total_deposited {
            Some(total) => total,
            None => 0,
        }
    }

    /// Why `tenant` may not act as a tenant.
    pub open spec fn tenant_refusal(self, tenant: Address) -> Option<Error> {
        match self.room {
            None => Some(Error::NotInitialized),
            Some(room) => if room.tenants.contains(tenant) {
                None
            } else {
                Some(Error::UnauthorizedTenant)
            },
        }
    }

    /// Setting up the room.
    pub open spec fn initialize_room(self, room: RoomView) -> PlanView {
        PlanView::guarded(
            if self.room is Some {
                Some(Error::AlreadyInitialized)
            } else if room.tenants.len() == 0 {
                Some(Error::NoTenants)
            } else if room.deposit_per_tenant <= 0 {
                Some(Error::InvalidAmount)
            } else {
                None
            },
            room.landlord,
            None,
            seq![
                EffectView::Store(EntryView::Room(room)),
                EffectView::Store(EntryView::TotalDeposited(0)),
                EffectView::Store(EntryView::LandlordApproval(false)),
                EffectView::Store(EntryView::TenantApproval(false)),
            ] + blank_records(room.tenants),
        )
    }

    /// Why `tenant`, once authorized, may not pay a deposit.
    pub open spec fn deposit_refusal(self, tenant: Address) -> Option<Error> {
        if !self.escrows.contains_key(tenant) {
            Some(Error::NotInitialized)
        } else if self.escrows[tenant].amount > 0 {
            Some(Error::DepositAlreadyPaid)
        } else {
            None
        }
    }

    /// Paying a deposit.
    pub open spec fn deposit_funds(self, tenant: Address) -> PlanView {
        let room = self.room->0;
        PlanView::guarded(
            self.tenant_refusal(tenant),
            tenant,
            self.deposit_refusal(tenant),
            seq![
                EffectView::Collect {
                    token: room.usdc_token,
                    from: tenant,
                    amount: room.deposit_per_tenant,
                },
                EffectView::Store(
                    EntryView::Escrow(
                        tenant,
                        DepositEscrow { amount: room.deposit_per_tenant, ..self.escrows[tenant] },
                    ),
                ),
                EffectView::Store(
                    EntryView::TotalDeposited((self.deposited() + room.deposit_per_tenant) as i128),
                ),
            ],
        )
    }

    /// The new total of the deposits is an amount.
    pub open spec fn deposit_fits(self, tenant: Address) -> bool {
        self.tenant_refusal(tenant) is None && self.deposit_refusal(tenant) is None ==> is_amount(
            self.deposited() + self.room->0.deposit_per_tenant,
        )
    }

    /// Why the landlord, once authorized, may not issue a bill.
    pub open spec fn bill_refusal(self, total_amount: i128) -> Option<Error> {
        if total_amount <= 0 {
            Some(Error::InvalidAmount)
        } else if self.bill is Some && !self.bill->0.settled {
            Some(Error::BillAlreadyActive)
        } else {
            None
        }
    }

    /// Why `caller` may not act as the landlord.
    pub open spec fn landlord_refusal(self, caller: Address) -> Option<Error> {
        match self.room {
            None => Some(Error::NotInitialized),
            Some(room) => if caller == room.landlord {
                None
            } else {
                Some(Error::UnauthorizedLandlord)
            },
        }
    }

    /// Issuing a bill.
    pub open spec fn create_bill(self, caller: Address, total_amount: i128) -> PlanView {
        PlanView::guarded(
            self.landlord_refusal(caller),
            caller,
            self.bill_refusal(total_amount),
            seq![
                EffectView::Store(
                    EntryView::Bill(
                        BillView::issued(total_amount, self.room->0.tenants.len()),
                    ),
                ),
            ],
        )
    }

    /// There is someone to split the bill among.
    pub open spec fn bill_fits(self, caller: Address, total_amount: i128) -> bool {
        self.landlord_refusal(caller) is None && self.bill_refusal(total_amount) is None
            ==> self.room->0.tenants.len() > 0
    }

    /// Why `tenant`, once authorized, may not pay a share.
    pub open spec fn share_refusal(self, tenant: Address) -> Option<Error> {
        let i = position(self.room->0.tenants, tenant);
        match self.bill {
            None => Some(Error::NoActiveBill),
            Some(bill) => if bill.settled {
                Some(Error::BillAlreadySettled)
            } else if i < bill.paid_flags.len() && bill.paid_flags[i] {
                Some(Error::ShareAlreadyPaid)
            } else {
                None
            },
        }
    }

    /// Paying a share of the bill.
    pub open spec fn pay_bill_share(self, tenant: Address) -> PlanView {
        let room = self.room->0;
        let bill = self.bill->0;
        let n = room.tenants.len() as int;
        let i = position(room.tenants, tenant);
        let paid = bill.paid_by(n, i);
        PlanView::guarded(
            self.tenant_refusal(tenant),
            tenant,
            self.share_refusal(tenant),
            seq![
                EffectView::Collect {
                    token: room.usdc_token,
                    from: tenant,
                    amount: bill.due_from(n, i) as i128,
                },
            ] + (if paid.settled {
                seq![
                    EffectView::PayOut {
                        token: room.usdc_token,
                        to: room.landlord,
                        amount: paid.collected,
                    },
                ]
            } else {
                Seq::empty()
            }) + seq![EffectView::Store(EntryView::Bill(paid))],
        )
    }

    /// The bill has a flag for the tenant, and what is due and what is then
    /// collected are amounts.
    pub open spec fn share_fits(self, tenant: Address) -> bool {
        let bill = self.bill->0;
        let n = self.room->0.tenants.len() as int;
        let i = position(self.room->0.tenants, tenant);
        self.tenant_refusal(tenant) is None && self.share_refusal(tenant) is None ==> {
            &&& i < bill.paid_flags.len()
            &&& i == n - 1 ==> is_amount(bill.share_per_tenant * (n - 1))
            &&& is_amount(bill.due_from(n, i))
            &&& is_amount(bill.collected + bill.due_from(n, i))
        }
    }

    /// The landlord's vote once `caller` has voted.
    pub open spec fn landlord_vote(self, caller: Address, landlord_approved: bool) -> bool {
        if caller == self.room->0.landlord {
            landlord_approved
        } else {
            self.landlord_approval == Some(true)
        }
    }

    /// The tenants' vote once `caller` has voted.
    pub open spec fn tenant_vote(self, caller: Address, tenant_approved: bool) -> bool {
        if self.room->0.tenants.contains(caller) {
            tenant_approved
        } else {
            self.tenant_approval == Some(true)
        }
    }

    /// The votes that `caller` may cast: each side its own.
    pub open spec fn ballot(
        self,
        caller: Address,
        landlord_approved: bool,
        tenant_approved: bool,
    ) -> Seq<EffectView> {
        (if caller == self.room->0.landlord {
            seq![EffectView::Store(EntryView::LandlordApproval(landlord_approved))]
        } else {
            Seq::empty()
        }) + (if self.room->0.tenants.contains(caller) {
            seq![EffectView::Store(EntryView::TenantApproval(tenant_approved))]
        } else {
            Seq::empty()
        })
    }

    /// Both sides approve once `caller` has voted.
    pub open spec fn agreed(
        self,
        caller: Address,
        landlord_approved: bool,
        tenant_approved: bool,
    ) -> bool {
        self.landlord_vote(caller, landlord_approved) && self.tenant_vote(caller, tenant_approved)
    }

    /// Voting on the move-out inspection.
    pub open spec fn resolve_escrow(
        self,
        caller: Address,
        landlord_approved: bool,
        tenant_approved: bool,
    ) -> PlanView {
        let room = self.room->0;
        let n = room.tenants.len() as int;
        let voted = seq![EffectView::RequireAuth(caller)] + self.ballot(
            caller,
            landlord_approved,
            tenant_approved,
        );
        let reached = recorded_prefix(room.tenants, self.escrows);
        if self.room is None {
            PlanView::failed(Seq::empty(), Error::NotInitialized)
        } else if caller != room.landlord && !room.tenants.contains(caller) {
            PlanView::failed(seq![EffectView::RequireAuth(caller)], Error::UnauthorizedTenant)
        } else if !self.agreed(caller, landlord_approved, tenant_approved) {
            PlanView::done(voted)
        } else if reached < n {
            PlanView::failed(voted + refunds(room, self.escrows, reached), Error::DepositMissing)
        } else {
            PlanView::done(
                voted + refunds(room, self.escrows, n) + seq![
                    EffectView::Store(
                        EntryView::TotalDeposited(
                            (self.deposited() - held_for(room.tenants, self.escrows, n)) as i128,
                        ),
                    ),
                ],
            )
        }
    }

    /// What is refunded and what then remains are amounts.
    pub open spec fn resolve_fits(
        self,
        caller: Address,
        landlord_approved: bool,
        tenant_approved: bool,
    ) -> bool {
        let room = self.room->0;
        let n = room.tenants.len() as int;
        let reached = recorded_prefix(room.tenants, self.escrows);
        self.room is Some && (caller == room.landlord || room.tenants.contains(caller))
            && self.agreed(caller, landlord_approved, tenant_approved) ==> {
            &&& is_amount(held_for(room.tenants, self.escrows, reached))
            &&& reached == n ==> is_amount(
                self.deposited() - held_for(room.tenants, self.escrows, n),
            )
        }
    }
}

} // verus!
