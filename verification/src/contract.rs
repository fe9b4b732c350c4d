//! The calls of the contract.
use crate::entries::{
    effect_views, Bill, DepositEscrow, Effect, EffectView, Entry, Error, Failure, Plan, PlanView,
    Room, RoomView,
};
use crate::escrows::EscrowTable;
use crate::ledger_vec::{same_address, Address, AddressList, FlagList};
use crate::lemmas::{lemma_held_for_grows, lemma_position, lemma_recorded_prefix};
use crate::model::{
    all_set, blank_records, held_for, is_amount, is_first, position, recorded, recorded_prefix,
    refunds, LedgerView,
};
use soroban_sdk::Env;
use vstd::prelude::*;

verus! {

/// The contract with its ledger entries, as one call finds them.
///
/// A call reads these entries and answers with a [`Plan`]. Nothing changes until
/// the plan is committed.
pub struct DormChainSafePay {
    room: Option<Room>,
    bill: Option<Bill>,
    escrows: EscrowTable,
    total_deposited: Option<i128>,
    landlord_approval: Option<bool>,
    tenant_approval: Option<bool>,
}

impl View for DormChainSafePay {
    type V = LedgerView;

    closed spec fn view(&self) -> LedgerView {
        LedgerView {
            room: match self.room {
                Some(room) => Some(room@),
                None => None,
            },
            bill: match self.bill {
                Some(bill) => Some(bill@),
                None => None,
            },
            escrows: self.escrows@,
            total_deposited: self.total_deposited,
            landlord_approval: self.landlord_approval,
            tenant_approval: self.tenant_approval,
        }
    }
}

/// The views of one effect more.
proof fn lemma_views_push(effects: Seq<Effect>, effect: Effect)
    ensures
        effect_views(effects.push(effect)) == effect_views(effects).push(effect@),
{
    assert(effect_views(effects.push(effect)) =~= effect_views(effects).push(effect@));
}

/// Appends an effect.
fn add_effect(effects: &mut Vec<Effect>, effect: Effect)
    ensures
        effect_views(final(effects)@) == effect_views(old(effects)@).push(effect@),
{
    proof {
        lemma_views_push(effects@, effect);
    }
    effects.push(effect);
}

impl DormChainSafePay {
    /// The contract before it has been set up.
    pub fn new() -> (contract: DormChainSafePay)
        ensures
            contract@ == LedgerView::empty(),
            contract@.room is None,
            contract@.bill is None,
            contract@.escrows == Map::<Address, DepositEscrow>::empty(),
            contract@.total_deposited is None,
            contract@.landlord_approval is None,
            contract@.tenant_approval is None,
    {
        DormChainSafePay {
            room: None,
            bill: None,
            escrows: EscrowTable::new(),
            total_deposited: None,
            landlord_approval: None,
            tenant_approval: None,
        }
    }

    /// Writes one ledger entry.
    pub fn store(&mut self, entry: Entry)
        ensures
            final(self)@ == old(self)@.store(entry@),
    {
        match entry {
            Entry::Room(room) => {
                self.room = Some(room);
            },
            Entry::Bill(bill) => {
                self.bill = Some(bill);
            },
            Entry::Escrow(tenant, record) => {
                self.escrows.set(tenant, record);
            },
            Entry::TotalDeposited(total) => {
                self.total_deposited = Some(total);
            },
            Entry::LandlordApproval(vote) => {
                self.landlord_approval = Some(vote);
            },
            Entry::TenantApproval(vote) => {
                self.tenant_approval = Some(vote);
            },
        }
    }

    /// Ends a call. `carried_out` tells whether the host carried out every
    /// effect of the plan. The entries change only if it did and the plan ends
    /// in success.
    pub fn commit(&mut self, plan: Plan, carried_out: bool) -> (result: Result<(), Failure>)
        ensures
            result == if !carried_out {
                Err(Failure::Host)
            } else {
                match plan@.result {
                    Ok(_) => Ok(()),
                    Err(error) => Err(Failure::Contract(error)),
                }
            },
            final(self)@ == if carried_out {
                old(self)@.after(plan@)
            } else {
                old(self)@
            },
    {
        if !carried_out {
            return Err(Failure::Host);
        }
        match plan.result {
            Err(error) => Err(Failure::Contract(error)),
            Ok(_) => {
                let ghost all = effect_views(plan.effects@);
                for effect in iter: plan.effects
                    invariant
                        all == effect_views(iter.seq()),
                        self@ == old(self)@.apply_all(all.take(iter.index())),
                {
                    proof {
                        let k = iter.index();
                        assert(all.take(k + 1).drop_last() =~= all.take(k));
                        assert(all.take(k + 1).last() == effect@);
                    }
                    match effect {
                        Effect::Store(entry) => self.store(entry),
                        _ => {},
                    }
                }
                assert(all.take(all.len() as int) =~= all);
                Ok(())
            },
        }
    }

    /// Initializes the room contract.
    ///
    /// - `landlord`: the address that ultimately receives utility payments and
    ///   that votes on move-out inspections. The landlord must authorize the
    ///   room creation.
    /// - `tenants`: a non-empty list of unique tenant addresses.
    /// - `deposit_amount`: the per-tenant security deposit (in token base units).
    /// - `usdc_token`: address of the SEP-41 USDC token contract.
    pub fn initialize_room(
        &self,
        landlord: Address,
        tenants: AddressList,
        deposit_amount: i128,
        usdc_token: Address,
    ) -> (plan: Plan)
        ensures
            plan@ == self@.initialize_room(
                RoomView {
                    landlord,
                    tenants: tenants@,
                    deposit_per_tenant: deposit_amount,
                    usdc_token,
                },
            ),
    {
        let ghost room = RoomView {
            landlord,
            tenants: tenants@,
            deposit_per_tenant: deposit_amount,
            usdc_token,
        };
        let mut effects: Vec<Effect> = Vec::new();
        assert(effect_views(effects@) =~= Seq::empty());
        if self.room.is_some() {
            return Plan { effects, result: Err(Error::AlreadyInitialized) };
        }
        if tenants.len() == 0 {
            return Plan { effects, result: Err(Error::NoTenants) };
        }
        if deposit_amount <= 0 {
            return Plan { effects, result: Err(Error::InvalidAmount) };
        }
        // Empty escrow records for the tenants, so that later calls find one.
        let mut records: Vec<Effect> = Vec::new();
        let count = tenants.len();
        let mut i: u32 = 0;
        assert(effect_views(records@) =~= blank_records(tenants@).take(0));
        while i < count
            invariant
                i <= count,
                count == tenants@.len(),
                effect_views(records@) == blank_records(tenants@).take(i as int),
            decreases count - i,
        {
            if let Some(tenant) = tenants.get(i) {
                let record = DepositEscrow { tenant, amount: 0, refunded: false };
                add_effect(&mut records, Effect::Store(Entry::Escrow(tenant, record)));
            }
            assert(effect_views(records@) =~= blank_records(tenants@).take(i + 1));
            i = i + 1;
        }
        let ghost record_views = effect_views(records@);
        assert(record_views =~= blank_records(tenants@));
        add_effect(&mut effects, Effect::RequireAuth(landlord));
        let stored = Room { landlord, tenants, deposit_per_tenant: deposit_amount, usdc_token };
        add_effect(&mut effects, Effect::Store(Entry::Room(stored)));
        add_effect(&mut effects, Effect::Store(Entry::TotalDeposited(0)));
        add_effect(&mut effects, Effect::Store(Entry::LandlordApproval(false)));
        add_effect(&mut effects, Effect::Store(Entry::TenantApproval(false)));
        let ghost head = effects@;
        effects.append(&mut records);
        assert(effect_views(effects@) =~= effect_views(head) + record_views);
        let plan = Plan { effects, result: Ok(()) };
        assert(plan@.effects =~= self@.initialize_room(room).effects);
        plan
    }

    /// Tenant transfers their security deposit (in USDC) into the contract.
    /// Funds are held until escrow resolution.
    pub fn deposit_funds(&self, tenant: Address) -> (plan: Plan)
        requires
            self@.deposit_fits(tenant),
        ensures
            plan@ == self@.deposit_funds(tenant),
    {
        let mut effects: Vec<Effect> = Vec::new();
        assert(effect_views(effects@) =~= Seq::empty());
        let room = match self.load_room() {
            Ok(room) => room,
            Err(error) => return Plan { effects, result: Err(error) },
        };
        if let Err(error) = Self::require_tenant(room, tenant) {
            return Plan { effects, result: Err(error) };
        }
        add_effect(&mut effects, Effect::RequireAuth(tenant));
        assert(effect_views(effects@) =~= seq![EffectView::RequireAuth(tenant)]);
        let record = match self.escrows.get(tenant) {
            Some(record) => record,
            None => return Plan { effects, result: Err(Error::NotInitialized) },
        };
        if record.amount > 0 {
            return Plan { effects, result: Err(Error::DepositAlreadyPaid) };
        }
        let amount = room.deposit_per_tenant;
        add_effect(
            &mut effects,
            Effect::Collect { token: room.usdc_token, from: tenant, amount },
        );
        let paid = DepositEscrow { tenant: record.tenant, amount, refunded: record.refunded };
        add_effect(&mut effects, Effect::Store(Entry::Escrow(tenant, paid)));
        let total = self.get_total_deposited();
        add_effect(&mut effects, Effect::Store(Entry::TotalDeposited(total + amount)));
        let plan = Plan { effects, result: Ok(()) };
        assert(plan@.effects =~= self@.deposit_funds(tenant).effects);
        plan
    }

    /// Landlord creates a new utility bill, splitting it equally among tenants.
    ///
    /// Any rounding remainder is added to the **last** tenant's share so the
    /// landlord always receives the exact `total_amount` requested.
    pub fn create_bill(&self, env: &Env, caller: Address, total_amount: i128) -> (plan: Plan)
        requires
            self@.bill_fits(caller, total_amount),
        ensures
            plan@ == self@.create_bill(caller, total_amount),
    {
        let mut effects: Vec<Effect> = Vec::new();
        assert(effect_views(effects@) =~= Seq::empty());
        let room = match self.load_room() {
            Ok(room) => room,
            Err(error) => return Plan { effects, result: Err(error) },
        };
        if !same_address(caller, room.landlord) {
            return Plan { effects, result: Err(Error::UnauthorizedLandlord) };
        }
        add_effect(&mut effects, Effect::RequireAuth(caller));
        assert(effect_views(effects@) =~= seq![EffectView::RequireAuth(caller)]);
        if total_amount <= 0 {
            return Plan { effects, result: Err(Error::InvalidAmount) };
        }
        // One active bill at a time.
        if let Some(existing) = &self.bill {
            if !existing.settled {
                return Plan { effects, result: Err(Error::BillAlreadyActive) };
            }
        }
        let count = room.tenants.len();
        let share = total_amount / (count as i128);
        let mut flags = FlagList::new(env);
        let mut i: u32 = 0;
        while i < count
            invariant
                i <= count,
                flags@ == Seq::new(i as nat, |j: int| false),
            decreases count - i,
        {
            flags = flags.push(false);
            assert(flags@ =~= Seq::new((i + 1) as nat, |j: int| false));
            i = i + 1;
        }
        let bill = Bill {
            total_amount,
            share_per_tenant: share,
            paid_flags: flags,
            collected: 0,
            settled: false,
        };
        add_effect(&mut effects, Effect::Store(Entry::Bill(bill)));
        let plan = Plan { effects, result: Ok(()) };
        assert(plan@.effects =~= self@.create_bill(caller, total_amount).effects);
        plan
    }

    /// A tenant pays their share of the active bill. When the final share
    /// arrives, the contract immediately remits the full bill to the landlord.
    pub fn pay_bill_share(&self, tenant: Address) -> (plan: Plan)
        requires
            self@.share_fits(tenant),
        ensures
            plan@ == self@.pay_bill_share(tenant),
    {
        let mut effects: Vec<Effect> = Vec::new();
        assert(effect_views(effects@) =~= Seq::empty());
        let room = match self.load_room() {
            Ok(room) => room,
            Err(error) => return Plan { effects, result: Err(error) },
        };
        let index = match Self::tenant_index(room, tenant) {
            Ok(index) => index,
            Err(error) => return Plan { effects, result: Err(error) },
        };
        add_effect(&mut effects, Effect::RequireAuth(tenant));
        assert(effect_views(effects@) =~= seq![EffectView::RequireAuth(tenant)]);
        let bill = match &self.bill {
            Some(bill) => bill,
            None => return Plan { effects, result: Err(Error::NoActiveBill) },
        };
        if bill.settled {
            return Plan { effects, result: Err(Error::BillAlreadySettled) };
        }
        if bill.paid_flags.get(index).unwrap_or(false) {
            return Plan { effects, result: Err(Error::ShareAlreadyPaid) };
        }
        // The last tenant absorbs the rounding remainder so the landlord
        // receives `total_amount` exactly.
        let count = room.tenants.len();
        let amount = if index == count - 1 {
            let already_assigned = bill.share_per_tenant * (count as i128 - 1);
            bill.total_amount - already_assigned
        } else {
            bill.share_per_tenant
        };
        add_effect(
            &mut effects,
            Effect::Collect { token: room.usdc_token, from: tenant, amount },
        );
        let flags = bill.paid_flags.with(index, true);
        let collected = bill.collected + amount;
        let settled = Self::all_paid(&flags);
        if settled {
            // Forward the full bill to the landlord in a single step.
            add_effect(
                &mut effects,
                Effect::PayOut { token: room.usdc_token, to: room.landlord, amount: collected },
            );
        }
        let paid = Bill {
            total_amount: bill.total_amount,
            share_per_tenant: bill.share_per_tenant,
            paid_flags: flags,
            collected,
            settled,
        };
        assert(paid@ == bill@.paid_by(count as int, index as int));
        add_effect(&mut effects, Effect::Store(Entry::Bill(paid)));
        let plan = Plan { effects, result: Ok(()) };
        assert(plan@.effects =~= self@.pay_bill_share(tenant).effects);
        plan
    }

    /// Records a move-out inspection vote and, when both sides agree, releases
    /// the escrowed deposits. Disagreement leaves funds locked, preserving
    /// dispute integrity.
    ///
    /// The `caller` must be either the landlord or one of the tenants. Tenant
    /// votes are collectively represented by a single boolean: the tenants agree
    /// on it among themselves before one of them casts it.
    pub fn resolve_escrow(
        &self,
        caller: Address,
        landlord_approved: bool,
        tenant_approved: bool,
    ) -> (plan: Plan)
        requires
            self@.resolve_fits(caller, landlord_approved, tenant_approved),
        ensures
            plan@ == self@.resolve_escrow(caller, landlord_approved, tenant_approved),
    {
        let ghost target = self@.resolve_escrow(caller, landlord_approved, tenant_approved);
        let mut effects: Vec<Effect> = Vec::new();
        assert(effect_views(effects@) =~= Seq::empty());
        let room = match self.load_room() {
            Ok(room) => room,
            Err(error) => return Plan { effects, result: Err(error) },
        };
        add_effect(&mut effects, Effect::RequireAuth(caller));
        assert(effect_views(effects@) =~= seq![EffectView::RequireAuth(caller)]);
        let is_landlord = same_address(caller, room.landlord);
        let is_tenant = Self::is_tenant(room, caller);
        if !is_landlord && !is_tenant {
            return Plan { effects, result: Err(Error::UnauthorizedTenant) };
        }
        // Each side may only update its own vote, preventing impersonation.
        let mut landlord_ok = self.landlord_approval.unwrap_or(false);
        let mut tenant_ok = self.tenant_approval.unwrap_or(false);
        if is_landlord {
            add_effect(&mut effects, Effect::Store(Entry::LandlordApproval(landlord_approved)));
            landlord_ok = landlord_approved;
        }
        if is_tenant {
            add_effect(&mut effects, Effect::Store(Entry::TenantApproval(tenant_approved)));
            tenant_ok = tenant_approved;
        }
        let ghost voted = effect_views(effects@);
        assert(voted =~= seq![EffectView::RequireAuth(caller)] + self@.ballot(
            caller,
            landlord_approved,
            tenant_approved,
        ));
        if !(landlord_ok && tenant_ok) {
            return Plan { effects, result: Ok(()) };
        }
        // Mutual approval: refund all tenants.
        let count = room.tenants.len();
        let ghost reached = recorded_prefix(room@.tenants, self@.escrows);
        proof {
            lemma_recorded_prefix(room@.tenants, self@.escrows);
        }
        let mut total_refunded: i128 = 0;
        let mut i: u32 = 0;
        assert(voted + refunds(room@, self@.escrows, 0) =~= voted);
        while i < count
            invariant
                i <= count,
                count == room@.tenants.len(),
                i <= reached <= count,
                reached < count ==> !self@.escrows.contains_key(room@.tenants[reached]),
                recorded(room@.tenants, self@.escrows, reached),
                reached == recorded_prefix(room@.tenants, self@.escrows),
                is_amount(held_for(room@.tenants, self@.escrows, reached)),
                total_refunded == held_for(room@.tenants, self@.escrows, i as int),
                effect_views(effects@) == voted + refunds(room@, self@.escrows, i as int),
                target == self@.resolve_escrow(caller, landlord_approved, tenant_approved),
                reached < count ==> target == PlanView::failed(
                    voted + refunds(room@, self@.escrows, reached),
                    Error::DepositMissing,
                ),
            decreases count - i,
        {
            if let Some(tenant) = room.tenants.get(i) {
                let record = match self.escrows.get(tenant) {
                    Some(record) => record,
                    None => {
                        assert(reached == i);
                        return Plan { effects, result: Err(Error::DepositMissing) };
                    },
                };
                proof {
                    assert(i < reached);
                    lemma_held_for_grows(room@.tenants, self@.escrows, i + 1, reached);
                }
                // A tenant who is listed twice is refunded once.
                if !record.refunded && record.amount > 0 && Self::is_first_listing(room, i) {
                    add_effect(
                        &mut effects,
                        Effect::PayOut { token: room.usdc_token, to: tenant, amount: record.amount },
                    );
                    total_refunded = total_refunded + record.amount;
                    let refunded = DepositEscrow {
                        tenant: record.tenant,
                        amount: record.amount,
                        refunded: true,
                    };
                    add_effect(&mut effects, Effect::Store(Entry::Escrow(tenant, refunded)));
                }
                assert(effect_views(effects@) =~= voted + refunds(
                    room@,
                    self@.escrows,
                    i + 1,
                ));
            }
            i = i + 1;
        }
        let total = self.get_total_deposited();
        add_effect(&mut effects, Effect::Store(Entry::TotalDeposited(total - total_refunded)));
        let plan = Plan { effects, result: Ok(()) };
        assert(plan@.effects =~= target.effects);
        plan
    }

    /// [`Self::deposit_funds`], or nothing if the total of the deposits would
    /// not be an amount.
    pub fn checked_deposit_funds(&self, tenant: Address) -> (plan: Option<Plan>)
        ensures
            plan is Some <==> self@.deposit_fits(tenant),
            plan is Some ==> plan->0@ == self@.deposit_funds(tenant),
    {
        if let Some(room) = &self.room {
            if let Some(record) = self.escrows.get(tenant) {
                if Self::is_tenant(room, tenant) && record.amount <= 0 {
                    let total = self.get_total_deposited();
                    if total.checked_add(room.deposit_per_tenant).is_none() {
                        return None;
                    }
                }
            }
        }
        Some(self.deposit_funds(tenant))
    }

    /// [`Self::create_bill`], or nothing if there is nobody to split the bill
    /// among.
    pub fn checked_create_bill(
        &self,
        env: &Env,
        caller: Address,
        total_amount: i128,
    ) -> (plan: Option<Plan>)
        ensures
            plan is Some <==> self@.bill_fits(caller, total_amount),
            plan is Some ==> plan->0@ == self@.create_bill(caller, total_amount),
    {
        let open = match &self.bill {
            Some(bill) => !bill.settled,
            None => false,
        };
        if let Some(room) = &self.room {
            if same_address(caller, room.landlord) && total_amount > 0 && !open
                && room.tenants.len() == 0 {
                return None;
            }
        }
        Some(self.create_bill(env, caller, total_amount))
    }

    /// [`Self::pay_bill_share`], or nothing if the bill has no flag for the
    /// tenant or what is due or then collected would not be an amount.
    pub fn checked_pay_bill_share(&self, tenant: Address) -> (plan: Option<Plan>)
        ensures
            plan is Some <==> self@.share_fits(tenant),
            plan is Some ==> plan->0@ == self@.pay_bill_share(tenant),
    {
        if let (Some(room), Some(bill)) = (&self.room, &self.bill) {
            if let Ok(index) = Self::tenant_index(room, tenant) {
                if !bill.settled {
                    match bill.paid_flags.get(index) {
                        None => return None,
                        Some(true) => {},
                        Some(false) => {
                            let due = if index == room.tenants.len() - 1 {
                                let others = room.tenants.len() as i128 - 1;
                                match bill.share_per_tenant.checked_mul(others) {
                                    Some(assigned) => bill.total_amount.checked_sub(assigned),
                                    None => None,
                                }
                            } else {
                                Some(bill.share_per_tenant)
                            };
                            match due {
                                Some(amount) => {
                                    if bill.collected.checked_add(amount).is_none() {
                                        return None;
                                    }
                                },
                                None => return None,
                            }
                        },
                    }
                }
            }
        }
        Some(self.pay_bill_share(tenant))
    }

    /// [`Self::resolve_escrow`], or nothing if what is refunded or what then
    /// remains would not be an amount.
    pub fn checked_resolve_escrow(
        &self,
        caller: Address,
        landlord_approved: bool,
        tenant_approved: bool,
    ) -> (plan: Option<Plan>)
        ensures
            plan is Some <==> self@.resolve_fits(caller, landlord_approved, tenant_approved),
            plan is Some ==> plan->0@ == self@.resolve_escrow(
                caller,
                landlord_approved,
                tenant_approved,
            ),
    {
        if let Some(room) = &self.room {
            let is_landlord = same_address(caller, room.landlord);
            let is_tenant = Self::is_tenant(room, caller);
            let landlord_ok = if is_landlord {
                landlord_approved
            } else {
                self.landlord_approval.unwrap_or(false)
            };
            let tenant_ok = if is_tenant {
                tenant_approved
            } else {
                self.tenant_approval.unwrap_or(false)
            };
            if (is_landlord || is_tenant) && landlord_ok && tenant_ok {
                match self.refundable(room) {
                    None => return None,
                    Some((sum, complete)) => {
                        if complete && self.get_total_deposited().checked_sub(sum).is_none() {
                            return None;
                        }
                    },
                }
            }
        }
        Some(self.resolve_escrow(caller, landlord_approved, tenant_approved))
    }

    /// The room.
    pub fn get_room(&self) -> (room: Result<Room, Error>)
        ensures
            match self@.room {
                Some(stored) => room is Ok && room->Ok_0@ == stored,
                None => room == Err::<Room, Error>(Error::NotInitialized),
            },
    {
        match self.load_room() {
            Ok(room) => Ok(room.clone()),
            Err(error) => Err(error),
        }
    }

    /// The bill of the current cycle.
    pub fn get_bill(&self) -> (bill: Result<Bill, Error>)
        ensures
            match self@.bill {
                Some(stored) => bill is Ok && bill->Ok_0@ == stored,
                None => bill == Err::<Bill, Error>(Error::NoActiveBill),
            },
    {
        match &self.bill {
            Some(bill) => Ok(bill.clone()),
            None => Err(Error::NoActiveBill),
        }
    }

    /// The escrow record of a tenant.
    pub fn get_escrow(&self, tenant: Address) -> (record: Result<DepositEscrow, Error>)
        ensures
            record == if self@.escrows.contains_key(tenant) {
                Ok(self@.escrows[tenant])
            } else {
                Err(Error::DepositMissing)
            },
    {
        match self.escrows.get(tenant) {
            Some(record) => Ok(record),
            None => Err(Error::DepositMissing),
        }
    }

    /// The total of the deposits held, zero before the room is set up.
    pub fn get_total_deposited(&self) -> (total: i128)
        ensures
            total == self@.deposited(),
            total == match self@.total_deposited {
                Some(stored) => stored,
                None => 0,
            },
    {
        self.total_deposited.unwrap_or(0)
    }

    /// The room, for the other calls.
    fn load_room(&self) -> (room: Result<&Room, Error>)
        ensures
            match self@.room {
                Some(stored) => room is Ok && room->Ok_0@ == stored,
                None => room == Err::<&Room, Error>(Error::NotInitialized),
            },
    {
        match &self.room {
            Some(room) => Ok(room),
            None => Err(Error::NotInitialized),
        }
    }

    /// The position of a tenant in the list.
    fn tenant_index(room: &Room, tenant: Address) -> (index: Result<u32, Error>)
        ensures
            match index {
                Ok(i) => {
                    &&& is_first(room@.tenants, i as int)
                    &&& room@.tenants[i as int] == tenant
                    &&& position(room@.tenants, tenant) == i
                },
                Err(error) => error == Error::UnauthorizedTenant && !room@.tenants.contains(tenant),
            },
    {
        let count = room.tenants.len();
        let mut i: u32 = 0;
        while i < count
            invariant
                i <= count,
                count == room@.tenants.len(),
                forall|j: int| 0 <= j < i ==> room@.tenants[j] != tenant,
            decreases count - i,
        {
            if let Some(listed) = room.tenants.get(i) {
                if same_address(listed, tenant) {
                    proof {
                        lemma_position(room@.tenants, i as int);
                    }
                    return Ok(i);
                }
            }
            i = i + 1;
        }
        Err(Error::UnauthorizedTenant)
    }

    /// Fails for anyone but a tenant.
    fn require_tenant(room: &Room, tenant: Address) -> (result: Result<(), Error>)
        ensures
            result == if room@.tenants.contains(tenant) {
                Ok(())
            } else {
                Err(Error::UnauthorizedTenant)
            },
    {
        if Self::is_tenant(room, tenant) {
            Ok(())
        } else {
            Err(Error::UnauthorizedTenant)
        }
    }

    /// Whether an address is in the list of tenants.
    fn is_tenant(room: &Room, addr: Address) -> (listed: bool)
        ensures
            listed == room@.tenants.contains(addr),
    {
        Self::tenant_index(room, addr).is_ok()
    }

    /// Whether the tenant at position `i` is not listed before.
    fn is_first_listing(room: &Room, i: u32) -> (first: bool)
        requires
            i < room@.tenants.len(),
        ensures
            first == is_first(room@.tenants, i as int),
    {
        match room.tenants.get(i) {
            Some(tenant) => match Self::tenant_index(room, tenant) {
                Ok(index) => index == i,
                Err(_) => false,
            },
            None => false,
        }
    }

    /// What is held for the tenants up to the first one without a record, and
    /// whether that is all of them. Nothing if the sum is not an amount.
    fn refundable(&self, room: &Room) -> (sum: Option<(i128, bool)>)
        ensures
            ({
                let reached = recorded_prefix(room@.tenants, self@.escrows);
                let all_held = held_for(room@.tenants, self@.escrows, reached);
                match sum {
                    Some((amount, complete)) => amount == all_held && complete == (reached
                        == room@.tenants.len()),
                    None => !is_amount(all_held),
                }
            }),
    {
        let ghost reached = recorded_prefix(room@.tenants, self@.escrows);
        proof {
            lemma_recorded_prefix(room@.tenants, self@.escrows);
        }
        let count = room.tenants.len();
        let mut sum: i128 = 0;
        let mut i: u32 = 0;
        while i < count
            invariant
                i <= reached <= count,
                count == room@.tenants.len(),
                reached == recorded_prefix(room@.tenants, self@.escrows),
                recorded(room@.tenants, self@.escrows, reached),
                reached < count ==> !self@.escrows.contains_key(room@.tenants[reached]),
                sum == held_for(room@.tenants, self@.escrows, i as int),
            decreases count - i,
        {
            if let Some(tenant) = room.tenants.get(i) {
                let record = match self.escrows.get(tenant) {
                    Some(record) => record,
                    None => {
                        assert(i == reached);
                        return Some((sum, false));
                    },
                };
                proof {
                    assert(i < reached);
                    lemma_held_for_grows(room@.tenants, self@.escrows, i + 1, reached);
                }
                if !record.refunded && record.amount > 0 && Self::is_first_listing(room, i) {
                    match sum.checked_add(record.amount) {
                        Some(more) => {
                            sum = more;
                        },
                        None => return None,
                    }
                }
            }
            i = i + 1;
        }
        Some((sum, true))
    }

    /// Whether every flag is set.
    fn all_paid(flags: &FlagList) -> (all: bool)
        ensures
            all == all_set(flags@),
    {
        let count = flags.len();
        let mut i: u32 = 0;
        while i < count
            invariant
                i <= count,
                count == flags@.len(),
                forall|j: int| 0 <= j < i ==> flags@[j],
            decreases count - i,
        {
            if !flags.get(i).unwrap_or(false) {
                return false;
            }
            i = i + 1;
        }
        true
    }
}

} // verus!
