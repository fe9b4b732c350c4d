//! What the contract keeps on the ledger, and what it asks of the host.
use crate::ledger_vec::{Address, AddressList, FlagList};
use vstd::prelude::*;

verus! {

/// Domain-specific errors. The numeric codes are stable across versions.
#[derive(Copy, Clone, Debug, PartialEq, Eq, PartialOrd, Ord, Structural)]
pub enum Error {
    AlreadyInitialized,
    NotInitialized,
    UnauthorizedTenant,
    UnauthorizedLandlord,
    NoTenants,
    InvalidAmount,
    DepositAlreadyPaid,
    NoActiveBill,
    BillAlreadyActive,
    ShareAlreadyPaid,
    BillAlreadySettled,
    EscrowNotResolved,
    DepositMissing,
}

impl Error {
    /// The number under which the error is reported.
    pub open spec fn spec_code(self) -> u32 {
        match self {
            Error::AlreadyInitialized => 1,
            Error::NotInitialized => 2,
            Error::UnauthorizedTenant => 3,
            Error::UnauthorizedLandlord => 4,
            Error::NoTenants => 5,
            Error::InvalidAmount => 6,
            Error::DepositAlreadyPaid => 7,
            Error::NoActiveBill => 8,
            Error::BillAlreadyActive => 9,
            Error::ShareAlreadyPaid => 10,
            Error::BillAlreadySettled => 11,
            Error::EscrowNotResolved => 12,
            Error::DepositMissing => 13,
        }
    }

    /// The number under which the error is reported.
    pub fn code(self) -> (code: u32)
        ensures
            code == self.spec_code(),
    {
        match self {
            Error::AlreadyInitialized => 1,
            Error::NotInitialized => 2,
            Error::UnauthorizedTenant => 3,
            Error::UnauthorizedLandlord => 4,
            Error::NoTenants => 5,
            Error::InvalidAmount => 6,
            Error::DepositAlreadyPaid => 7,
            Error::NoActiveBill => 8,
            Error::BillAlreadyActive => 9,
            Error::ShareAlreadyPaid => 10,
            Error::BillAlreadySettled => 11,
            Error::EscrowNotResolved => 12,
            Error::DepositMissing => 13,
        }
    }
}

/// Storage key namespace.
#[derive(Copy, Clone, Debug, PartialEq, Eq)]
pub enum DataKey {
    /// Room configuration (landlord, tenants, deposit per tenant, token).
    Room,
    /// Active utility bill state.
    Bill,
    /// Escrow registry: per-tenant deposit accounting.
    Escrow(Address),
    /// Total amount currently locked as deposits in the contract.
    TotalDeposited,
    /// Boolean flag: the landlord's move-out inspection vote.
    LandlordApproval,
    /// Boolean flag: the collective tenant move-out inspection vote.
    TenantApproval,
}

impl DataKey {
    /// Whether the entry lives in temporary storage. Only the bill does: a
    /// billing cycle is short, while everything else lasts for the tenancy.
    pub fn is_temporary(&self) -> (temporary: bool)
        ensures
            temporary == (*self is Bill),
    {
        match self {
            DataKey::Bill => true,
            _ => false,
        }
    }
}

/// Room registry, created once at initialization.
pub struct Room {
    pub landlord: Address,
    pub tenants: AddressList,
    pub deposit_per_tenant: i128,
    pub usdc_token: Address,
}

/// Active utility bill cycle. `paid_flags[i]` corresponds to `tenants[i]`.
pub struct Bill {
    pub total_amount: i128,
    pub share_per_tenant: i128,
    pub paid_flags: FlagList,
    pub collected: i128,
    pub settled: bool,
}

/// Per-tenant escrow accounting record.
#[derive(Copy, Clone, Debug, PartialEq, Eq)]
pub struct DepositEscrow {
    pub tenant: Address,
    pub amount: i128,
    pub refunded: bool,
}

/// A ledger entry: a key and the value kept under it.
pub enum Entry {
    Room(Room),
    Bill(Bill),
    Escrow(Address, DepositEscrow),
    TotalDeposited(i128),
    LandlordApproval(bool),
    TenantApproval(bool),
}

/// One thing that a call asks of the host.
pub enum Effect {
    /// Fail the call unless this party has authorized it.
    RequireAuth(Address),
    /// Move tokens from a party to the contract.
    Collect { token: Address, from: Address, amount: i128 },
    /// Move tokens from the contract to a party.
    PayOut { token: Address, to: Address, amount: i128 },
    /// Write a ledger entry.
    Store(Entry),
}

/// What a call does: its effects in order, then success or an error. The host
/// carries the effects out one by one. If it refuses one of them, or if the
/// call ends in an error, the whole call is undone.
pub struct Plan {
    pub effects: Vec<Effect>,
    pub result: Result<(), Error>,
}

/// Why a call came to nothing.
#[derive(Copy, Clone, Debug, PartialEq, Eq)]
pub enum Failure {
    /// The contract ended the call with an error.
    Contract(Error),
    /// The host refused an authorization or a transfer.
    Host,
}

/// What a room is, for specifications.
#[verifier::ext_equal]
pub struct RoomView {
    pub landlord: Address,
    pub tenants: Seq<Address>,
    pub deposit_per_tenant: i128,
    pub usdc_token: Address,
}

/// What a bill is, for specifications.
#[verifier::ext_equal]
pub struct BillView {
    pub total_amount: i128,
    pub share_per_tenant: i128,
    pub paid_flags: Seq<bool>,
    pub collected: i128,
    pub settled: bool,
}

/// What a ledger entry is, for specifications.
#[verifier::ext_equal]
pub enum EntryView {
    Room(RoomView),
    Bill(BillView),
    Escrow(Address, DepositEscrow),
    TotalDeposited(i128),
    LandlordApproval(bool),
    TenantApproval(bool),
}

/// What an effect is, for specifications.
#[verifier::ext_equal]
pub enum EffectView {
    RequireAuth(Address),
    Collect { token: Address, from: Address, amount: i128 },
    PayOut { token: Address, to: Address, amount: i128 },
    Store(EntryView),
}

/// What a plan is, for specifications.
#[verifier::ext_equal]
pub struct PlanView {
    pub effects: Seq<EffectView>,
    pub result: Result<(), Error>,
}

impl View for Room {
    type V = RoomView;

    open spec fn view(&self) -> RoomView {
        RoomView {
            landlord: self.landlord,
            tenants: self.tenants@,
            deposit_per_tenant: self.deposit_per_tenant,
            usdc_token: self.usdc_token,
        }
    }
}

impl View for Bill {
    type V = BillView;

    open spec fn view(&self) -> BillView {
        BillView {
            total_amount: self.total_amount,
            share_per_tenant: self.share_per_tenant,
            paid_flags: self.paid_flags@,
            collected: self.collected,
            settled: self.settled,
        }
    }
}

impl View for Entry {
    type V = EntryView;

    open spec fn view(&self) -> EntryView {
        match *self {
            Entry::Room(room) => EntryView::Room(room@),
            Entry::Bill(bill) => EntryView::Bill(bill@),
            Entry::Escrow(tenant, record) => EntryView::Escrow(tenant, record),
            Entry::TotalDeposited(total) => EntryView::TotalDeposited(total),
            Entry::LandlordApproval(vote) => EntryView::LandlordApproval(vote),
            Entry::TenantApproval(vote) => EntryView::TenantApproval(vote),
        }
    }
}

impl View for Effect {
    type V = EffectView;

    open spec fn view(&self) -> EffectView {
        match *self {
            Effect::RequireAuth(party) => EffectView::RequireAuth(party),
            Effect::Collect { token, from, amount } => EffectView::Collect { token, from, amount },
            Effect::PayOut { token, to, amount } => EffectView::PayOut { token, to, amount },
            Effect::Store(entry) => EffectView::Store(entry@),
        }
    }
}

/// The views of a sequence of effects.
pub open spec fn effect_views(effects: Seq<Effect>) -> Seq<EffectView> {
    effects.map_values(|effect: Effect| effect@)
}

impl View for Plan {
    type V = PlanView;

    open spec fn view(&self) -> PlanView {
        PlanView { effects: effect_views(self.effects@), result: self.result }
    }
}

impl Clone for Room {
    fn clone(&self) -> (copy: Room)
        ensures
            copy@ == self@,
    {
        Room {
            landlord: self.landlord,
            tenants: self.tenants.clone(),
            deposit_per_tenant: self.deposit_per_tenant,
            usdc_token: self.usdc_token,
        }
    }
}

impl Clone for Bill {
    fn clone(&self) -> (copy: Bill)
        ensures
            copy@ == self@,
    {
        Bill {
            total_amount: self.total_amount,
            share_per_tenant: self.share_per_tenant,
            paid_flags: self.paid_flags.clone(),
            collected: self.collected,
            settled: self.settled,
        }
    }
}

impl Entry {
    /// The key that an entry is kept under.
    pub fn key(&self) -> (key: DataKey)
        ensures
            key == match *self {
                Entry::Room(_) => DataKey::Room,
                Entry::Bill(_) => DataKey::Bill,
                Entry::Escrow(tenant, _) => DataKey::Escrow(tenant),
                Entry::TotalDeposited(_) => DataKey::TotalDeposited,
                Entry::LandlordApproval(_) => DataKey::LandlordApproval,
                Entry::TenantApproval(_) => DataKey::TenantApproval,
            },
    {
        match self {
            Entry::Room(_) => DataKey::Room,
            Entry::Bill(_) => DataKey::Bill,
            Entry::Escrow(tenant, _) => DataKey::Escrow(*tenant),
            Entry::TotalDeposited(_) => DataKey::TotalDeposited,
            Entry::LandlordApproval(_) => DataKey::LandlordApproval,
            Entry::TenantApproval(_) => DataKey::TenantApproval,
        }
    }
}

} // verus!
