//! Single calls: every error, the exact effects, and what must not happen twice.
use dormchain_safepay::escrows::EscrowTable;
use dormchain_safepay::ledger_vec::same_address;
use dormchain_safepay::{
    Address, AddressList, Bill, DataKey, DepositEscrow, DormChainSafePay, Effect, Entry, Error,
    Failure, FlagList, Plan, Room,
};
use soroban_sdk::testutils::EnvTestConfig;
use soroban_sdk::Env;

const LANDLORD: Address = (0, 0, 1);
const ANN: Address = (0, 0, 2);
const BEN: Address = (0, 7, 2);
const CAT: Address = (1, 7, 2);
const TOKEN: Address = (1, u128::MAX, 9);
const STRANGER: Address = (0, 0, 99);

fn host() -> Env {
    Env::new_with_config(EnvTestConfig {
        capture_snapshot_at_drop: false,
    })
}

fn list(env: &Env, addresses: &[Address]) -> AddressList {
    let mut tenants = AddressList::new(env);
    for a in addresses {
        tenants = tenants.push(*a);
    }
    tenants
}

fn flags(env: &Env, values: &[bool]) -> FlagList {
    let mut flags = FlagList::new(env);
    for b in values {
        flags = flags.push(*b);
    }
    flags
}

fn room_of(env: &Env, addresses: &[Address], deposit: i128) -> DormChainSafePay {
    let mut contract = DormChainSafePay::new();
    let plan = contract.initialize_room(LANDLORD, list(env, addresses), deposit, TOKEN);
    assert_eq!(contract.commit(plan, true), Ok(()));
    contract
}

fn commit(contract: &mut DormChainSafePay, plan: Plan) {
    assert_eq!(contract.commit(plan, true), Ok(()));
}

/// A short text for each effect, so that whole plans can be compared.
fn told(plan: &Plan) -> Vec<String> {
    plan.effects
        .iter()
        .map(|effect| match effect {
            Effect::RequireAuth(a) => format!("auth {:?}", a),
            Effect::Collect { token, from, amount } => {
                format!("collect {:?} {:?} {}", token, from, amount)
            }
            Effect::PayOut { token, to, amount } => format!("pay {:?} {:?} {}", token, to, amount),
            Effect::Store(Entry::Room(room)) => format!(
                "room {:?} {} {} {:?}",
                room.landlord,
                room.tenants.len(),
                room.deposit_per_tenant,
                room.usdc_token
            ),
            Effect::Store(Entry::Bill(bill)) => format!(
                "bill {} {} {} {}",
                bill.total_amount, bill.share_per_tenant, bill.collected, bill.settled
            ),
            Effect::Store(Entry::Escrow(a, r)) => {
                assert_eq!(*a, r.tenant);
                format!("escrow {:?} {} {}", a, r.amount, r.refunded)
            }
            Effect::Store(Entry::TotalDeposited(total)) => format!("total {}", total),
            Effect::Store(Entry::LandlordApproval(vote)) => format!("landlord {}", vote),
            Effect::Store(Entry::TenantApproval(vote)) => format!("tenants {}", vote),
        })
        .collect()
}

#[test]
fn error_codes_are_stable() {
    let all = [
        Error::AlreadyInitialized,
        Error::NotInitialized,
        Error::UnauthorizedTenant,
        Error::UnauthorizedLandlord,
        Error::NoTenants,
        Error::InvalidAmount,
        Error::DepositAlreadyPaid,
        Error::NoActiveBill,
        Error::BillAlreadyActive,
        Error::ShareAlreadyPaid,
        Error::BillAlreadySettled,
        Error::EscrowNotResolved,
        Error::DepositMissing,
    ];
    for (i, error) in all.iter().enumerate() {
        assert_eq!(error.code(), i as u32 + 1);
    }
    assert!(Error::AlreadyInitialized < Error::DepositMissing);
}

#[test]
fn lists_hold_what_was_put_in() {
    let env = host();
    let tenants = list(&env, &[ANN, TOKEN, ANN]);
    assert_eq!(tenants.len(), 3);
    assert_eq!(tenants.get(0), Some(ANN));
    assert_eq!(tenants.get(1), Some(TOKEN));
    assert_eq!(tenants.get(2), Some(ANN));
    assert_eq!(tenants.get(3), None);
    assert_eq!(tenants.clone().len(), 3);

    let before = flags(&env, &[false, true, false]);
    let after = before.with(2, true);
    assert_eq!(before.get(2), Some(false));
    assert_eq!(after.get(2), Some(true));
    assert_eq!(after.get(0), Some(false));
    assert_eq!(after.get(1), Some(true));
    assert_eq!(after.get(3), None);
    assert_eq!(after.len(), 3);
}

#[test]
fn addresses_differ_in_every_part() {
    assert!(same_address(BEN, BEN));
    assert!(!same_address(ANN, BEN));
    assert!(!same_address(BEN, CAT));
    assert!(!same_address(LANDLORD, ANN));
}

#[test]
fn escrow_table_replaces_and_keeps() {
    let record = |tenant, amount| DepositEscrow {
        tenant,
        amount,
        refunded: false,
    };
    let mut table = EscrowTable::new();
    assert_eq!(table.get(ANN), None);
    table.set(ANN, record(ANN, 1));
    table.set(BEN, record(BEN, 2));
    table.set(ANN, record(ANN, 3));
    assert_eq!(table.get(ANN), Some(record(ANN, 3)));
    assert_eq!(table.get(BEN), Some(record(BEN, 2)));
    assert_eq!(table.get(CAT), None);
}

#[test]
fn only_the_bill_is_temporary() {
    assert!(DataKey::Bill.is_temporary());
    for key in [
        DataKey::Room,
        DataKey::Escrow(ANN),
        DataKey::TotalDeposited,
        DataKey::LandlordApproval,
        DataKey::TenantApproval,
    ] {
        assert!(!key.is_temporary());
    }
}

#[test]
fn entries_know_their_keys() {
    let env = host();
    let contract = room_of(&env, &[ANN], 1);
    assert_eq!(
        Entry::Room(contract.get_room().ok().unwrap()).key(),
        DataKey::Room
    );
    let record = contract.get_escrow(ANN).unwrap();
    assert_eq!(Entry::Escrow(ANN, record).key(), DataKey::Escrow(ANN));
    assert_eq!(Entry::TotalDeposited(5).key(), DataKey::TotalDeposited);
    assert_eq!(Entry::LandlordApproval(true).key(), DataKey::LandlordApproval);
    assert_eq!(Entry::TenantApproval(true).key(), DataKey::TenantApproval);
}

#[test]
fn nothing_works_before_initialization() {
    let env = host();
    let contract = DormChainSafePay::new();
    for plan in [
        contract.deposit_funds(ANN),
        contract.create_bill(&env, LANDLORD, 10),
        contract.pay_bill_share(ANN),
        contract.resolve_escrow(LANDLORD, true, true),
    ] {
        assert_eq!(plan.result, Err(Error::NotInitialized));
        assert!(plan.effects.is_empty());
    }
    assert_eq!(contract.get_room().err(), Some(Error::NotInitialized));
    assert_eq!(contract.get_bill().err(), Some(Error::NoActiveBill));
    assert_eq!(contract.get_escrow(ANN), Err(Error::DepositMissing));
    assert_eq!(contract.get_total_deposited(), 0);
}

#[test]
fn initialization_writes_the_room_and_blank_records() {
    let env = host();
    let mut contract = DormChainSafePay::new();
    let plan = contract.initialize_room(LANDLORD, list(&env, &[ANN, BEN]), 700, TOKEN);
    assert_eq!(
        told(&plan),
        vec![
            format!("auth {:?}", LANDLORD),
            format!("room {:?} 2 700 {:?}", LANDLORD, TOKEN),
            "total 0".to_string(),
            "landlord false".to_string(),
            "tenants false".to_string(),
            format!("escrow {:?} 0 false", ANN),
            format!("escrow {:?} 0 false", BEN),
        ]
    );
    commit(&mut contract, plan);
    let room = contract.get_room().ok().unwrap();
    assert_eq!(room.landlord, LANDLORD);
    assert_eq!(room.tenants.get(1), Some(BEN));
    assert_eq!(room.deposit_per_tenant, 700);
    assert_eq!(room.usdc_token, TOKEN);
    assert_eq!(
        contract.get_escrow(BEN),
        Ok(DepositEscrow {
            tenant: BEN,
            amount: 0,
            refunded: false
        })
    );
}

#[test]
fn initialization_is_refused() {
    let env = host();
    let contract = DormChainSafePay::new();
    let plan = contract.initialize_room(LANDLORD, list(&env, &[]), 0, TOKEN);
    assert_eq!(plan.result, Err(Error::NoTenants));
    for deposit in [0, -5] {
        let plan = contract.initialize_room(LANDLORD, list(&env, &[ANN]), deposit, TOKEN);
        assert_eq!(plan.result, Err(Error::InvalidAmount));
        assert!(plan.effects.is_empty());
    }
    let contract = room_of(&env, &[ANN], 1);
    let plan = contract.initialize_room(LANDLORD, list(&env, &[]), 0, TOKEN);
    assert_eq!(plan.result, Err(Error::AlreadyInitialized));
    assert!(plan.effects.is_empty());
}

#[test]
fn a_deposit_is_paid_once() {
    let env = host();
    let mut contract = room_of(&env, &[ANN, BEN], 1_000);
    let plan = contract.deposit_funds(BEN);
    assert_eq!(
        told(&plan),
        vec![
            format!("auth {:?}", BEN),
            format!("collect {:?} {:?} 1000", TOKEN, BEN),
            format!("escrow {:?} 1000 false", BEN),
            "total 1000".to_string(),
        ]
    );
    commit(&mut contract, plan);
    assert_eq!(contract.get_total_deposited(), 1_000);
    let again = contract.deposit_funds(BEN);
    assert_eq!(again.result, Err(Error::DepositAlreadyPaid));
    assert_eq!(told(&again), vec![format!("auth {:?}", BEN)]);

    // Nor can it be paid again after it was refunded.
    let plan = contract.resolve_escrow(LANDLORD, true, false);
    commit(&mut contract, plan);
    let plan = contract.resolve_escrow(ANN, false, true);
    commit(&mut contract, plan);
    assert!(contract.get_escrow(BEN).unwrap().refunded);
    assert_eq!(
        contract.deposit_funds(BEN).result,
        Err(Error::DepositAlreadyPaid)
    );
}

#[test]
fn strangers_are_turned_away() {
    let env = host();
    let contract = room_of(&env, &[ANN, BEN], 1_000);
    let plan = contract.deposit_funds(STRANGER);
    assert_eq!(plan.result, Err(Error::UnauthorizedTenant));
    assert!(plan.effects.is_empty());
    let plan = contract.pay_bill_share(LANDLORD);
    assert_eq!(plan.result, Err(Error::UnauthorizedTenant));
    let plan = contract.create_bill(&env, ANN, 500);
    assert_eq!(plan.result, Err(Error::UnauthorizedLandlord));
    assert!(plan.effects.is_empty());
    // A vote is authorized before the role of the caller is looked at.
    let plan = contract.resolve_escrow(STRANGER, true, true);
    assert_eq!(plan.result, Err(Error::UnauthorizedTenant));
    assert_eq!(told(&plan), vec![format!("auth {:?}", STRANGER)]);
    assert_eq!(contract.get_escrow(STRANGER), Err(Error::DepositMissing));
}

#[test]
fn a_tenant_without_a_record_cannot_deposit() {
    let env = host();
    let mut contract = DormChainSafePay::new();
    contract.store(Entry::Room(Room {
        landlord: LANDLORD,
        tenants: list(&env, &[ANN, BEN]),
        deposit_per_tenant: 10,
        usdc_token: TOKEN,
    }));
    let plan = contract.deposit_funds(ANN);
    assert_eq!(plan.result, Err(Error::NotInitialized));
    assert_eq!(told(&plan), vec![format!("auth {:?}", ANN)]);
}

#[test]
fn one_bill_at_a_time() {
    let env = host();
    let mut contract = room_of(&env, &[ANN, BEN], 1_000);
    for amount in [0, -1] {
        let plan = contract.create_bill(&env, LANDLORD, amount);
        assert_eq!(plan.result, Err(Error::InvalidAmount));
        assert_eq!(told(&plan), vec![format!("auth {:?}", LANDLORD)]);
    }
    assert_eq!(contract.pay_bill_share(ANN).result, Err(Error::NoActiveBill));
    let plan = contract.create_bill(&env, LANDLORD, 101);
    assert_eq!(
        told(&plan),
        vec![
            format!("auth {:?}", LANDLORD),
            "bill 101 50 0 false".to_string()
        ]
    );
    commit(&mut contract, plan);
    assert_eq!(
        contract.create_bill(&env, LANDLORD, 7).result,
        Err(Error::BillAlreadyActive)
    );
    for tenant in [BEN, ANN] {
        let plan = contract.pay_bill_share(tenant);
        commit(&mut contract, plan);
    }
    assert!(contract.get_bill().ok().unwrap().settled);
    let plan = contract.create_bill(&env, LANDLORD, 7);
    assert_eq!(plan.result, Ok(()));
}

#[test]
fn the_last_listed_tenant_pays_the_remainder() {
    let env = host();
    let mut contract = room_of(&env, &[ANN, BEN, CAT], 1_000);
    let plan = contract.create_bill(&env, LANDLORD, 1_001);
    commit(&mut contract, plan);
    // 1001 = 333 + 333 + 335, whoever pays first.
    let plan = contract.pay_bill_share(CAT);
    assert_eq!(
        told(&plan),
        vec![
            format!("auth {:?}", CAT),
            format!("collect {:?} {:?} 335", TOKEN, CAT),
            "bill 1001 333 335 false".to_string(),
        ]
    );
    commit(&mut contract, plan);
    let plan = contract.pay_bill_share(ANN);
    commit(&mut contract, plan);
    let plan = contract.pay_bill_share(BEN);
    assert_eq!(
        told(&plan),
        vec![
            format!("auth {:?}", BEN),
            format!("collect {:?} {:?} 333", TOKEN, BEN),
            format!("pay {:?} {:?} 1001", TOKEN, LANDLORD),
            "bill 1001 333 1001 true".to_string(),
        ]
    );
}

#[test]
fn a_bill_smaller_than_the_room_falls_to_the_last_tenant() {
    let env = host();
    let mut contract = room_of(&env, &[ANN, BEN, CAT], 1_000);
    let plan = contract.create_bill(&env, LANDLORD, 2);
    commit(&mut contract, plan);
    assert_eq!(
        told(&contract.pay_bill_share(ANN))[1],
        format!("collect {:?} {:?} 0", TOKEN, ANN)
    );
    assert_eq!(
        told(&contract.pay_bill_share(CAT))[1],
        format!("collect {:?} {:?} 2", TOKEN, CAT)
    );
}

#[test]
fn each_side_casts_its_own_vote_only() {
    let env = host();
    let mut contract = room_of(&env, &[ANN, BEN], 1_000);
    for tenant in [ANN, BEN] {
        let plan = contract.deposit_funds(tenant);
        commit(&mut contract, plan);
    }
    let plan = contract.resolve_escrow(LANDLORD, true, true);
    assert_eq!(
        told(&plan),
        vec![format!("auth {:?}", LANDLORD), "landlord true".to_string()]
    );
    commit(&mut contract, plan);
    let plan = contract.resolve_escrow(ANN, false, false);
    assert_eq!(
        told(&plan),
        vec![format!("auth {:?}", ANN), "tenants false".to_string()]
    );
    commit(&mut contract, plan);
    let plan = contract.resolve_escrow(BEN, false, true);
    assert_eq!(
        told(&plan),
        vec![
            format!("auth {:?}", BEN),
            "tenants true".to_string(),
            format!("pay {:?} {:?} 1000", TOKEN, ANN),
            format!("escrow {:?} 1000 true", ANN),
            format!("pay {:?} {:?} 1000", TOKEN, BEN),
            format!("escrow {:?} 1000 true", BEN),
            "total 0".to_string(),
        ]
    );
    commit(&mut contract, plan);
    // A later vote refunds nothing.
    let plan = contract.resolve_escrow(LANDLORD, true, false);
    assert_eq!(
        told(&plan),
        vec![
            format!("auth {:?}", LANDLORD),
            "landlord true".to_string(),
            "total 0".to_string(),
        ]
    );
}

#[test]
fn tenants_who_never_paid_are_not_refunded() {
    let env = host();
    let mut contract = room_of(&env, &[ANN, BEN], 1_000);
    let plan = contract.deposit_funds(BEN);
    commit(&mut contract, plan);
    let plan = contract.resolve_escrow(ANN, false, true);
    commit(&mut contract, plan);
    let plan = contract.resolve_escrow(LANDLORD, true, false);
    assert_eq!(
        told(&plan)[2..],
        [
            format!("pay {:?} {:?} 1000", TOKEN, BEN),
            format!("escrow {:?} 1000 true", BEN),
            "total 0".to_string(),
        ]
    );
}

#[test]
fn a_tenant_listed_twice_is_refunded_once() {
    let env = host();
    let mut contract = room_of(&env, &[ANN, ANN], 1_000);
    let plan = contract.deposit_funds(ANN);
    commit(&mut contract, plan);
    let plan = contract.resolve_escrow(ANN, false, true);
    commit(&mut contract, plan);
    let plan = contract.resolve_escrow(LANDLORD, true, false);
    assert_eq!(
        told(&plan)[2..],
        [
            format!("pay {:?} {:?} 1000", TOKEN, ANN),
            format!("escrow {:?} 1000 true", ANN),
            "total 0".to_string(),
        ]
    );
}

#[test]
fn a_landlord_who_is_a_tenant_casts_both_votes() {
    let env = host();
    let mut contract = room_of(&env, &[LANDLORD, ANN], 1_000);
    let plan = contract.deposit_funds(LANDLORD);
    commit(&mut contract, plan);
    let plan = contract.resolve_escrow(LANDLORD, true, true);
    assert_eq!(
        told(&plan),
        vec![
            format!("auth {:?}", LANDLORD),
            "landlord true".to_string(),
            "tenants true".to_string(),
            format!("pay {:?} {:?} 1000", TOKEN, LANDLORD),
            format!("escrow {:?} 1000 true", LANDLORD),
            "total 0".to_string(),
        ]
    );
}

#[test]
fn a_missing_record_stops_the_release() {
    let env = host();
    let mut contract = DormChainSafePay::new();
    contract.store(Entry::Room(Room {
        landlord: LANDLORD,
        tenants: list(&env, &[ANN, BEN]),
        deposit_per_tenant: 10,
        usdc_token: TOKEN,
    }));
    contract.store(Entry::TenantApproval(true));
    contract.store(Entry::Escrow(
        ANN,
        DepositEscrow {
            tenant: ANN,
            amount: 10,
            refunded: false,
        },
    ));
    let plan = contract.resolve_escrow(LANDLORD, true, false);
    assert_eq!(plan.result, Err(Error::DepositMissing));
    assert_eq!(
        told(&plan),
        vec![
            format!("auth {:?}", LANDLORD),
            "landlord true".to_string(),
            format!("pay {:?} {:?} 10", TOKEN, ANN),
            format!("escrow {:?} 10 true", ANN),
        ]
    );
    assert_eq!(
        contract.commit(plan, true),
        Err(Failure::Contract(Error::DepositMissing))
    );
    assert!(!contract.get_escrow(ANN).unwrap().refunded);
}

#[test]
fn a_call_that_the_host_refuses_changes_nothing() {
    let env = host();
    let mut contract = room_of(&env, &[ANN], 1_000);
    let plan = contract.deposit_funds(ANN);
    assert_eq!(contract.commit(plan, false), Err(Failure::Host));
    assert_eq!(contract.get_total_deposited(), 0);
    assert_eq!(contract.get_escrow(ANN).unwrap().amount, 0);
}

#[test]
fn checked_calls_stop_at_the_limits() {
    let env = host();
    let mut contract = room_of(&env, &[ANN, BEN], i128::MAX);
    let plan = contract.checked_deposit_funds(ANN).unwrap();
    commit(&mut contract, plan);
    assert!(contract.checked_deposit_funds(BEN).is_none());
    // What is refused anyway needs no sum.
    assert_eq!(
        contract.checked_deposit_funds(ANN).unwrap().result,
        Err(Error::DepositAlreadyPaid)
    );

    let plan = contract
        .checked_create_bill(&env, LANDLORD, i128::MAX)
        .unwrap();
    commit(&mut contract, plan);
    for tenant in [ANN, BEN] {
        let plan = contract.checked_pay_bill_share(tenant).unwrap();
        commit(&mut contract, plan);
    }
    assert_eq!(contract.get_bill().ok().unwrap().collected, i128::MAX);

    let plan = contract
        .checked_resolve_escrow(LANDLORD, true, false)
        .unwrap();
    commit(&mut contract, plan);
    let plan = contract.checked_resolve_escrow(BEN, false, true).unwrap();
    commit(&mut contract, plan);
    assert_eq!(contract.get_total_deposited(), 0);
}

#[test]
fn checked_calls_stop_on_damaged_entries() {
    let env = host();
    let mut contract = room_of(&env, &[ANN, BEN], 10);
    let bill = |share, paid: &[bool], collected| Bill {
        total_amount: 10,
        share_per_tenant: share,
        paid_flags: flags(&env, paid),
        collected,
        settled: false,
    };
    contract.store(Entry::Bill(bill(5, &[false], 0)));
    assert!(contract.checked_pay_bill_share(ANN).is_some());
    assert!(contract.checked_pay_bill_share(BEN).is_none());
    contract.store(Entry::Bill(bill(5, &[false, false], i128::MAX)));
    assert!(contract.checked_pay_bill_share(ANN).is_none());
    contract.store(Entry::Bill(bill(i128::MIN, &[true, false], 0)));
    assert!(contract.checked_pay_bill_share(BEN).is_none());
    assert_eq!(
        contract.checked_pay_bill_share(ANN).unwrap().result,
        Err(Error::ShareAlreadyPaid)
    );

    contract.store(Entry::LandlordApproval(true));
    let full = |tenant| DepositEscrow {
        tenant,
        amount: i128::MAX,
        refunded: false,
    };
    contract.store(Entry::Escrow(ANN, full(ANN)));
    contract.store(Entry::Escrow(BEN, full(BEN)));
    assert!(contract.checked_resolve_escrow(ANN, false, true).is_none());
    assert!(contract.checked_resolve_escrow(ANN, false, false).is_some());

    let mut contract = DormChainSafePay::new();
    contract.store(Entry::Room(Room {
        landlord: LANDLORD,
        tenants: list(&env, &[]),
        deposit_per_tenant: 10,
        usdc_token: TOKEN,
    }));
    assert!(contract.checked_create_bill(&env, LANDLORD, 5).is_none());
    assert!(contract.checked_create_bill(&env, LANDLORD, 0).is_some());
}
