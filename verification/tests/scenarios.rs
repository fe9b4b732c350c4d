//! The life of a room, played through on a host with a real token contract.
use dormchain_safepay::{Address, AddressList, DormChainSafePay, Effect, Error, Failure, Plan};
use soroban_sdk::address_payload::AddressPayload;
use soroban_sdk::testutils::{Address as _, EnvTestConfig};
use soroban_sdk::token::{StellarAssetClient, TokenClient};
use soroban_sdk::Env;

type HostAddress = soroban_sdk::Address;

/// Two tenants, a landlord, a mock USDC token and the contract. The tenants hold
/// 10_000 units of USDC each.
struct Setup<'a> {
    env: Env,
    contract: DormChainSafePay,
    contract_address: HostAddress,
    token: TokenClient<'a>,
    landlord: HostAddress,
    tenant_a: HostAddress,
    tenant_b: HostAddress,
    deposit_amount: i128,
}

fn plain(address: &HostAddress) -> Address {
    let (kind, key) = match address.to_payload() {
        Some(AddressPayload::AccountIdPublicKeyEd25519(key)) => (0u32, key.to_array()),
        Some(AddressPayload::ContractIdHash(key)) => (1u32, key.to_array()),
        None => panic!("unknown kind of address"),
    };
    let mut high = [0u8; 16];
    let mut low = [0u8; 16];
    high.copy_from_slice(&key[..16]);
    low.copy_from_slice(&key[16..]);
    (kind, u128::from_be_bytes(high), u128::from_be_bytes(low))
}

fn setup<'a>() -> Setup<'a> {
    let env = Env::new_with_config(EnvTestConfig {
        capture_snapshot_at_drop: false,
    });
    env.mock_all_auths();

    let landlord = HostAddress::generate(&env);
    let tenant_a = HostAddress::generate(&env);
    let tenant_b = HostAddress::generate(&env);
    let contract_address = HostAddress::generate(&env);

    let token_admin_addr = HostAddress::generate(&env);
    let token_contract = env.register_stellar_asset_contract_v2(token_admin_addr);
    let token = TokenClient::new(&env, &token_contract.address());
    let token_admin = StellarAssetClient::new(&env, &token_contract.address());
    token_admin.mint(&tenant_a, &10_000);
    token_admin.mint(&tenant_b, &10_000);

    let tenants = AddressList::new(&env)
        .push(plain(&tenant_a))
        .push(plain(&tenant_b));
    let deposit_amount: i128 = 1_000;

    let mut s = Setup {
        env,
        contract: DormChainSafePay::new(),
        contract_address,
        token,
        landlord,
        tenant_a,
        tenant_b,
        deposit_amount,
    };
    let plan = s.contract.initialize_room(
        plain(&s.landlord),
        tenants,
        deposit_amount,
        plain(&token_contract.address()),
    );
    assert_eq!(s.finish(plan), Ok(()));
    s
}

impl<'a> Setup<'a> {
    fn host(&self, address: Address) -> HostAddress {
        for known in [&self.landlord, &self.tenant_a, &self.tenant_b] {
            if plain(known) == address {
                return known.clone();
            }
        }
        panic!("unknown address")
    }

    /// Carries out the transfers of a plan and commits it.
    fn finish(&mut self, plan: Plan) -> Result<(), Failure> {
        let mut carried_out = true;
        for effect in &plan.effects {
            let done = match effect {
                Effect::Collect { token, from, amount } => {
                    assert_eq!(*token, plain(&self.token.address));
                    let from = self.host(*from);
                    self.token
                        .try_transfer(&from, &self.contract_address, amount)
                        .is_ok()
                }
                Effect::PayOut { token, to, amount } => {
                    assert_eq!(*token, plain(&self.token.address));
                    let to = self.host(*to);
                    self.token
                        .try_transfer(&self.contract_address, &to, amount)
                        .is_ok()
                }
                _ => true,
            };
            if !done {
                carried_out = false;
                break;
            }
        }
        self.contract.commit(plan, carried_out)
    }

    fn deposit_funds(&mut self, tenant: &HostAddress) -> Result<(), Failure> {
        let plan = self.contract.deposit_funds(plain(tenant));
        self.finish(plan)
    }

    fn create_bill(&mut self, caller: &HostAddress, total_amount: i128) -> Result<(), Failure> {
        let plan = self
            .contract
            .create_bill(&self.env, plain(caller), total_amount);
        self.finish(plan)
    }

    fn pay_bill_share(&mut self, tenant: &HostAddress) -> Result<(), Failure> {
        let plan = self.contract.pay_bill_share(plain(tenant));
        self.finish(plan)
    }

    fn resolve_escrow(
        &mut self,
        caller: &HostAddress,
        landlord_approved: bool,
        tenant_approved: bool,
    ) -> Result<(), Failure> {
        let plan = self
            .contract
            .resolve_escrow(plain(caller), landlord_approved, tenant_approved);
        self.finish(plan)
    }
}

#[test]
fn test_happy_path_end_to_end() {
    let mut s = setup();
    let (landlord, tenant_a, tenant_b) =
        (s.landlord.clone(), s.tenant_a.clone(), s.tenant_b.clone());

    // Both tenants pay deposits.
    s.deposit_funds(&tenant_a).unwrap();
    s.deposit_funds(&tenant_b).unwrap();

    assert_eq!(s.contract.get_total_deposited(), s.deposit_amount * 2);
    assert_eq!(s.token.balance(&s.contract_address), s.deposit_amount * 2);

    // Landlord creates a 500-unit bill.
    s.create_bill(&landlord, 500).unwrap();

    // Tenants pay their shares (250 each).
    s.pay_bill_share(&tenant_a).unwrap();
    s.pay_bill_share(&tenant_b).unwrap();

    // Landlord should have received the full 500.
    assert_eq!(s.token.balance(&s.landlord), 500);

    // Bill should now be settled.
    let bill = s.contract.get_bill().ok().unwrap();
    assert!(bill.settled);
    assert_eq!(bill.collected, 500);

    // Move-out: both sides approve, deposits released.
    s.resolve_escrow(&landlord, true, false).unwrap();
    s.resolve_escrow(&tenant_a, false, true).unwrap();

    assert_eq!(s.token.balance(&s.tenant_a), 10_000 - 250);
    assert_eq!(s.token.balance(&s.tenant_b), 10_000 - 250);
    assert_eq!(s.contract.get_total_deposited(), 0);
}

#[test]
fn test_unauthorized_caller_cannot_create_bill_or_resolve() {
    let mut s = setup();
    let intruder = HostAddress::generate(&s.env);

    // Bill creation by non-landlord must fail.
    let create_result = s
        .create_bill(&intruder, 500)
        .err()
        .expect("expected error from unauthorized bill creation");
    assert_eq!(
        create_result,
        Failure::Contract(Error::UnauthorizedLandlord)
    );

    // Escrow resolution by an unrelated address must fail.
    let resolve_result = s
        .resolve_escrow(&intruder, true, true)
        .err()
        .expect("expected error from unauthorized escrow vote");
    assert_eq!(resolve_result, Failure::Contract(Error::UnauthorizedTenant));
}

#[test]
fn test_double_pay_share_is_rejected() {
    let mut s = setup();
    let (landlord, tenant_a, tenant_b) =
        (s.landlord.clone(), s.tenant_a.clone(), s.tenant_b.clone());

    s.deposit_funds(&tenant_a).unwrap();
    s.deposit_funds(&tenant_b).unwrap();
    s.create_bill(&landlord, 400).unwrap();

    s.pay_bill_share(&tenant_a).unwrap();

    // Tenant A tries to pay again before the bill settles.
    let err = s
        .pay_bill_share(&tenant_a)
        .err()
        .expect("expected double-pay error");
    assert_eq!(err, Failure::Contract(Error::ShareAlreadyPaid));

    // Tenant B completes the bill: should settle cleanly.
    s.pay_bill_share(&tenant_b).unwrap();

    // Any further payment after settlement must also fail.
    let post_settle = s
        .pay_bill_share(&tenant_a)
        .err()
        .expect("expected post-settlement error");
    assert_eq!(post_settle, Failure::Contract(Error::BillAlreadySettled));
}

#[test]
fn test_balances_track_state_before_and_after_settlement() {
    let mut s = setup();
    let (landlord, tenant_a, tenant_b) =
        (s.landlord.clone(), s.tenant_a.clone(), s.tenant_b.clone());

    s.deposit_funds(&tenant_a).unwrap();
    s.deposit_funds(&tenant_b).unwrap();

    let bill_total: i128 = 777; // odd number to verify remainder handling
    s.create_bill(&landlord, bill_total).unwrap();

    let before_landlord = s.token.balance(&s.landlord);
    let before_contract = s.token.balance(&s.contract_address);
    let before_a = s.token.balance(&s.tenant_a);
    let before_b = s.token.balance(&s.tenant_b);

    assert_eq!(before_landlord, 0);
    assert_eq!(before_contract, s.deposit_amount * 2);

    // Tenant A pays the floor share (777 / 2 = 388).
    s.pay_bill_share(&tenant_a).unwrap();
    assert_eq!(s.token.balance(&s.tenant_a), before_a - 388);

    // Contract holds deposits + partial bill, landlord not yet paid.
    assert_eq!(s.token.balance(&s.contract_address), before_contract + 388);
    assert_eq!(s.token.balance(&s.landlord), 0);

    // Tenant B pays the remainder (777 - 388 = 389): this triggers payout.
    s.pay_bill_share(&tenant_b).unwrap();
    assert_eq!(s.token.balance(&s.tenant_b), before_b - 389);

    // Landlord received exactly the bill total.
    assert_eq!(s.token.balance(&s.landlord), bill_total);
    // Contract retains only the deposits.
    assert_eq!(s.token.balance(&s.contract_address), s.deposit_amount * 2);

    let bill = s.contract.get_bill().ok().unwrap();
    assert!(bill.settled);
    assert_eq!(bill.collected, bill_total);
}

#[test]
fn test_escrow_remains_locked_on_disagreement() {
    let mut s = setup();
    let (landlord, tenant_a, tenant_b) =
        (s.landlord.clone(), s.tenant_a.clone(), s.tenant_b.clone());

    s.deposit_funds(&tenant_a).unwrap();
    s.deposit_funds(&tenant_b).unwrap();
    let locked_total = s.deposit_amount * 2;
    assert_eq!(s.token.balance(&s.contract_address), locked_total);

    // Landlord rejects; tenant approves: mismatch, no release.
    s.resolve_escrow(&landlord, false, false).unwrap();
    s.resolve_escrow(&tenant_a, false, true).unwrap();

    assert_eq!(s.token.balance(&s.contract_address), locked_total);
    assert_eq!(s.contract.get_total_deposited(), locked_total);

    let escrow_a = s.contract.get_escrow(plain(&tenant_a)).unwrap();
    let escrow_b = s.contract.get_escrow(plain(&tenant_b)).unwrap();
    assert!(!escrow_a.refunded);
    assert!(!escrow_b.refunded);
    assert_eq!(escrow_a.amount, s.deposit_amount);
    assert_eq!(escrow_b.amount, s.deposit_amount);

    // Once landlord flips to approve, funds release.
    s.resolve_escrow(&landlord, true, false).unwrap();

    assert_eq!(s.token.balance(&s.contract_address), 0);
    assert_eq!(s.contract.get_total_deposited(), 0);
}

#[test]
fn a_refused_transfer_leaves_everything_as_it_was() {
    let mut s = setup();
    let tenant_a = s.tenant_a.clone();
    let landlord = s.landlord.clone();
    // The tenant cannot pay 10_500 out of 10_000.
    s.create_bill(&landlord, 21_000).unwrap();
    assert_eq!(s.pay_bill_share(&tenant_a), Err(Failure::Host));
    let bill = s.contract.get_bill().ok().unwrap();
    assert_eq!(bill.collected, 0);
    assert_eq!(bill.paid_flags.get(0), Some(false));
    assert_eq!(s.token.balance(&s.tenant_a), 10_000);
}

#[test]
fn the_balance_is_what_the_books_owe() {
    let mut s = setup();
    let (landlord, tenant_a, tenant_b) =
        (s.landlord.clone(), s.tenant_a.clone(), s.tenant_b.clone());
    s.deposit_funds(&tenant_b).unwrap();
    s.create_bill(&landlord, 999).unwrap();
    s.pay_bill_share(&tenant_b).unwrap();
    // The last tenant owes 999 - 499.
    assert_eq!(s.token.balance(&s.contract_address), 1_000 + 500);
    // Releasing the deposits leaves the open bill untouched.
    s.resolve_escrow(&landlord, true, false).unwrap();
    s.resolve_escrow(&tenant_b, false, true).unwrap();
    assert_eq!(s.token.balance(&s.contract_address), 500);
    assert_eq!(s.token.balance(&s.tenant_a), 10_000);
    s.pay_bill_share(&tenant_a).unwrap();
    assert_eq!(s.token.balance(&s.contract_address), 0);
    assert_eq!(s.token.balance(&s.landlord), 999);
}
