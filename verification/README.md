# DormChain SafePay

The logic of a contract for a shared dormitory room, verified with Verus. It splits
utility bills equally among the tenants and holds their security deposits until both the
landlord and the tenants approve the move-out inspection.

- `src/` is the verified library. A call reads the ledger entries and answers with a plan:
  the authorizations, token transfers and ledger writes that the host has to carry out, in
  order, and how the call ends.
  - `ledger_vec.rs`: lists of addresses and flags kept in the environment, and all that is
    taken on trust about `soroban_sdk::Vec`.
  - `entries.rs`: errors, keys, ledger entries, effects and plans.
  - `escrows.rs`: the table of escrow records.
  - `model.rs`: what each call plans, in mathematical terms.
  - `contract.rs`: the calls.
  - `books.rs`: when the books are in order, what is owed, and histories of calls.
  - `laws.rs`: what holds of the contract as a whole. `lemmas.rs`: steps of the proofs.
- `app/` is the contract on a Soroban host: it loads the entries, lets the library plan the
  call and carries the plan out.
- `tests/` runs the library, with a real token contract in `scenarios.rs`.

## What is proved

- The shares of a bill add up to the bill, and the landlord is paid exactly its amount, once
  every tenant has paid and not before (`law_shares_add_up`, `law_share_paid`,
  `law_bill_settles_in_any_order`).
- Deposits stay locked without agreement, go back to the tenants who paid them on agreement,
  and are refunded once (`law_deposits_locked`, `law_deposits_released`,
  `law_no_unilateral_release`, `law_no_second_refund`, `law_agreement_in_either_order`).
- At every point of its life the contract holds what it owes (`law_balance_covers_debts`).
