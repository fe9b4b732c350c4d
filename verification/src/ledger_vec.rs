//! Lists that live in the ledger environment: the tenants of a room and the
//! paid flags of a bill.
//!
//! The environment keeps every item of a `soroban_sdk::Vec` as an untyped
//! value. The lists of this module own their vector, so that every item is
//! known to be of the right type and no access can fail. The functions that
//! make the outside calls are taken on trust; each says what it relies on. They
//! leave out one thing: a host that meters its callers stops the whole call
//! once its budget is spent.
use soroban_sdk::Env;
use vstd::prelude::*;

verus! {

/// A party on the ledger as plain integers: the kind of address (zero for an
/// account, one for a contract), then the high and the low half of its 32-byte
/// key.
pub type Address = (u32, u128, u128);

/// Whether two addresses are the same.
pub fn same_address(a: Address, b: Address) -> (same: bool)
    ensures
        same == (a == b),
{
    a.0 == b.0 && a.1 == b.1 && a.2 == b.2
}

/// `soroban_sdk::Env`: the environment that a contract call runs in. Nothing is
/// claimed of it.
#[verifier::external_type_specification]
#[verifier::external_body]
pub struct ExEnv(soroban_sdk::Env);

/// `soroban_sdk::Vec`: a vector whose items the environment keeps. A value of
/// it names one immutable host object; the methods that change it put another
/// object in its place, so that a copy never sees the change.
#[verifier::external_type_specification]
#[verifier::external_body]
#[verifier::reject_recursive_types(T)]
pub struct ExVec<T>(soroban_sdk::Vec<T>);

/// What a vector of addresses holds, in order. `None` stands for an item that
/// does not convert to an address.
pub uninterp spec fn address_items(v: soroban_sdk::Vec<Address>) -> Seq<Option<Address>>;

/// What a vector of flags holds, in order. `None` stands for an item that does
/// not convert to a flag.
pub uninterp spec fn flag_items(v: soroban_sdk::Vec<bool>) -> Seq<Option<bool>>;

/// Calls `soroban_sdk::Vec::new`: the vector is empty.
#[verifier::external_body]
fn new_addresses(env: &Env) -> (v: soroban_sdk::Vec<Address>)
    ensures
        address_items(v) == Seq::<Option<Address>>::empty(),
{
    soroban_sdk::Vec::new(env)
}

/// Calls `soroban_sdk::Vec::push_back`: the item goes to the end, the others
/// stay.
#[verifier::external_body]
fn push_back_address(v: &mut soroban_sdk::Vec<Address>, a: Address)
    requires
        address_items(*old(v)).len() < u32::MAX,
    ensures
        address_items(*final(v)) == address_items(*old(v)).push(Some(a)),
{
    v.push_back(a)
}

/// Calls `soroban_sdk::Vec::len`: the number of items.
#[verifier::external_body]
fn len_addresses(v: &soroban_sdk::Vec<Address>) -> (n: u32)
    ensures
        n == address_items(*v).len(),
{
    v.len()
}

/// Calls `soroban_sdk::Vec::get`: the item at a position, `None` past the end.
/// It panics on an item that does not convert, which is left out.
#[verifier::external_body]
fn get_address(v: &soroban_sdk::Vec<Address>, i: u32) -> (a: Option<Address>)
    requires
        i < address_items(*v).len() ==> address_items(*v)[i as int] is Some,
    ensures
        a == if i < address_items(*v).len() {
            address_items(*v)[i as int]
        } else {
            None
        },
{
    v.get(i)
}

/// Calls `soroban_sdk::Vec::new`: the vector is empty.
#[verifier::external_body]
fn new_flags(env: &Env) -> (v: soroban_sdk::Vec<bool>)
    ensures
        flag_items(v) == Seq::<Option<bool>>::empty(),
{
    soroban_sdk::Vec::new(env)
}

/// Calls `soroban_sdk::Vec::push_back`: the item goes to the end, the others
/// stay.
#[verifier::external_body]
fn push_back_flag(v: &mut soroban_sdk::Vec<bool>, b: bool)
    requires
        flag_items(*old(v)).len() < u32::MAX,
    ensures
        flag_items(*final(v)) == flag_items(*old(v)).push(Some(b)),
{
    v.push_back(b)
}

/// Calls `soroban_sdk::Vec::len`: the number of items.
#[verifier::external_body]
fn len_flags(v: &soroban_sdk::Vec<bool>) -> (n: u32)
    ensures
        n == flag_items(*v).len(),
{
    v.len()
}

/// Calls `soroban_sdk::Vec::get`: the item at a position, `None` past the end.
/// It panics on an item that does not convert, which is left out.
#[verifier::external_body]
fn get_flag(v: &soroban_sdk::Vec<bool>, i: u32) -> (b: Option<bool>)
    requires
        i < flag_items(*v).len() ==> flag_items(*v)[i as int] is Some,
    ensures
        b == if i < flag_items(*v).len() {
            flag_items(*v)[i as int]
        } else {
            None
        },
{
    v.get(i)
}

/// Calls `soroban_sdk::Vec::set`: one item is replaced, the others stay. It
/// panics past the end, which is left out.
#[verifier::external_body]
fn set_flag(v: &mut soroban_sdk::Vec<bool>, i: u32, b: bool)
    requires
        i < flag_items(*old(v)).len(),
    ensures
        flag_items(*final(v)) == flag_items(*old(v)).update(i as int, Some(b)),
{
    v.set(i, b)
}

/// `soroban_sdk::Vec::clone`: the copy is the same vector, a second reference to
/// the one host object.
pub assume_specification<T>[ <soroban_sdk::Vec<T> as Clone>::clone ](
    v: &soroban_sdk::Vec<T>,
) -> (copy: soroban_sdk::Vec<T>)
    ensures
        copy == *v,
;

/// A list of addresses.
pub struct AddressList {
    items: soroban_sdk::Vec<Address>,
}

impl View for AddressList {
    type V = Seq<Address>;

    closed spec fn view(&self) -> Seq<Address> {
        address_items(self.items).map_values(|a: Option<Address>| a->0)
    }
}

impl Clone for AddressList {
    fn clone(&self) -> (copy: AddressList)
        ensures
            copy@ == self@,
    {
        proof {
            use_type_invariant(self);
        }
        AddressList { items: self.items.clone() }
    }
}

impl AddressList {
    /// Every item is an address.
    #[verifier::type_invariant]
    spec fn typed(self) -> bool {
        forall|i: int|
            0 <= i < address_items(self.items).len() ==> (#[trigger] address_items(
                self.items,
            )[i]) is Some
    }

    /// The empty list.
    pub fn new(env: &Env) -> (list: AddressList)
        ensures
            list@ == Seq::<Address>::empty(),
    {
        AddressList { items: new_addresses(env) }
    }

    /// The list with `a` behind its last address.
    pub fn push(self, a: Address) -> (list: AddressList)
        requires
            self@.len() < u32::MAX,
        ensures
            list@ == self@.push(a),
    {
        proof {
            use_type_invariant(&self);
        }
        let mut items = self.items;
        push_back_address(&mut items, a);
        AddressList { items }
    }

    /// The number of addresses.
    pub fn len(&self) -> (n: u32)
        ensures
            n == self@.len(),
    {
        len_addresses(&self.items)
    }

    /// The address at position `i`, if the list is that long.
    pub fn get(&self, i: u32) -> (a: Option<Address>)
        ensures
            a == if i < self@.len() {
                Some(self@[i as int])
            } else {
                None
            },
    {
        proof {
            use_type_invariant(self);
        }
        get_address(&self.items, i)
    }
}

/// A list of flags.
pub struct FlagList {
    items: soroban_sdk::Vec<bool>,
}

impl View for FlagList {
    type V = Seq<bool>;

    closed spec fn view(&self) -> Seq<bool> {
        flag_items(self.items).map_values(|b: Option<bool>| b->0)
    }
}

impl Clone for FlagList {
    fn clone(&self) -> (copy: FlagList)
        ensures
            copy@ == self@,
    {
        proof {
            use_type_invariant(self);
        }
        FlagList { items: self.items.clone() }
    }
}

impl FlagList {
    /// Every item is a flag.
    #[verifier::type_invariant]
    spec fn typed(self) -> bool {
        forall|i: int|
            0 <= i < flag_items(self.items).len() ==> (#[trigger] flag_items(self.items)[i]) is Some
    }

    /// The empty list.
    pub fn new(env: &Env) -> (list: FlagList)
        ensures
            list@ == Seq::<bool>::empty(),
    {
        FlagList { items: new_flags(env) }
    }

    /// The list with `b` behind its last flag.
    pub fn push(self, b: bool) -> (list: FlagList)
        requires
            self@.len() < u32::MAX,
        ensures
            list@ == self@.push(b),
    {
        proof {
            use_type_invariant(&self);
        }
        let mut items = self.items;
        push_back_flag(&mut items, b);
        FlagList { items }
    }

    /// The number of flags.
    pub fn len(&self) -> (n: u32)
        ensures
            n == self@.len(),
    {
        len_flags(&self.items)
    }

    /// The flag at position `i`, if the list is that long.
    pub fn get(&self, i: u32) -> (b: Option<bool>)
        ensures
            b == if i < self@.len() {
                Some(self@[i as int])
            } else {
                None
            },
    {
        proof {
            use_type_invariant(self);
        }
        get_flag(&self.items, i)
    }

    /// A copy of the list in which the flag at position `i` is `b`.
    pub fn with(&self, i: u32, b: bool) -> (list: FlagList)
        requires
            i < self@.len(),
        ensures
            list@ == self@.update(i as int, b),
    {
        proof {
            use_type_invariant(self);
        }
        let mut items = self.items.clone();
        set_flag(&mut items, i, b);
        FlagList { items }
    }
}

} // verus!
