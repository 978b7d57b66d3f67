use nft_registry::account::Account;
use nft_registry::mappings::{
    balance_key, get_key, operator_approvals_key, owner_key, set_key, token_approval_key, Store,
};
use nft_registry::registry::{
    _approve, _base_uri, _burn, _check_on_erc721_received, _encode_packed, _exists,
    _is_approved_for_all, _is_approved_or_owner, _mint, _safe_mint, _safe_transfer,
    _set_approval_for_all, _transfer, balance_of, get_approved, owner_of, Registry,
};
use nft_registry::uint::Uint256;

fn acct(b: u8) -> Account {
    Account::new([b; 32])
}

fn id(n: u64) -> Uint256 {
    Uint256::from_u64(n)
}

fn bal(reg: &Registry, a: Account) -> Uint256 {
    balance_of(reg, a)
}

#[test]
fn end_to_end_scenario() {
    let (a, b, c) = (acct(0xa1), acct(0xb2), acct(0xc3));
    let zero = Account::zero();
    let mut reg = Registry::new();
    _mint(&mut reg, a, id(1));
    assert_eq!(bal(&reg, a), id(1));
    assert!(owner_of(&reg, id(1)) == a);
    _transfer(&mut reg, a, b, id(1));
    assert_eq!(bal(&reg, a), id(0));
    assert_eq!(bal(&reg, b), id(1));
    assert!(owner_of(&reg, id(1)) == b);
    assert!(get_approved(&reg, id(1)) == zero);
    _approve(&mut reg, c, id(1));
    assert!(get_approved(&reg, id(1)) == c);
    assert!(_is_approved_or_owner(&reg, c, id(1)));
    _burn(&mut reg, id(1), b, zero);
    assert!(owner_of(&reg, id(1)) == zero);
    assert_eq!(bal(&reg, b), id(0));
    assert!(!_exists(&reg, id(1)));
}

#[test]
fn balances_add_up_to_existing_tokens() {
    let (a, b) = (acct(1), acct(2));
    let mut reg = Registry::new();
    for n in 1..=5u64 {
        _mint(&mut reg, if n % 2 == 0 { a } else { b }, id(n));
    }
    _transfer(&mut reg, b, a, id(3));
    _burn(&mut reg, id(2), a, Account::zero());
    let total = bal(&reg, a).l0 + bal(&reg, b).l0;
    let existing = (1..=5u64).filter(|n| _exists(&reg, id(*n))).count() as u64;
    assert_eq!(total, 4);
    assert_eq!(existing, 4);
    assert_eq!(bal(&reg, a), id(2));
    assert_eq!(bal(&reg, b), id(2));
}

#[test]
fn second_mint_of_a_token_is_ignored() {
    let (a, b) = (acct(1), acct(2));
    let mut reg = Registry::new();
    _mint(&mut reg, a, id(7));
    _mint(&mut reg, b, id(7));
    assert!(owner_of(&reg, id(7)) == a);
    assert_eq!(bal(&reg, a), id(1));
    assert_eq!(bal(&reg, b), id(0));
}

#[test]
fn transfer_with_wrong_from_does_nothing() {
    let (a, b, c) = (acct(1), acct(2), acct(3));
    let mut reg = Registry::new();
    _mint(&mut reg, a, id(9));
    _approve(&mut reg, b, id(9));
    _transfer(&mut reg, c, c, id(9));
    _transfer(&mut reg, b, c, id(9));
    assert!(owner_of(&reg, id(9)) == a);
    assert!(get_approved(&reg, id(9)) == b);
    assert_eq!(bal(&reg, a), id(1));
    assert_eq!(bal(&reg, c), id(0));
    assert!(!_is_approved_or_owner(&reg, c, id(9)));
}

#[test]
fn transfer_does_not_consult_approvals() {
    let (a, b) = (acct(1), acct(2));
    let mut reg = Registry::new();
    _mint(&mut reg, a, id(4));
    assert!(!_is_approved_or_owner(&reg, b, id(4)));
    _transfer(&mut reg, a, b, id(4));
    assert!(owner_of(&reg, id(4)) == b);
}

#[test]
fn transfer_clears_approval() {
    let (a, b, c) = (acct(1), acct(2), acct(3));
    let mut reg = Registry::new();
    _mint(&mut reg, a, id(5));
    _approve(&mut reg, c, id(5));
    _transfer(&mut reg, a, b, id(5));
    assert!(get_approved(&reg, id(5)) == Account::zero());
}

#[test]
fn transfer_to_self_keeps_balance() {
    let a = acct(1);
    let mut reg = Registry::new();
    _mint(&mut reg, a, id(6));
    _approve(&mut reg, acct(3), id(6));
    _transfer(&mut reg, a, a, id(6));
    assert_eq!(bal(&reg, a), id(1));
    assert!(owner_of(&reg, id(6)) == a);
    assert!(get_approved(&reg, id(6)) == Account::zero());
}

#[test]
fn zero_target_is_refused() {
    let a = acct(1);
    let zero = Account::zero();
    let mut reg = Registry::new();
    _mint(&mut reg, zero, id(2));
    assert!(!_exists(&reg, id(2)));
    assert_eq!(bal(&reg, zero), id(0));
    _mint(&mut reg, a, id(3));
    _transfer(&mut reg, a, zero, id(3));
    assert!(owner_of(&reg, id(3)) == a);
    assert_eq!(bal(&reg, a), id(1));
    assert_eq!(bal(&reg, zero), id(0));
}

#[test]
fn burn_clears_owner_and_one_unit_of_balance() {
    let a = acct(1);
    let mut reg = Registry::new();
    _mint(&mut reg, a, id(1));
    _mint(&mut reg, a, id(2));
    _approve(&mut reg, acct(4), id(1));
    _burn(&mut reg, id(1), a, Account::zero());
    assert!(owner_of(&reg, id(1)) == Account::zero());
    assert!(get_approved(&reg, id(1)) == Account::zero());
    assert_eq!(bal(&reg, a), id(1));
    assert!(owner_of(&reg, id(2)) == a);
    // The token is gone, so `a` is no longer a valid owner to burn it with.
    assert!(!(owner_of(&reg, id(1)) == a));
}

#[test]
fn operator_approval_is_per_pair() {
    let (a, b, c) = (acct(1), acct(2), acct(3));
    let mut reg = Registry::new();
    _mint(&mut reg, a, id(8));
    assert!(!_is_approved_for_all(&reg, a, b));
    _set_approval_for_all(&mut reg, a, b, true);
    assert!(_is_approved_for_all(&reg, a, b));
    assert!(!_is_approved_for_all(&reg, b, a));
    assert!(!_is_approved_for_all(&reg, a, c));
    assert!(_is_approved_or_owner(&reg, b, id(8)));
    _set_approval_for_all(&mut reg, a, b, false);
    assert!(!_is_approved_or_owner(&reg, b, id(8)));
}

#[test]
fn safe_variants_act_as_plain_ones() {
    let (a, b) = (acct(1), acct(2));
    let mut reg = Registry::new();
    _safe_mint(&mut reg, a, id(1), None);
    _safe_mint(&mut reg, a, id(2), Some(vec![1, 2, 3]));
    assert_eq!(bal(&reg, a), id(2));
    _safe_transfer(&mut reg, a, b, id(2), &[9]);
    assert!(owner_of(&reg, id(2)) == b);
    assert!(_check_on_erc721_received(a, b, id(2), &[]));
}

#[test]
fn large_token_identifiers_are_distinct() {
    let a = acct(1);
    let mut reg = Registry::new();
    let big = Uint256 { l0: 0, l1: 1, l2: 0, l3: 0 };
    _mint(&mut reg, a, big);
    assert!(_exists(&reg, big));
    assert!(!_exists(&reg, id(0)));
    assert!(!_exists(&reg, id(1)));
}

#[test]
fn store_round_trip() {
    let mut store: Store<Uint256> = Store::new();
    assert_eq!(store.slots_allocated(), 0);
    assert_eq!(get_key(&store, "k"), id(0));
    set_key(&mut store, "k", id(5));
    assert_eq!(get_key(&store, "k"), id(5));
    assert_eq!(store.slots_allocated(), 1);
    set_key(&mut store, "k", id(6));
    assert_eq!(get_key(&store, "k"), id(6));
    assert_eq!(store.slots_allocated(), 1);
    set_key(&mut store, "j", id(7));
    assert_eq!(get_key(&store, "k"), id(6));
    assert_eq!(get_key(&store, "j"), id(7));
    assert_eq!(store.slots_allocated(), 2);
}

#[test]
fn key_names() {
    let a = Account::new([0xab; 32]);
    assert_eq!(balance_key(&a), format!("_balance_{}", "ab".repeat(32)));
    assert_eq!(owner_key(id(1234)), "_owner_1234");
    assert_eq!(owner_key(id(0)), "_owner_0");
    let big = Uint256 { l0: 0, l1: 1, l2: 0, l3: 0 };
    assert_eq!(owner_key(big), "_owner_18446744073709551616");
    assert_eq!(token_approval_key(id(42)), "_token_approvals_42");
    let b = Account::new([0x01; 32]);
    assert_eq!(
        operator_approvals_key(a, b),
        format!("_operator_approvals_{}_{}", "ab".repeat(32), "01".repeat(32))
    );
}

#[test]
fn encode_packed_and_base_uri() {
    assert_eq!(_base_uri(), "");
    assert_eq!(_encode_packed(String::from("ab"), id(255)), "0x6162ff");
    assert_eq!(_encode_packed(String::new(), id(0)), "0x0");
}

#[test]
fn zero_account_checks() {
    assert!(Account::zero().check_zero());
    assert!(!acct(1).check_zero());
    let mut bytes = [0u8; 32];
    bytes[31] = 1;
    assert!(!Account::new(bytes).check_zero());
    assert!(Account::new(bytes) != Account::zero());
    assert!(acct(5) == acct(5));
}

#[test]
fn rewriting_the_same_value_changes_nothing() {
    let mut store: Store<bool> = Store::new();
    set_key(&mut store, "a", true);
    set_key(&mut store, "b", false);
    set_key(&mut store, "a", true);
    assert_eq!(store.slots_allocated(), 2);
    assert!(get_key(&store, "a"));
    assert!(!get_key(&store, "b"));
    assert!(!get_key(&store, "c"));
}
