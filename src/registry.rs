//! The token registry: existence, ownership, approvals, and the transfer,
//! mint and burn transitions, all kept through the keyed storage adapter.

use vstd::prelude::*;
use vstd::multiset::Multiset;
use crate::account::{Account, zero_account, lemma_zero_account, lemma_zero_unique};
use crate::mappings::{
    Store, get_key, set_key, balance_key, owner_key, token_approval_key, operator_approvals_key,
    balance_name, owner_name, token_approval_name, operator_approvals_name,
    lemma_balance_name_injective, lemma_owner_name_injective, lemma_token_approval_name_injective,
    lemma_owner_and_approval_names_differ, lemma_operator_approvals_name_injective,
};
use crate::uint::{Uint256, uint_bound, checked_add, checked_sub, to_lower_hex, lemma_value_injective};
use crate::digits::{digits, hex_of};
use crate::account::hex_encode;
use vstd::utf8::encode_utf8;

verus! {

/// The tokens among `tokens` that `owners` gives to `a`.
pub open spec fn holdings(tokens: Set<Uint256>, owners: Map<Uint256, Account>, a: Account) -> Set<Uint256> {
    tokens.filter(|t: Uint256| owners[t] == a)
}

/// The bookkeeping that ties balances to ownership: `tokens` are exactly the
/// tokens with an owner, each account's balance is the number of tokens it
/// owns, `held` holds each account as often as its balance, and as many
/// times in all as there are tokens.
pub open spec fn ledger_ok(
    tokens: Set<Uint256>,
    held: Multiset<Account>,
    owners: Map<Uint256, Account>,
    balances: Map<Account, nat>,
) -> bool {
    &&& tokens.finite()
    &&& forall|t: Uint256| #[trigger] tokens.contains(t) <==> !owners[t].is_zero()
    &&& forall|a: Account| #[trigger] held.count(a) == balances[a]
    &&& forall|a: Account| #[trigger] balances[a] == holdings(tokens, owners, a).len()
    &&& held.len() == tokens.len()
}

/// The balances after one token moved from `from` to `to`.
pub open spec fn moved(balances: Map<Account, nat>, from: Account, to: Account) -> Map<Account, nat> {
    let less = balances.insert(from, (balances[from] - 1) as nat);
    less.insert(to, less[to] + 1)
}

/// The state of the registry: three stores, by the type of value they hold,
/// and the ghost bookkeeping of which tokens exist and who holds them.
pub struct Registry {
    accounts: Store<Account>,
    flags: Store<bool>,
    amounts: Store<Uint256>,
    tokens: Ghost<Set<Uint256>>,
    held: Ghost<Multiset<Account>>,
}

impl Registry {
    /// The owner of `t`; the zero identifier where `t` does not exist.
    pub closed spec fn owner_of(self, t: Uint256) -> Account {
        self.accounts.value_of(owner_name(t))
    }

    /// The account approved for `t`; the zero identifier where none is.
    pub closed spec fn approval_of(self, t: Uint256) -> Account {
        self.accounts.value_of(token_approval_name(t))
    }

    /// Whether `operator` may manage all tokens of `owner`.
    pub closed spec fn operator_flag(self, owner: Account, operator: Account) -> bool {
        self.flags.value_of(operator_approvals_name(owner, operator))
    }

    /// The number of tokens that `a` is recorded to hold.
    pub closed spec fn balance_of(self, a: Account) -> nat {
        self.amounts.value_of(balance_name(a)).value()
    }

    /// The owner mapping.
    pub open spec fn owners(self) -> Map<Uint256, Account> {
        Map::new(|t: Uint256| true, |t: Uint256| self.owner_of(t))
    }

    /// The token approval mapping.
    pub open spec fn approvals(self) -> Map<Uint256, Account> {
        Map::new(|t: Uint256| true, |t: Uint256| self.approval_of(t))
    }

    /// The operator approval mapping, by (owner, operator).
    pub open spec fn operators(self) -> Map<(Account, Account), bool> {
        Map::new(|p: (Account, Account)| true, |p: (Account, Account)| self.operator_flag(p.0, p.1))
    }

    /// The balance mapping.
    pub open spec fn balances(self) -> Map<Account, nat> {
        Map::new(|a: Account| true, |a: Account| self.balance_of(a))
    }

    /// The tokens that exist: those with a non-zero owner.
    pub open spec fn existing(self) -> Set<Uint256> {
        Set::new(|t: Uint256| !self.owner_of(t).is_zero())
    }

    /// Each account as many times as its balance: its size is the sum of
    /// all balances.
    pub closed spec fn balance_bag(self) -> Multiset<Account> {
        self.held@
    }

    /// The stores are well formed and the bookkeeping holds.
    pub closed spec fn wf(self) -> bool {
        &&& self.accounts.wf()
        &&& self.flags.wf()
        &&& self.amounts.wf()
        &&& ledger_ok(self.tokens@, self.held@, self.owners(), self.balances())
    }

    /// A registry in which no token exists and nothing is approved.
    pub fn new() -> (r: Registry)
        ensures
            r.wf(),
            forall|t: Uint256| #[trigger] r.owners()[t] == zero_account(),
            forall|t: Uint256| #[trigger] r.approvals()[t] == zero_account(),
            forall|o: Account, p: Account| !#[trigger] r.operators()[(o, p)],
            forall|a: Account| #[trigger] r.balances()[a] == 0,
    {
        let r = Registry {
            accounts: Store::new(),
            flags: Store::new(),
            amounts: Store::new(),
            tokens: Ghost(Set::empty()),
            held: Ghost(Multiset::empty()),
        };
        proof {
            lemma_zero_account();
            assert forall|a: Account| #[trigger] r.balances()[a] == holdings(r.tokens@, r.owners(), a).len() by {
                assert(holdings(r.tokens@, r.owners(), a) =~= Set::empty());
            }
        }
        r
    }
}


proof fn lemma_distinct_tokens(t: Uint256, u: Uint256)
    requires
        t != u,
    ensures
        owner_name(t) != owner_name(u),
        token_approval_name(t) != token_approval_name(u),
        owner_name(t) != token_approval_name(u),
        token_approval_name(t) != owner_name(u),
{
    if owner_name(t) == owner_name(u) {
        lemma_owner_name_injective(t, u);
        lemma_value_injective(t, u);
    }
    if token_approval_name(t) == token_approval_name(u) {
        lemma_token_approval_name_injective(t, u);
        lemma_value_injective(t, u);
    }
    lemma_owner_and_approval_names_differ(t, u);
    lemma_owner_and_approval_names_differ(u, t);
}

/// Writing the owner of `t` changes that owner alone.
proof fn lemma_write_owner(pre: Store<Account>, post: Store<Account>, t: Uint256, v: Account)
    requires
        Store::stores(pre, post, owner_name(t), v),
    ensures
        forall|u: Uint256| #[trigger] post.value_of(owner_name(u)) == if u == t { v } else { pre.value_of(owner_name(u)) },
        forall|u: Uint256| #[trigger] post.value_of(token_approval_name(u)) == pre.value_of(token_approval_name(u)),
{
    assert forall|u: Uint256| #[trigger] post.value_of(owner_name(u)) == if u == t { v } else { pre.value_of(owner_name(u)) } by {
        if u != t {
            lemma_distinct_tokens(u, t);
        }
    }
    assert forall|u: Uint256| #[trigger] post.value_of(token_approval_name(u)) == pre.value_of(token_approval_name(u)) by {
        lemma_owner_and_approval_names_differ(t, u);
    }
}

/// Writing the approval of `t` changes that approval alone.
proof fn lemma_write_approval(pre: Store<Account>, post: Store<Account>, t: Uint256, v: Account)
    requires
        Store::stores(pre, post, token_approval_name(t), v),
    ensures
        forall|u: Uint256| #[trigger] post.value_of(token_approval_name(u)) == if u == t { v } else { pre.value_of(token_approval_name(u)) },
        forall|u: Uint256| #[trigger] post.value_of(owner_name(u)) == pre.value_of(owner_name(u)),
{
    assert forall|u: Uint256| #[trigger] post.value_of(token_approval_name(u)) == if u == t { v } else { pre.value_of(token_approval_name(u)) } by {
        if u != t {
            lemma_distinct_tokens(u, t);
        }
    }
    assert forall|u: Uint256| #[trigger] post.value_of(owner_name(u)) == pre.value_of(owner_name(u)) by {
        lemma_owner_and_approval_names_differ(u, t);
    }
}

/// Writing the balance of `a` changes that balance alone.
proof fn lemma_write_balance(pre: Store<Uint256>, post: Store<Uint256>, a: Account, v: Uint256)
    requires
        Store::stores(pre, post, balance_name(a), v),
    ensures
        forall|b: Account| #[trigger] post.value_of(balance_name(b)) == if b == a { v } else { pre.value_of(balance_name(b)) },
{
    assert forall|b: Account| #[trigger] post.value_of(balance_name(b)) == if b == a { v } else { pre.value_of(balance_name(b)) } by {
        if b != a && balance_name(b) == balance_name(a) {
            lemma_balance_name_injective(b, a);
        }
    }
}

/// Writing the flag of (`o`, `p`) changes that flag alone.
proof fn lemma_write_flag(pre: Store<bool>, post: Store<bool>, o: Account, p: Account, v: bool)
    requires
        Store::stores(pre, post, operator_approvals_name(o, p), v),
    ensures
        forall|o2: Account, p2: Account| #[trigger] post.value_of(operator_approvals_name(o2, p2))
            == if o2 == o && p2 == p { v } else { pre.value_of(operator_approvals_name(o2, p2)) },
{
    assert forall|o2: Account, p2: Account| #[trigger] post.value_of(operator_approvals_name(o2, p2))
        == if o2 == o && p2 == p { v } else { pre.value_of(operator_approvals_name(o2, p2)) } by {
        if operator_approvals_name(o2, p2) == operator_approvals_name(o, p) {
            lemma_operator_approvals_name_injective(o2, p2, o, p);
        }
    }
}

/// Whether `transfer(from, to, t)` changes anything: `from` owns `t` and
/// `to` is not the zero identifier.
pub open spec fn transfer_goes_ahead(pre: Registry, from: Account, to: Account, t: Uint256) -> bool {
    pre.owners()[t] == from && !to.is_zero()
}

/// What a transfer does: where it goes ahead, the approval of `t` is
/// cleared, one unit of balance moves from `from` to `to`, and `to` owns
/// `t`; otherwise nothing changes.
pub open spec fn transferred(pre: Registry, post: Registry, from: Account, to: Account, t: Uint256) -> bool {
    &&& post.wf()
    &&& if transfer_goes_ahead(pre, from, to, t) {
        &&& post.owners() == pre.owners().insert(t, to)
        &&& post.approvals() == pre.approvals().insert(t, zero_account())
        &&& post.balances() == moved(pre.balances(), from, to)
        &&& post.operators() == pre.operators()
    } else {
        post == pre
    }
}

/// Whether `mint(to, t)` changes anything: `to` is not the zero identifier
/// and `t` does not exist.
pub open spec fn mint_goes_ahead(pre: Registry, to: Account, t: Uint256) -> bool {
    !to.is_zero() && pre.owners()[t].is_zero()
}

/// What a mint does: where it goes ahead, `to` owns `t` and its balance
/// grows by one; otherwise nothing changes.
pub open spec fn minted(pre: Registry, post: Registry, to: Account, t: Uint256) -> bool {
    &&& post.wf()
    &&& if mint_goes_ahead(pre, to, t) {
        &&& post.owners() == pre.owners().insert(t, to)
        &&& post.balances() == pre.balances().insert(to, pre.balances()[to] + 1)
        &&& post.approvals() == pre.approvals()
        &&& post.operators() == pre.operators()
    } else {
        post == pre
    }
}

/// What a burn does: the approval of `t` is cleared, the balance of
/// `owner` drops by one, and `t` has the zero identifier as owner.
pub open spec fn burned(pre: Registry, post: Registry, t: Uint256, owner: Account, zero: Account) -> bool {
    &&& post.wf()
    &&& post.owners() == pre.owners().insert(t, zero)
    &&& post.approvals() == pre.approvals().insert(t, zero)
    &&& post.balances() == pre.balances().insert(owner, (pre.balances()[owner] - 1) as nat)
    &&& post.operators() == pre.operators()
}

proof fn lemma_holdings_finite(tokens: Set<Uint256>, owners: Map<Uint256, Account>, a: Account)
    requires
        tokens.finite(),
    ensures
        holdings(tokens, owners, a).finite(),
{
    tokens.lemma_len_filter(|t: Uint256| owners[t] == a);
}

/// The owner of an existing token has a balance of at least one.
proof fn lemma_owner_has_balance(
    tokens: Set<Uint256>,
    held: Multiset<Account>,
    owners: Map<Uint256, Account>,
    balances: Map<Account, nat>,
    t: Uint256,
)
    requires
        ledger_ok(tokens, held, owners, balances),
        !owners[t].is_zero(),
    ensures
        balances[owners[t]] >= 1,
{
    lemma_holdings_finite(tokens, owners, owners[t]);
    assert(holdings(tokens, owners, owners[t]).contains(t));
}

/// The bookkeeping survives moving an existing token `t` from `from` to a
/// different account `to`.
proof fn lemma_ledger_move(
    tokens: Set<Uint256>,
    held: Multiset<Account>,
    owners: Map<Uint256, Account>,
    balances: Map<Account, nat>,
    t: Uint256,
    from: Account,
    to: Account,
)
    requires
        ledger_ok(tokens, held, owners, balances),
        owners[t] == from,
        !from.is_zero(),
        !to.is_zero(),
        from != to,
    ensures
        balances[from] >= 1,
        ledger_ok(tokens, held.remove(from).insert(to), owners.insert(t, to), moved(balances, from, to)),
{
    let owners2 = owners.insert(t, to);
    let balances2 = moved(balances, from, to);
    let held2 = held.remove(from).insert(to);
    assert(tokens.contains(t));
    lemma_holdings_finite(tokens, owners, from);
    lemma_holdings_finite(tokens, owners, to);
    assert(holdings(tokens, owners, from).contains(t));
    assert(holdings(tokens, owners2, from) =~= holdings(tokens, owners, from).remove(t));
    assert(holdings(tokens, owners2, to) =~= holdings(tokens, owners, to).insert(t));
    assert forall|a: Account| #[trigger] balances2[a] == holdings(tokens, owners2, a).len() by {
        if a != from && a != to {
            assert(holdings(tokens, owners2, a) =~= holdings(tokens, owners, a));
        }
    }
    assert forall|u: Uint256| #[trigger] tokens.contains(u) <==> !owners2[u].is_zero() by {}
    assert(held.count(from) >= 1);
    assert(held.remove(from).len() == held.len() - 1);
}

/// The bookkeeping survives giving a token `t` that does not exist to `to`.
proof fn lemma_ledger_mint(
    tokens: Set<Uint256>,
    held: Multiset<Account>,
    owners: Map<Uint256, Account>,
    balances: Map<Account, nat>,
    t: Uint256,
    to: Account,
)
    requires
        ledger_ok(tokens, held, owners, balances),
        owners[t].is_zero(),
        !to.is_zero(),
    ensures
        ledger_ok(tokens.insert(t), held.insert(to), owners.insert(t, to), balances.insert(to, balances[to] + 1)),
{
    let tokens2 = tokens.insert(t);
    let owners2 = owners.insert(t, to);
    let balances2 = balances.insert(to, balances[to] + 1);
    assert(!tokens.contains(t));
    lemma_holdings_finite(tokens, owners, to);
    assert(holdings(tokens2, owners2, to) =~= holdings(tokens, owners, to).insert(t));
    assert forall|a: Account| #[trigger] balances2[a] == holdings(tokens2, owners2, a).len() by {
        if a != to {
            assert(holdings(tokens2, owners2, a) =~= holdings(tokens, owners, a));
        }
    }
    assert forall|u: Uint256| #[trigger] tokens2.contains(u) <==> !owners2[u].is_zero() by {}
}

/// The bookkeeping survives taking an existing token `t` from its owner.
proof fn lemma_ledger_burn(
    tokens: Set<Uint256>,
    held: Multiset<Account>,
    owners: Map<Uint256, Account>,
    balances: Map<Account, nat>,
    t: Uint256,
    owner: Account,
    zero: Account,
)
    requires
        ledger_ok(tokens, held, owners, balances),
        owners[t] == owner,
        !owner.is_zero(),
        zero.is_zero(),
    ensures
        balances[owner] >= 1,
        ledger_ok(
            tokens.remove(t),
            held.remove(owner),
            owners.insert(t, zero),
            balances.insert(owner, (balances[owner] - 1) as nat),
        ),
{
    let tokens2 = tokens.remove(t);
    let owners2 = owners.insert(t, zero);
    let balances2 = balances.insert(owner, (balances[owner] - 1) as nat);
    assert(tokens.contains(t));
    lemma_holdings_finite(tokens, owners, owner);
    assert(holdings(tokens, owners, owner).contains(t));
    assert(holdings(tokens2, owners2, owner) =~= holdings(tokens, owners, owner).remove(t));
    assert forall|a: Account| #[trigger] balances2[a] == holdings(tokens2, owners2, a).len() by {
        if a != owner {
            assert(holdings(tokens2, owners2, a) =~= holdings(tokens, owners, a));
        }
    }
    assert forall|u: Uint256| #[trigger] tokens2.contains(u) <==> !owners2[u].is_zero() by {}
    assert(held.count(owner) >= 1);
    assert(held.remove(owner).len() == held.len() - 1);
}

/// The base of token URIs: empty.
pub fn _base_uri() -> (r: String)
    ensures
        r@ == Seq::<char>::empty(),
{
    String::new()
}

/// Sets the account approved for `token_id` to `to` (the zero identifier
/// clears it). Whether the caller may do so is for the caller to decide.
pub fn _approve(reg: &mut Registry, to: Account, token_id: Uint256)
    requires
        old(reg).wf(),
    ensures
        final(reg).wf(),
        final(reg).approvals() == old(reg).approvals().insert(token_id, to),
        final(reg).owners() == old(reg).owners(),
        final(reg).operators() == old(reg).operators(),
        final(reg).balances() == old(reg).balances(),
{
    let ghost pre = *reg;
    let key = token_approval_key(token_id);
    set_key(&mut reg.accounts, key.as_str(), to);
    proof {
        lemma_write_approval(pre.accounts, reg.accounts, token_id, to);
        assert(reg.owners() =~= pre.owners());
        assert(reg.approvals() =~= pre.approvals().insert(token_id, to));
        assert(reg.operators() =~= pre.operators());
        assert(reg.balances() =~= pre.balances());
    }
}

/// Sets whether `operator` may manage all tokens of `owner`.
pub fn _set_approval_for_all(reg: &mut Registry, owner: Account, operator: Account, approve: bool)
    requires
        old(reg).wf(),
    ensures
        final(reg).wf(),
        final(reg).operators() == old(reg).operators().insert((owner, operator), approve),
        final(reg).owners() == old(reg).owners(),
        final(reg).approvals() == old(reg).approvals(),
        final(reg).balances() == old(reg).balances(),
{
    let ghost pre = *reg;
    let key = operator_approvals_key(owner, operator);
    set_key(&mut reg.flags, key.as_str(), approve);
    proof {
        lemma_write_flag(pre.flags, reg.flags, owner, operator, approve);
        assert(reg.owners() =~= pre.owners());
        assert(reg.approvals() =~= pre.approvals());
        assert(reg.operators() =~= pre.operators().insert((owner, operator), approve));
        assert(reg.balances() =~= pre.balances());
    }
}

/// Whether `operator` may manage all tokens of `owner`.
pub fn _is_approved_for_all(reg: &Registry, owner: Account, operator: Account) -> (r: bool)
    requires
        reg.wf(),
    ensures
        r == reg.operators()[(owner, operator)],
{
    let key = operator_approvals_key(owner, operator);
    get_key(&reg.flags, key.as_str())
}

/// The owner of `token_id`; the zero identifier where it does not exist.
pub fn owner_of(reg: &Registry, token_id: Uint256) -> (r: Account)
    requires
        reg.wf(),
    ensures
        r == reg.owners()[token_id],
{
    let key = owner_key(token_id);
    get_key(&reg.accounts, key.as_str())
}

/// The account approved for `token_id`; the zero identifier where none is.
pub fn get_approved(reg: &Registry, token_id: Uint256) -> (r: Account)
    requires
        reg.wf(),
    ensures
        r == reg.approvals()[token_id],
{
    let key = token_approval_key(token_id);
    get_key(&reg.accounts, key.as_str())
}

/// The number of tokens that `account` holds.
pub fn balance_of(reg: &Registry, account: Account) -> (r: Uint256)
    requires
        reg.wf(),
    ensures
        r.value() == reg.balances()[account],
{
    let key = balance_key(&account);
    get_key(&reg.amounts, key.as_str())
}

/// Whether `token_id` exists, that is has a non-zero owner.
pub fn _exists(reg: &Registry, token_id: Uint256) -> (r: bool)
    requires
        reg.wf(),
    ensures
        r == !reg.owners()[token_id].is_zero(),
        r == reg.existing().contains(token_id),
{
    let owner = owner_of(reg, token_id);
    !owner.check_zero()
}

/// Whether `spender` may manage `token_id`: it is the owner, an operator of
/// the owner, or the account approved for the token.
pub fn _is_approved_or_owner(reg: &Registry, spender: Account, token_id: Uint256) -> (r: bool)
    requires
        reg.wf(),
    ensures
        r == (reg.owners()[token_id] == spender
            || reg.operators()[(reg.owners()[token_id], spender)]
            || reg.approvals()[token_id] == spender),
{
    let owner = owner_of(reg, token_id);
    let is_approved_for_all = _is_approved_for_all(reg, owner, spender);
    let approved_account = get_approved(reg, token_id);
    owner == spender || is_approved_for_all || approved_account == spender
}


/// The point at which extensions act before a token changes hands; it does
/// nothing.
pub fn _before_token_transfer(from: Account, to: Account, token_id: Uint256) {
}

/// Whether `to` accepts `token_id` sent by `from` with `data`; every
/// receiver accepts.
pub fn _check_on_erc721_received(from: Account, to: Account, token_id: Uint256, data: &[u8]) -> (r: bool)
    ensures
        r,
{
    true
}

/// Moves `token_id` from `from` to `to`, where `from` owns it and `to` is
/// not the zero identifier; otherwise does nothing. Whether the caller may
/// move it is not checked here.
pub fn _transfer(reg: &mut Registry, from: Account, to: Account, token_id: Uint256)
    requires
        old(reg).wf(),
        transfer_goes_ahead(*old(reg), from, to, token_id) ==> !from.is_zero(),
        transfer_goes_ahead(*old(reg), from, to, token_id) && to != from ==> old(reg).balances()[to] + 1
            < uint_bound(),
    ensures
        transferred(*old(reg), *final(reg), from, to, token_id),
{
    let ghost pre = *reg;
    let owner = owner_of(reg, token_id);
    if !(owner == from) {
        return;
    }
    let zero_addr = Account::zero();
    if to == zero_addr {
        return;
    }
    proof {
        if to.is_zero() {
            lemma_zero_unique(to, zero_addr);
        }
    }
    _before_token_transfer(from, to, token_id);
    _approve(reg, zero_addr, token_id);
    let ghost mid = *reg;
    proof {
        lemma_owner_has_balance(pre.tokens@, pre.held@, pre.owners(), pre.balances(), token_id);
    }
    let from_key = balance_key(&from);
    let amount = get_key(&reg.amounts, from_key.as_str());
    let less = checked_sub(amount, Uint256::one()).unwrap();
    set_key(&mut reg.amounts, from_key.as_str(), less);
    let ghost after_from = reg.amounts;
    let to_key = balance_key(&to);
    let amount = get_key(&reg.amounts, to_key.as_str());
    proof {
        lemma_write_balance(mid.amounts, after_from, from, less);
    }
    let more = checked_add(amount, Uint256::one()).unwrap();
    set_key(&mut reg.amounts, to_key.as_str(), more);
    let ghost after_to = reg.amounts;
    let okey = owner_key(token_id);
    set_key(&mut reg.accounts, okey.as_str(), to);
    reg.tokens = Ghost(pre.tokens@);
    reg.held = Ghost(pre.held@.remove(from).insert(to));
    proof {
        lemma_write_balance(after_from, after_to, to, more);
        lemma_write_owner(mid.accounts, reg.accounts, token_id, to);
        assert(reg.owners() =~= pre.owners().insert(token_id, to));
        assert(reg.approvals() =~= mid.approvals());
        assert(reg.operators() =~= mid.operators());
        assert(reg.balances() =~= moved(pre.balances(), from, to));
        if from == to {
            assert(pre.owners().insert(token_id, to) =~= pre.owners());
            assert(moved(pre.balances(), from, to) =~= pre.balances());
            assert(pre.held@.remove(from).insert(to) =~= pre.held@);
        } else {
            lemma_ledger_move(pre.tokens@, pre.held@, pre.owners(), pre.balances(), token_id, from, to);
        }
    }
}

/// Transfers as `_transfer` does, then asks the receiver whether it
/// accepts the token.
pub fn _safe_transfer(reg: &mut Registry, from: Account, to: Account, token_id: Uint256, data: &[u8])
    requires
        old(reg).wf(),
        transfer_goes_ahead(*old(reg), from, to, token_id) ==> !from.is_zero(),
        transfer_goes_ahead(*old(reg), from, to, token_id) && to != from ==> old(reg).balances()[to] + 1
            < uint_bound(),
    ensures
        transferred(*old(reg), *final(reg), from, to, token_id),
{
    _transfer(reg, from, to, token_id);
    let _accepted = _check_on_erc721_received(from, to, token_id, data);
}

/// Gives the new token `token_id` to `to`, where `to` is not the zero
/// identifier and the token does not exist yet; otherwise does nothing.
pub fn _mint(reg: &mut Registry, to: Account, token_id: Uint256)
    requires
        old(reg).wf(),
        mint_goes_ahead(*old(reg), to, token_id) ==> old(reg).balances()[to] + 1 < uint_bound(),
    ensures
        minted(*old(reg), *final(reg), to, token_id),
{
    let ghost pre = *reg;
    let zero_addr = Account::zero();
    if to == zero_addr {
        return;
    }
    proof {
        if to.is_zero() {
            lemma_zero_unique(to, zero_addr);
        }
    }
    if _exists(reg, token_id) {
        return;
    }
    _before_token_transfer(zero_addr, to, token_id);
    let to_key = balance_key(&to);
    let amount = get_key(&reg.amounts, to_key.as_str());
    let more = checked_add(amount, Uint256::one()).unwrap();
    set_key(&mut reg.amounts, to_key.as_str(), more);
    let okey = owner_key(token_id);
    set_key(&mut reg.accounts, okey.as_str(), to);
    reg.tokens = Ghost(pre.tokens@.insert(token_id));
    reg.held = Ghost(pre.held@.insert(to));
    proof {
        lemma_write_balance(pre.amounts, reg.amounts, to, more);
        lemma_write_owner(pre.accounts, reg.accounts, token_id, to);
        assert(reg.owners() =~= pre.owners().insert(token_id, to));
        assert(reg.approvals() =~= pre.approvals());
        assert(reg.operators() =~= pre.operators());
        assert(reg.balances() =~= pre.balances().insert(to, pre.balances()[to] + 1));
        lemma_ledger_mint(pre.tokens@, pre.held@, pre.owners(), pre.balances(), token_id, to);
    }
}

/// Mints as `_mint` does; where `data` is given, then asks the receiver
/// whether it accepts the token.
pub fn _safe_mint(reg: &mut Registry, to: Account, token_id: Uint256, data: Option<Vec<u8>>)
    requires
        old(reg).wf(),
        mint_goes_ahead(*old(reg), to, token_id) ==> old(reg).balances()[to] + 1 < uint_bound(),
    ensures
        minted(*old(reg), *final(reg), to, token_id),
{
    _mint(reg, to, token_id);
    match data {
        Some(val) => {
            let zero_addr = Account::zero();
            let _accepted = _check_on_erc721_received(zero_addr, to, token_id, val.as_slice());
        },
        None => {},
    }
}

/// Destroys `token_id`: clears its approval, takes one from the balance of
/// `owner`, and sets its owner to `zero_addr`. The caller names the current
/// owner and the zero identifier; both are required here, not looked up.
pub fn _burn(reg: &mut Registry, token_id: Uint256, owner: Account, zero_addr: Account)
    requires
        old(reg).wf(),
        old(reg).owners()[token_id] == owner,
        !owner.is_zero(),
        zero_addr.is_zero(),
    ensures
        burned(*old(reg), *final(reg), token_id, owner, zero_addr),
{
    let ghost pre = *reg;
    _before_token_transfer(owner, zero_addr, token_id);
    _approve(reg, zero_addr, token_id);
    let ghost mid = *reg;
    proof {
        lemma_ledger_burn(pre.tokens@, pre.held@, pre.owners(), pre.balances(), token_id, owner, zero_addr);
    }
    let key = balance_key(&owner);
    let amount = get_key(&reg.amounts, key.as_str());
    let less = checked_sub(amount, Uint256::one()).unwrap();
    set_key(&mut reg.amounts, key.as_str(), less);
    let okey = owner_key(token_id);
    set_key(&mut reg.accounts, okey.as_str(), zero_addr);
    reg.tokens = Ghost(pre.tokens@.remove(token_id));
    reg.held = Ghost(pre.held@.remove(owner));
    proof {
        lemma_write_balance(mid.amounts, reg.amounts, owner, less);
        lemma_write_owner(mid.accounts, reg.accounts, token_id, zero_addr);
        assert(reg.owners() =~= pre.owners().insert(token_id, zero_addr));
        assert(reg.approvals() =~= mid.approvals());
        assert(reg.operators() =~= mid.operators());
        assert(reg.balances() =~= pre.balances().insert(owner, (pre.balances()[owner] - 1) as nat));
    }
}


/// `"0x"`, then the bytes of `base_uri` in hexadecimal, then `token_id` in
/// hexadecimal.
pub fn _encode_packed(base_uri: String, token_id: Uint256) -> (r: String)
    ensures
        r@ == "0x"@ + hex_of(encode_utf8(base_uri@)) + digits(token_id.value(), 16),
{
    let bytes = base_uri.as_str().as_bytes();
    let encoded = hex_encode(bytes);
    let token = to_lower_hex(token_id);
    let mut result = "0x".to_owned();
    result.append(encoded.as_str());
    result.append(token.as_str());
    result
}

/// In every well-formed state, and so in every state that the operations
/// reach from `Registry::new`, the balances add up to the number of tokens
/// that have a non-zero owner: the bag that holds each account as often as
/// its balance is as large as the set of existing tokens.
pub proof fn lemma_balance_invariant(reg: Registry)
    requires
        reg.wf(),
    ensures
        reg.existing().finite(),
        forall|a: Account| #[trigger] reg.balance_bag().count(a) == reg.balances()[a],
        reg.balance_bag().len() == reg.existing().len(),
        reg.balances()[zero_account()] == 0,
{
    assert(reg.existing() =~= reg.tokens@);
    lemma_zero_account();
    assert(holdings(reg.tokens@, reg.owners(), zero_account()) =~= Set::empty());
}

/// Minting one token twice, the first time to a non-zero account: the
/// second call changes nothing, and the owner is the one that the first
/// call left.
pub proof fn lemma_mint_twice(r0: Registry, r1: Registry, r2: Registry, a: Account, b: Account, t: Uint256)
    requires
        r0.wf(),
        !a.is_zero(),
        minted(r0, r1, a, t),
        minted(r1, r2, b, t),
    ensures
        r2 == r1,
        r2.owners()[t] == if r0.owners()[t].is_zero() { a } else { r0.owners()[t] },
{
}

/// A transfer checks only that `from` owns the token: with any other
/// `from` it changes nothing, whatever approvals stand; with the owner as
/// `from` and a non-zero `to` it goes ahead, whatever approvals stand.
pub proof fn lemma_transfer_checks_owner_only(r0: Registry, r1: Registry, from: Account, to: Account, t: Uint256)
    requires
        r0.wf(),
        transferred(r0, r1, from, to, t),
    ensures
        r0.owners()[t] != from ==> r1 == r0,
        r0.owners()[t] == from && !to.is_zero() ==> r1.owners()[t] == to,
{
}

/// After a transfer that went ahead the token has no approved account.
pub proof fn lemma_transfer_clears_approval(r0: Registry, r1: Registry, from: Account, to: Account, t: Uint256)
    requires
        r0.wf(),
        transferred(r0, r1, from, to, t),
        transfer_goes_ahead(r0, from, to, t),
    ensures
        r1.approvals()[t] == zero_account(),
        r1.approvals()[t].is_zero(),
{
    lemma_zero_account();
}

/// A transfer to the zero identifier and a mint to the zero identifier
/// leave every mapping as it was.
pub proof fn lemma_zero_target_changes_nothing(
    r0: Registry,
    r1: Registry,
    r2: Registry,
    from: Account,
    zero: Account,
    t: Uint256,
)
    requires
        r0.wf(),
        zero.is_zero(),
        transferred(r0, r1, from, zero, t),
        minted(r0, r2, zero, t),
    ensures
        r1 == r0,
        r2 == r0,
{
}

/// Burning a token of `owner` leaves it without an owner and takes exactly
/// one from the balance of `owner`; afterwards `owner` no longer owns it, so
/// a second burn with the same, stale, owner is not allowed.
pub proof fn lemma_burn_correct(r0: Registry, r1: Registry, t: Uint256, owner: Account, zero: Account)
    requires
        r0.wf(),
        r0.owners()[t] == owner,
        !owner.is_zero(),
        zero.is_zero(),
        burned(r0, r1, t, owner, zero),
    ensures
        r1.owners()[t].is_zero(),
        !r1.existing().contains(t),
        r0.balances()[owner] >= 1,
        r1.balances()[owner] == r0.balances()[owner] - 1,
        r1.owners()[t] != owner,
{
    lemma_owner_has_balance(r0.tokens@, r0.held@, r0.owners(), r0.balances(), t);
    assert(r1.owners()[t] == r1.owner_of(t));
}


/// A mint, whether it goes ahead or not, keeps the balances adding up to
/// the number of existing tokens; where it goes ahead both grow by one.
pub proof fn lemma_mint_keeps_balance_sum(r0: Registry, r1: Registry, to: Account, t: Uint256)
    requires
        r0.wf(),
        minted(r0, r1, to, t),
    ensures
        r1.existing().finite(),
        forall|a: Account| #[trigger] r1.balance_bag().count(a) == r1.balances()[a],
        r1.balance_bag().len() == r1.existing().len(),
        r1.balances()[zero_account()] == 0,
        r1.existing().len() == r0.existing().len() + if mint_goes_ahead(r0, to, t) { 1int } else { 0int },
{
    lemma_balance_invariant(r0);
    lemma_balance_invariant(r1);
    if mint_goes_ahead(r0, to, t) {
        assert(r1.existing() =~= r0.existing().insert(t)) by {
            assert forall|u: Uint256| r1.existing().contains(u) == r0.existing().insert(t).contains(u) by {
                assert(r1.owners()[u] == r1.owner_of(u));
                assert(r0.owners()[u] == r0.owner_of(u));
            }
        }
        assert(!r0.existing().contains(t)) by {
            assert(r0.owners()[t] == r0.owner_of(t));
        }
    }
}

/// A transfer allowed by `_transfer`'s precondition, whether it goes ahead
/// or not, keeps the balances adding up to the number of existing tokens,
/// which it does not change.
pub proof fn lemma_transfer_keeps_balance_sum(r0: Registry, r1: Registry, from: Account, to: Account, t: Uint256)
    requires
        r0.wf(),
        transfer_goes_ahead(r0, from, to, t) ==> !from.is_zero(),
        transferred(r0, r1, from, to, t),
    ensures
        r1.existing().finite(),
        forall|a: Account| #[trigger] r1.balance_bag().count(a) == r1.balances()[a],
        r1.balance_bag().len() == r1.existing().len(),
        r1.balances()[zero_account()] == 0,
        r1.existing() == r0.existing(),
{
    lemma_balance_invariant(r0);
    lemma_balance_invariant(r1);
    if transfer_goes_ahead(r0, from, to, t) {
        assert(r1.existing() =~= r0.existing()) by {
            assert forall|u: Uint256| r1.existing().contains(u) == r0.existing().contains(u) by {
                assert(r1.owners()[u] == r1.owner_of(u));
                assert(r0.owners()[u] == r0.owner_of(u));
            }
        }
    }
}

/// Approvals play no part in a transfer: on two registries with the same
/// owners and balances, the same transfer goes ahead on both or on neither,
/// and leaves the same owners and balances.
pub proof fn lemma_transfer_ignores_approvals(
    r0: Registry,
    r1: Registry,
    s0: Registry,
    s1: Registry,
    from: Account,
    to: Account,
    t: Uint256,
)
    requires
        r0.wf(),
        s0.wf(),
        r0.owners() == s0.owners(),
        r0.balances() == s0.balances(),
        transferred(r0, r1, from, to, t),
        transferred(s0, s1, from, to, t),
    ensures
        transfer_goes_ahead(r0, from, to, t) == transfer_goes_ahead(s0, from, to, t),
        r1.owners() == s1.owners(),
        r1.balances() == s1.balances(),
{
}

} // verus!
