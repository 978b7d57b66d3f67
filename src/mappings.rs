//! The keyed storage adapter: typed values under string names in a store of
//! slots, and the names under which the registry keeps its mappings.

use vstd::prelude::*;
use crate::account::{Account, account_hex, zero_account};
use crate::digits::{digits, hex_of, lemma_digits_injective, lemma_hex_injective, lemma_hex_len};
use crate::uint::{Uint256, to_decimal};

verus! {

/// A value that can be kept in a slot, with the value that a name reads as
/// before anything was written under it.
pub trait StoredValue: Sized + Copy {
    spec fn unset() -> Self;

    fn default_value() -> (r: Self)
        ensures
            r == Self::unset(),
    ;
}

impl StoredValue for bool {
    open spec fn unset() -> bool {
        false
    }

    fn default_value() -> (r: bool) {
        false
    }
}

impl StoredValue for Account {
    open spec fn unset() -> Account {
        zero_account()
    }

    fn default_value() -> (r: Account) {
        Account::zero()
    }
}

impl StoredValue for Uint256 {
    open spec fn unset() -> Uint256 {
        Uint256 { l0: 0, l1: 0, l2: 0, l3: 0 }
    }

    fn default_value() -> (r: Uint256) {
        Uint256 { l0: 0, l1: 0, l2: 0, l3: 0 }
    }
}

/// A store of slots, each reached through a reference (its index), and a
/// binding of names to references.
pub struct Store<V> {
    names: Vec<String>,
    refs: Vec<usize>,
    slots: Vec<V>,
}

impl<V: StoredValue> Store<V> {
    /// Names are bound at most once, to distinct slots that exist.
    pub closed spec fn wf(&self) -> bool {
        &&& self.names@.len() == self.refs@.len()
        &&& forall|i: int| 0 <= i < self.refs@.len() ==> self.refs@[i] < self.slots@.len()
        &&& forall|i: int, j: int|
            0 <= i < self.names@.len() && 0 <= j < self.names@.len() && i != j
                ==> #[trigger] self.names@[i]@ != #[trigger] self.names@[j]@
        &&& forall|i: int, j: int|
            0 <= i < self.refs@.len() && 0 <= j < self.refs@.len() && i != j
                ==> #[trigger] self.refs@[i] != #[trigger] self.refs@[j]
    }

    /// Whether `k` is bound.
    pub closed spec fn is_bound(&self, k: Seq<char>) -> bool {
        exists|i: int| 0 <= i < self.names@.len() && #[trigger] self.names@[i]@ == k
    }

    /// The position of `k` among the bindings, where it is bound.
    pub closed spec fn position(&self, k: Seq<char>) -> int {
        choose|i: int| 0 <= i < self.names@.len() && #[trigger] self.names@[i]@ == k
    }

    /// The reference that `k` is bound to, where it is bound.
    pub closed spec fn ref_of(&self, k: Seq<char>) -> usize {
        self.refs@[self.position(k)]
    }

    /// What `get_key` returns for `k`: the value of its slot, or the unset
    /// value where `k` was never written.
    pub closed spec fn value_of(&self, k: Seq<char>) -> V {
        if self.is_bound(k) {
            self.slots@[self.ref_of(k) as int]
        } else {
            V::unset()
        }
    }

    /// The number of slots allocated.
    pub closed spec fn slot_count(&self) -> nat {
        self.slots@.len()
    }

    /// `post` is `pre` with `v` stored under `k`: `k` now reads as `v`,
    /// every other name as before; every bound name keeps its slot, so a
    /// bound `k` is written in place, and only an unbound `k` gets a slot,
    /// newly allocated.
    pub open spec fn stores(pre: Self, post: Self, k: Seq<char>, v: V) -> bool {
        &&& post.wf()
        &&& post.value_of(k) == v
        &&& forall|k2: Seq<char>| k2 != k ==> #[trigger] post.value_of(k2) == pre.value_of(k2)
        &&& forall|k2: Seq<char>| #[trigger] post.is_bound(k2) <==> (pre.is_bound(k2) || k2 == k)
        &&& post.slot_count() == pre.slot_count() + if pre.is_bound(k) { 0int } else { 1int }
        &&& forall|k2: Seq<char>| pre.is_bound(k2) ==> #[trigger] post.ref_of(k2) == pre.ref_of(k2)
        &&& !pre.is_bound(k) ==> post.ref_of(k) == pre.slot_count()
    }

    /// A store with no slots.
    pub fn new() -> (r: Store<V>)
        ensures
            r.wf(),
            r.slot_count() == 0,
            forall|k: Seq<char>| !r.is_bound(k),
            forall|k: Seq<char>| #[trigger] r.value_of(k) == V::unset(),
    {
        Store { names: Vec::new(), refs: Vec::new(), slots: Vec::new() }
    }

    /// The number of slots allocated.
    pub fn slots_allocated(&self) -> (r: usize)
        ensures
            r == self.slot_count(),
    {
        self.slots.len()
    }

    /// The reference bound to `name`, if any.
    fn lookup_binding(&self, name: &str) -> (r: Option<usize>)
        requires
            self.wf(),
        ensures
            r.is_some() <==> self.is_bound(name@),
            r.is_some() ==> r.unwrap() == self.ref_of(name@),
    {
        let key = name.to_owned();
        let mut i: usize = 0;
        while i < self.names.len()
            invariant
                self.wf(),
                key@ == name@,
                i <= self.names@.len(),
                forall|j: int| 0 <= j < i ==> self.names@[j]@ != name@,
            decreases self.names@.len() - i,
        {
            if self.names[i] == key {
                assert(self.position(name@) == i as int);
                return Some(self.refs[i]);
            }
            i = i + 1;
        }
        None
    }

    /// The value in slot `r`.
    fn read(&self, r: usize) -> (v: V)
        requires
            r < self.slot_count(),
        ensures
            v == self.slots@[r as int],
    {
        self.slots[r]
    }

    /// Writes `v` into slot `r`; the bindings stay.
    fn write(&mut self, r: usize, v: V)
        requires
            r < old(self).slot_count(),
        ensures
            final(self).names@ == old(self).names@,
            final(self).refs@ == old(self).refs@,
            final(self).slots@ == old(self).slots@.update(r as int, v),
    {
        self.slots.set(r, v);
    }

    /// Allocates a new slot holding `v` and binds `name` to it.
    fn allocate_and_bind(&mut self, name: &str, v: V)
        requires
            old(self).wf(),
            !old(self).is_bound(name@),
        ensures
            final(self).names@.len() == old(self).names@.len() + 1,
            final(self).names@.drop_last() == old(self).names@,
            final(self).names@.last()@ == name@,
            final(self).refs@.len() == old(self).refs@.len() + 1,
            final(self).refs@.drop_last() == old(self).refs@,
            final(self).refs@.last() == old(self).slots@.len(),
            final(self).slots@ == old(self).slots@.push(v),
    {
        let r = self.slots.len();
        self.slots.push(v);
        self.names.push(name.to_owned());
        self.refs.push(r);
        assert(self.names@.drop_last() =~= old(self).names@);
        assert(self.refs@.drop_last() =~= old(self).refs@);
    }
}

/// The value stored under `name`, or the unset value where nothing was
/// written under it.
pub fn get_key<V: StoredValue>(store: &Store<V>, name: &str) -> (r: V)
    requires
        store.wf(),
    ensures
        r == store.value_of(name@),
{
    match store.lookup_binding(name) {
        None => V::default_value(),
        Some(slot) => store.read(slot),
    }
}

/// A name never written reads as the unset value; after a write it reads as
/// the value written; a second write replaces it and allocates no second
/// slot.
pub proof fn lemma_round_trip<V: StoredValue>(
    s0: Store<V>,
    s1: Store<V>,
    s2: Store<V>,
    k: Seq<char>,
    v1: V,
    v2: V,
)
    requires
        s0.wf(),
        !s0.is_bound(k),
        Store::stores(s0, s1, k, v1),
        Store::stores(s1, s2, k, v2),
    ensures
        s0.value_of(k) == V::unset(),
        s1.value_of(k) == v1,
        s2.value_of(k) == v2,
        s1.slot_count() == s0.slot_count() + 1,
        s2.slot_count() == s1.slot_count(),
        s1.ref_of(k) == s0.slot_count(),
        s2.ref_of(k) == s1.ref_of(k),
{
    assert(s1.is_bound(k));
}

/// Writing a name with the value it already holds changes nothing that can
/// be observed: every name reads, is bound, and is bound to its slot as
/// before, and no slot is allocated.
pub proof fn lemma_rewrite_same<V: StoredValue>(s0: Store<V>, s1: Store<V>, s2: Store<V>, k: Seq<char>, v: V)
    requires
        s0.wf(),
        Store::stores(s0, s1, k, v),
        Store::stores(s1, s2, k, v),
    ensures
        forall|k2: Seq<char>| #[trigger] s2.value_of(k2) == s1.value_of(k2),
        forall|k2: Seq<char>| #[trigger] s2.is_bound(k2) == s1.is_bound(k2),
        forall|k2: Seq<char>| s1.is_bound(k2) ==> #[trigger] s2.ref_of(k2) == s1.ref_of(k2),
        s2.slot_count() == s1.slot_count(),
{
    assert(s1.is_bound(k));
}

/// Stores `value` under `name`: writes through the slot that `name` is bound
/// to, or allocates a slot and binds `name` to it where there is none.
pub fn set_key<V: StoredValue>(store: &mut Store<V>, name: &str, value: V)
    requires
        old(store).wf(),
    ensures
        Store::stores(*old(store), *final(store), name@, value),
{
    let ghost pre = *store;
    match store.lookup_binding(name) {
        Some(slot) => {
            store.write(slot, value);
            assert(store.wf());
            assert(store.is_bound(name@));
            assert(store.position(name@) == pre.position(name@));
            assert forall|k: Seq<char>| k != name@ implies #[trigger] store.value_of(k) == pre.value_of(k) by {
                if pre.is_bound(k) {
                    assert(store.is_bound(k));
                    let i = pre.position(k);
                    let j = pre.position(name@);
                    assert(i != j);
                }
            }
            assert(store.is_bound(name@));
            assert forall|k: Seq<char>| pre.is_bound(k) implies #[trigger] store.ref_of(k) == pre.ref_of(k) by {
                assert(store.names@ == pre.names@);
            }
        },
        None => {
            store.allocate_and_bind(name, value);
            let ghost n = pre.names@.len() as int;
            assert(store.names@[n]@ == name@);
            assert forall|i: int| 0 <= i < n implies store.names@[i] == pre.names@[i] && store.names@[i]@ != name@ by {
                assert(store.names@[i] == store.names@.drop_last()[i]);
            }
            assert(store.refs@[n] == pre.slots@.len());
            assert forall|i: int| 0 <= i < n implies store.refs@[i] == pre.refs@[i] && store.refs@[i] != store.refs@[n] by {
                assert(store.refs@[i] == store.refs@.drop_last()[i]);
                assert(pre.refs@[i] < pre.slots@.len());
            }
            assert forall|k: Seq<char>| #[trigger] store.is_bound(k) <==> (pre.is_bound(k) || k == name@) by {
                if store.is_bound(k) && k != name@ {
                    let i = store.position(k);
                    assert(i != n);
                    assert(store.names@[i] == pre.names@[i]);
                }
                if pre.is_bound(k) {
                    let i = pre.position(k);
                    assert(store.names@[i] == pre.names@[i]);
                }
            }
            assert forall|i: int| 0 <= i < store.refs@.len() implies store.refs@[i] < store.slots@.len() by {
                if i < n {
                    assert(pre.refs@[i] < pre.slots@.len());
                }
            }
            assert forall|i: int, j: int|
                0 <= i < store.names@.len() && 0 <= j < store.names@.len() && i != j
                implies #[trigger] store.names@[i]@ != #[trigger] store.names@[j]@ by {
                if i < n {
                    assert(store.names@[i] == store.names@.drop_last()[i]);
                }
                if j < n {
                    assert(store.names@[j] == store.names@.drop_last()[j]);
                }
                if i < n && j < n {
                    assert(pre.names@[i]@ != pre.names@[j]@);
                }
            }
            assert forall|i: int, j: int|
                0 <= i < store.refs@.len() && 0 <= j < store.refs@.len() && i != j
                implies #[trigger] store.refs@[i] != #[trigger] store.refs@[j] by {
                if i < n {
                    assert(store.refs@[i] == store.refs@.drop_last()[i]);
                    assert(pre.refs@[i] < pre.slots@.len());
                }
                if j < n {
                    assert(store.refs@[j] == store.refs@.drop_last()[j]);
                    assert(pre.refs@[j] < pre.slots@.len());
                }
                if i < n && j < n {
                    assert(pre.refs@[i] != pre.refs@[j]);
                }
            }
            assert(store.wf());
            assert(store.position(name@) == n);
            assert forall|k: Seq<char>| k != name@ implies #[trigger] store.value_of(k) == pre.value_of(k) by {
                if pre.is_bound(k) {
                    let i = pre.position(k);
                    assert(store.names@[i] == pre.names@[i]);
                    assert(store.position(k) == i);
                }
            }
            assert forall|k: Seq<char>| pre.is_bound(k) implies #[trigger] store.ref_of(k) == pre.ref_of(k) by {
                let i = pre.position(k);
                assert(store.names@[i] == pre.names@[i]);
                assert(store.position(k) == i);
                assert(store.refs@[i] == store.refs@.drop_last()[i]);
            }
        },
    }
}

/// The name of the balance of account `a`.
pub open spec fn balance_name(a: Account) -> Seq<char> {
    "_balance_"@ + hex_of(a.bytes@)
}

/// The name of the owner of token `t`.
pub open spec fn owner_name(t: Uint256) -> Seq<char> {
    "_owner_"@ + digits(t.value(), 10)
}

/// The name of the account approved for token `t`.
pub open spec fn token_approval_name(t: Uint256) -> Seq<char> {
    "_token_approvals_"@ + digits(t.value(), 10)
}

/// The name of the flag that lets `operator` manage all tokens of `owner`.
pub open spec fn operator_approvals_name(owner: Account, operator: Account) -> Seq<char> {
    "_operator_approvals_"@ + hex_of(owner.bytes@) + "_"@ + hex_of(operator.bytes@)
}

/// Joins a prefix and a tail into one string.
fn joined(prefix: &str, tail: &str) -> (r: String)
    ensures
        r@ == prefix@ + tail@,
{
    let mut r = prefix.to_owned();
    r.append(tail);
    r
}

/// The key of the balance of `account`.
pub fn balance_key(account: &Account) -> (r: String)
    ensures
        r@ == balance_name(*account),
{
    let h = account_hex(account);
    joined("_balance_", h.as_str())
}

/// The key of the owner of `token_id`.
pub fn owner_key(token_id: Uint256) -> (r: String)
    ensures
        r@ == owner_name(token_id),
{
    let d = to_decimal(token_id);
    joined("_owner_", d.as_str())
}

/// The key of the account approved for `token_id`.
pub fn token_approval_key(token_id: Uint256) -> (r: String)
    ensures
        r@ == token_approval_name(token_id),
{
    let d = to_decimal(token_id);
    joined("_token_approvals_", d.as_str())
}

/// The key of the flag that lets `operator` manage all tokens of `owner`.
pub fn operator_approvals_key(owner: Account, operator: Account) -> (r: String)
    ensures
        r@ == operator_approvals_name(owner, operator),
{
    let a = account_hex(&owner);
    let b = account_hex(&operator);
    let head = joined("_operator_approvals_", a.as_str());
    let mid = joined(head.as_str(), "_");
    joined(mid.as_str(), b.as_str())
}

proof fn lemma_accounts_equal(a: Account, b: Account)
    requires
        hex_of(a.bytes@) == hex_of(b.bytes@),
    ensures
        a == b,
{
    lemma_hex_injective(a.bytes@, b.bytes@);
    assert forall|i: int| 0 <= i < 32 implies a.bytes[i] == b.bytes[i] by {
        assert(a.bytes@[i] == b.bytes@[i]);
    }
    assert(a.bytes =~= b.bytes);
}

/// Distinct accounts have distinct balance names.
pub proof fn lemma_balance_name_injective(a: Account, b: Account)
    requires
        balance_name(a) == balance_name(b),
    ensures
        a == b,
{
    reveal_strlit("_balance_");
    assert(balance_name(a).subrange(9, balance_name(a).len() as int) =~= hex_of(a.bytes@));
    assert(balance_name(b).subrange(9, balance_name(b).len() as int) =~= hex_of(b.bytes@));
    lemma_accounts_equal(a, b);
}

/// Tokens of distinct value have distinct owner names.
pub proof fn lemma_owner_name_injective(t: Uint256, u: Uint256)
    requires
        owner_name(t) == owner_name(u),
    ensures
        t.value() == u.value(),
{
    reveal_strlit("_owner_");
    assert(owner_name(t).subrange(7, owner_name(t).len() as int) =~= digits(t.value(), 10));
    assert(owner_name(u).subrange(7, owner_name(u).len() as int) =~= digits(u.value(), 10));
    lemma_digits_injective(t.value(), u.value(), 10);
}

/// Tokens of distinct value have distinct approval names.
pub proof fn lemma_token_approval_name_injective(t: Uint256, u: Uint256)
    requires
        token_approval_name(t) == token_approval_name(u),
    ensures
        t.value() == u.value(),
{
    reveal_strlit("_token_approvals_");
    assert(token_approval_name(t).subrange(17, token_approval_name(t).len() as int) =~= digits(t.value(), 10));
    assert(token_approval_name(u).subrange(17, token_approval_name(u).len() as int) =~= digits(u.value(), 10));
    lemma_digits_injective(t.value(), u.value(), 10);
}

/// An owner name is never an approval name.
pub proof fn lemma_owner_and_approval_names_differ(t: Uint256, u: Uint256)
    ensures
        owner_name(t) != token_approval_name(u),
{
    reveal_strlit("_owner_");
    reveal_strlit("_token_approvals_");
    assert(owner_name(t)[1] == 'o');
    assert(token_approval_name(u)[1] == 't');
}

/// Distinct pairs of accounts have distinct operator approval names.
pub proof fn lemma_operator_approvals_name_injective(o1: Account, p1: Account, o2: Account, p2: Account)
    requires
        operator_approvals_name(o1, p1) == operator_approvals_name(o2, p2),
    ensures
        o1 == o2,
        p1 == p2,
{
    reveal_strlit("_operator_approvals_");
    reveal_strlit("_");
    lemma_hex_len(o1.bytes@);
    lemma_hex_len(p1.bytes@);
    lemma_hex_len(o2.bytes@);
    lemma_hex_len(p2.bytes@);
    let n1 = operator_approvals_name(o1, p1);
    let n2 = operator_approvals_name(o2, p2);
    assert(n1.subrange(20, 84) =~= hex_of(o1.bytes@));
    assert(n2.subrange(20, 84) =~= hex_of(o2.bytes@));
    assert(n1.subrange(85, 149) =~= hex_of(p1.bytes@));
    assert(n2.subrange(85, 149) =~= hex_of(p2.bytes@));
    lemma_accounts_equal(o1, o2);
    lemma_accounts_equal(p1, p2);
}

} // verus!
