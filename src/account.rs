//! Account identifiers: 32-byte hashes, the all-zero one standing for "none".

use vstd::prelude::*;
use crate::digits::hex_of;
use vstd::array::spec_array_fill_for_copy_type;

verus! {

/// The 32-byte hash that identifies an account.
#[derive(Clone, Copy, Debug)]
pub struct Account {
    pub bytes: [u8; 32],
}

/// The zero identifier, which stands for "no account".
pub open spec fn zero_account() -> Account {
    Account { bytes: spec_array_fill_for_copy_type::<u8, 32>(0u8) }
}

/// The zero identifier is zero.
pub proof fn lemma_zero_account()
    ensures
        zero_account().is_zero(),
{
    assert forall|i: int| 0 <= i < 32 implies zero_account().bytes[i] == 0 by {
        assert(zero_account().bytes@[i] == 0);
    }
}

impl Account {
    /// The account with these bytes.
    pub fn new(bytes: [u8; 32]) -> (r: Account)
        ensures
            r.bytes == bytes,
    {
        Account { bytes }
    }

    /// Whether this is the zero identifier, which stands for "no account".
    pub open spec fn is_zero(self) -> bool {
        forall|i: int| 0 <= i < 32 ==> self.bytes[i] == 0
    }

    /// The zero identifier.
    pub fn zero() -> (r: Account)
        ensures
            r.is_zero(),
            r == zero_account(),
    {
        let r = Account { bytes: [0u8; 32] };
        assert(r.is_zero());
        proof {
            lemma_zero_unique(r, zero_account());
        }
        r
    }

    /// Whether this is the zero identifier.
    pub fn check_zero(&self) -> (r: bool)
        ensures
            r == self.is_zero(),
            r == (*self == zero_account()),
    {
        let mut i: usize = 0;
        while i < 32
            invariant
                i <= 32,
                forall|j: int| 0 <= j < i ==> self.bytes[j] == 0,
            decreases 32 - i,
        {
            if self.bytes[i] != 0 {
                let z = Account::zero();
                assert(z.bytes[i as int] != self.bytes[i as int]);
                return false;
            }
            i = i + 1;
        }
        proof {
            lemma_zero_unique(*self, zero_account());
        }
        true
    }
}

/// There is one zero identifier.
pub proof fn lemma_zero_unique(a: Account, b: Account)
    requires
        a.is_zero(),
        b.is_zero(),
    ensures
        a == b,
{
    assert(a.bytes =~= b.bytes);
}

impl PartialEq for Account {
    fn eq(&self, o: &Account) -> (r: bool) {
        let mut i: usize = 0;
        while i < 32
            invariant
                i <= 32,
                forall|j: int| 0 <= j < i ==> self.bytes[j] == o.bytes[j],
            decreases 32 - i,
        {
            if self.bytes[i] != o.bytes[i] {
                return false;
            }
            i = i + 1;
        }
        assert(self.bytes =~= o.bytes);
        true
    }
}

impl vstd::std_specs::cmp::PartialEqSpecImpl for Account {
    open spec fn obeys_eq_spec() -> bool {
        true
    }

    open spec fn eq_spec(&self, o: &Account) -> bool {
        *self == *o
    }
}

impl Eq for Account {
}

/// Relies on the `Display` of `casper_types::account::AccountHash`: the 32
/// bytes in lower-case hexadecimal.
#[verifier::external_body]
pub(crate) fn account_hex(a: &Account) -> (r: String)
    ensures
        r@ == hex_of(a.bytes@),
{
    casper_types::account::AccountHash::new(a.bytes).to_string()
}

/// Relies on `hex::encode`: each byte as two lower-case hexadecimal digits.
#[verifier::external_body]
pub(crate) fn hex_encode(b: &[u8]) -> (r: String)
    ensures
        r@ == hex_of(b@),
{
    hex::encode(b)
}

} // verus!
