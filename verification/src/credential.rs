//! Per-member identity record: opaque to the engine, interpreted only here.

use vstd::prelude::*;

verus! {

/// One entry of the per-member channel table: an index into the policy's
/// role list.
#[derive(Copy, Clone, PartialEq, Eq, Structural, Debug)]
pub struct UserRole(pub u8);

/// Ordered table of role indices per channel; entry 0 is the default,
/// all-channels role. Every value must be a valid role index in the current
/// policy, checked lazily at authorization time, not at decode time.
#[derive(Clone, PartialEq, Eq, Debug)]
pub struct ArrayMap {
    pub arr: Vec<UserRole>,
}

impl View for ArrayMap {
    type V = Seq<u8>;

    open spec fn view(&self) -> Seq<u8> {
        self.arr@.map_values(|r: UserRole| r.0)
    }
}

impl ArrayMap {
    /// The entry at `i`, if the table is that long.
    pub fn get(&self, i: usize) -> (r: Option<&UserRole>)
        ensures
            i < self@.len() ==> r == Some(&self.arr[i as int]),
            i >= self@.len() ==> r is None,
    {
        if i < self.arr.len() {
            Some(&self.arr[i])
        } else {
            None
        }
    }

    /// A table of `n` entries, all holding the first role index.
    pub fn filled(n: usize) -> (r: Self)
        ensures
            r@ == Seq::<u8>::new(n as nat, |i: int| 0u8),
    {
        let mut arr: Vec<UserRole> = Vec::new();
        let mut k: usize = 0;
        while k < n
            invariant
                k <= n,
                arr@.len() == k,
                forall|i: int| 0 <= i < k ==> arr@[i] == UserRole(0),
            decreases n - k,
        {
            arr.push(UserRole(0));
            k = k + 1;
        }
        proof {
            let ms = arr@.map_values(|r: UserRole| r.0);
            assert forall|i: int| 0 <= i < n implies #[trigger] ms[i] == 0u8 by {
                assert(arr@[i] == UserRole(0));
            }
            assert(ms =~= Seq::<u8>::new(n as nat, |i: int| 0u8));
        }
        ArrayMap { arr }
    }
}

/// A member's identity record: signature, username, long-term public key,
/// and the per-channel role table. Embedded as an opaque payload in the
/// engine's per-member identity slot.
#[derive(Clone, PartialEq, Eq, Debug)]
pub struct FireflyMemberCredential {
    pub signature: Vec<u8>,
    pub username: Vec<u8>,
    pub user_public_key: Vec<u8>,
    pub channels_and_roles: ArrayMap,
}

/// Mathematical model of a member credential.
#[verifier::ext_equal]
pub struct FireflyMemberCredentialView {
    pub signature: Seq<u8>,
    pub username: Seq<u8>,
    pub user_public_key: Seq<u8>,
    pub channels_and_roles: Seq<u8>,
}

impl View for FireflyMemberCredential {
    type V = FireflyMemberCredentialView;

    open spec fn view(&self) -> FireflyMemberCredentialView {
        FireflyMemberCredentialView {
            signature: self.signature@,
            username: self.username@,
            user_public_key: self.user_public_key@,
            channels_and_roles: self.channels_and_roles@,
        }
    }
}

} // verus!
