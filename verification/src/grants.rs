//! The grant operation: all-or-nothing replacement of a role's permission
//! set from a list of `"object_action"` keys, plus the fixed convenience
//! grants.  The whole key list is validated against the catalog before any
//! state is touched, so a list with an invalid key leaves the role's prior
//! grants intact.

use vstd::prelude::*;
use vstd::seq_lib::group_seq_lib_default;
use crate::catalog::{catalog_lookup, catalog_pair_of, in_catalog, is_catalog_key, lemma_catalog_keys};
use crate::error::CoreError;
use crate::store::{has_assignment_in, has_policy_in, PolicyStore, PolicyTuple};
use crate::text::key_of;

verus! {

broadcast use group_seq_lib_default;

/// Whether some key of the list reads `k`.
pub open spec fn key_in(ks: Seq<String>, k: Seq<char>) -> bool {
    exists|i: int| 0 <= i < ks.len() && (#[trigger] ks[i])@ == k
}

/// Whether every key of the list denotes a catalog descriptor.
pub open spec fn keys_valid(ks: Seq<String>) -> bool {
    forall|i: int| 0 <= i < ks.len() ==> is_catalog_key((#[trigger] ks[i])@)
}

/// The grant relation after replacing a role's permission set by a key
/// list: the role holds exactly the descriptors the keys denote, every
/// other role exactly what it held before.
pub open spec fn grants_replaced(
    old_p: Seq<PolicyTuple>,
    new_p: Seq<PolicyTuple>,
    role: Seq<char>,
    ks: Seq<String>,
) -> bool {
    &&& forall|o: Seq<char>, a: Seq<char>|
        #[trigger] has_policy_in(new_p, role, o, a) <==> (in_catalog(o, a) && key_in(
            ks,
            key_of(o, a),
        ))
    &&& forall|r2: Seq<char>, o: Seq<char>, a: Seq<char>|
        r2 != role ==> (#[trigger] has_policy_in(new_p, r2, o, a) <==> has_policy_in(
            old_p,
            r2,
            o,
            a,
        ))
}

/// What a grant replacement does, depending on its outcome: on failure —
/// reported exactly when some key is invalid — nothing changed; on success
/// the role holds exactly the keyed descriptors, its assignments are gone,
/// and everything else is as before.
pub open spec fn set_permissions_outcome(
    pre_p: Seq<PolicyTuple>,
    pre_a: Seq<crate::store::RoleAssignment>,
    post_p: Seq<PolicyTuple>,
    post_a: Seq<crate::store::RoleAssignment>,
    role: Seq<char>,
    ks: Seq<String>,
    r: Result<(), CoreError>,
) -> bool {
    &&& (r is Ok <==> keys_valid(ks))
    &&& (r matches Err(e) ==> e == CoreError::InvalidPermissionKey && post_p == pre_p && post_a
        == pre_a)
    &&& (r is Ok ==> grants_replaced(pre_p, post_p, role, ks))
    &&& (r is Ok ==> forall|u: Seq<char>, r2: Seq<char>|
        #[trigger] has_assignment_in(post_a, u, r2) <==> (r2 != role && has_assignment_in(
            pre_a,
            u,
            r2,
        )))
}

impl PolicyStore {
    /// Replaces the role's permission set by the descriptors the keys
    /// denote, as one exclusive operation.  If any key is not a catalog
    /// key the whole call fails without having mutated any state.  On
    /// success the role's previous grants and assignments are gone and the
    /// role holds exactly the keyed descriptors.
    pub fn set_permissions(&mut self, role_id: &str, keys: &Vec<String>) -> (r: Result<
        (),
        CoreError,
    >)
        requires
            old(self).wf(),
        ensures
            final(self).wf(),
            set_permissions_outcome(
                old(self).policies@,
                old(self).assignments@,
                final(self).policies@,
                final(self).assignments@,
                role_id@,
                keys@,
                r,
            ),
    {
        let n = keys.len();
        let mut i: usize = 0;
        while i < n
            invariant
                0 <= i <= n,
                n == keys@.len(),
                *self == *old(self),
                old(self).wf(),
                forall|j: int| 0 <= j < i ==> is_catalog_key((#[trigger] keys@[j])@),
            decreases n - i,
        {
            if catalog_lookup(keys[i].as_str()).is_none() {
                return Err(CoreError::InvalidPermissionKey);
            }
            i = i + 1;
        }
        let ghost old_p = self.policies@;
        let ghost old_a = self.assignments@;
        self.delete_role(role_id);
        let ghost asg1 = self.assignments@;
        let mut i: usize = 0;
        while i < n
            invariant
                0 <= i <= n,
                n == keys@.len(),
                keys_valid(keys@),
                self.wf(),
                self.assignments@ == asg1,
                forall|o: Seq<char>, a: Seq<char>|
                    #[trigger] has_policy_in(self.policies@, role_id@, o, a) <==> (in_catalog(o, a)
                        && key_in(keys@.subrange(0, i as int), key_of(o, a))),
                forall|r2: Seq<char>, o: Seq<char>, a: Seq<char>|
                    r2 != role_id@ ==> (#[trigger] has_policy_in(self.policies@, r2, o, a)
                        <==> has_policy_in(old_p, r2, o, a)),
            decreases n - i,
        {
            let ghost prev = self.policies@;
            let p = catalog_lookup(keys[i].as_str()).unwrap();
            let _ = self.set_policy(role_id, p.object.as_str(), p.action.as_str());
            i = i + 1;
            proof {
                lemma_catalog_keys();
                let sub1 = keys@.subrange(0, i as int);
                let sub0 = keys@.subrange(0, i as int - 1);
                assert forall|k: Seq<char>| #[trigger] key_in(sub1, k) <==> (key_in(sub0, k)
                    || keys@[i as int - 1]@ == k) by {
                    if key_in(sub1, k) {
                        let j = choose|j: int| 0 <= j < sub1.len() && (#[trigger] sub1[j])@ == k;
                        if j < sub0.len() {
                            assert(sub0[j]@ == k);
                        }
                    }
                    if key_in(sub0, k) {
                        let j = choose|j: int| 0 <= j < sub0.len() && (#[trigger] sub0[j])@ == k;
                        assert(sub1[j]@ == k);
                    }
                    if keys@[i as int - 1]@ == k {
                        assert(sub1[i as int - 1]@ == k);
                    }
                }
                assert forall|o: Seq<char>, a: Seq<char>|
                    #[trigger] has_policy_in(self.policies@, role_id@, o, a) <==> (in_catalog(o, a)
                        && key_in(sub1, key_of(o, a))) by {
                    if in_catalog(o, a) && keys@[i as int - 1]@ == key_of(o, a) {
                        assert(catalog_pair_of(key_of(o, a)) == (o, a));
                        assert(o == p.object@ && a == p.action@);
                    }
                }
            }
        }
        proof {
            assert(keys@.subrange(0, n as int) =~= keys@);
        }
        Ok(())
    }

    /// Grants the role the right to manage users.
    pub fn set_permission_manage_user(&mut self, role: &str) -> (r: Result<(), CoreError>)
        requires
            old(self).wf(),
        ensures
            final(self).wf(),
            r is Ok,
            final(self).assignments@ == old(self).assignments@,
            has_policy_in(final(self).policies@, role@, "user"@, "manage"@),
            forall|r2: Seq<char>, o2: Seq<char>, a2: Seq<char>|
                #[trigger] has_policy_in(final(self).policies@, r2, o2, a2) <==> (has_policy_in(
                    old(self).policies@,
                    r2,
                    o2,
                    a2,
                ) || (r2 == role@ && o2 == "user"@ && a2 == "manage"@)),
    {
        self.set_policy(role, "user", "manage")
    }

    /// Grants the role the right to manage instances.
    pub fn set_permission_manage_instance(&mut self, role: &str) -> (r: Result<(), CoreError>)
        requires
            old(self).wf(),
        ensures
            final(self).wf(),
            r is Ok,
            final(self).assignments@ == old(self).assignments@,
            has_policy_in(final(self).policies@, role@, "instance"@, "manage"@),
            forall|r2: Seq<char>, o2: Seq<char>, a2: Seq<char>|
                #[trigger] has_policy_in(final(self).policies@, r2, o2, a2) <==> (has_policy_in(
                    old(self).policies@,
                    r2,
                    o2,
                    a2,
                ) || (r2 == role@ && o2 == "instance"@ && a2 == "manage"@)),
    {
        self.set_policy(role, "instance", "manage")
    }

    /// Marks the role as forbidden to make changes.
    pub fn set_permission_forbid_change(&mut self, role: &str) -> (r: Result<(), CoreError>)
        requires
            old(self).wf(),
        ensures
            final(self).wf(),
            r is Ok,
            final(self).assignments@ == old(self).assignments@,
            has_policy_in(final(self).policies@, role@, "change"@, "forbid"@),
            forall|r2: Seq<char>, o2: Seq<char>, a2: Seq<char>|
                #[trigger] has_policy_in(final(self).policies@, r2, o2, a2) <==> (has_policy_in(
                    old(self).policies@,
                    r2,
                    o2,
                    a2,
                ) || (r2 == role@ && o2 == "change"@ && a2 == "forbid"@)),
    {
        self.set_policy(role, "change", "forbid")
    }

    /// Grants the administrator role (role `"1"`) instance and user
    /// management.
    pub fn init_admin_permission(&mut self) -> (r: Result<(), CoreError>)
        requires
            old(self).wf(),
        ensures
            final(self).wf(),
            r is Ok,
            final(self).assignments@ == old(self).assignments@,
            has_policy_in(final(self).policies@, "1"@, "instance"@, "manage"@),
            has_policy_in(final(self).policies@, "1"@, "user"@, "manage"@),
            forall|r2: Seq<char>, o2: Seq<char>, a2: Seq<char>|
                #[trigger] has_policy_in(final(self).policies@, r2, o2, a2) <==> (has_policy_in(
                    old(self).policies@,
                    r2,
                    o2,
                    a2,
                ) || (r2 == "1"@ && o2 == "instance"@ && a2 == "manage"@) || (r2 == "1"@ && o2
                    == "user"@ && a2 == "manage"@)),
    {
        let _ = self.set_permission_manage_instance("1");
        self.set_permission_manage_user("1")
    }
}

} // verus!
