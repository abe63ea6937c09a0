//! Laws of the core, each proved from the contracts the operations carry:
//! idempotence of role assignment, exactness and atomicity of grant
//! replacement, and deny-by-default.

use vstd::prelude::*;
use vstd::seq_lib::group_seq_lib_default;
use crate::catalog::{catalog_pair_of, in_catalog, is_catalog_key, lemma_catalog_keys};
use crate::enforcer::{lemma_role_grants, role_grants_of, role_keys_of};
use crate::error::CoreError;
use crate::grants::{grants_replaced, key_in, keys_valid, set_permissions_outcome};
use crate::roles::role_assignment_transition;
use crate::store::{
    allowed_in, assignments_wf, has_assignment_in, has_policy_in, policies_wf, tuple_matches,
    PolicyTuple, RoleAssignment,
};
use crate::text::key_of;

verus! {

broadcast use group_seq_lib_default;

/// Idempotence of role assignment: assigning a user the same role twice in
/// a row yields the same final state as assigning it once — the second
/// transition changes nothing.
pub proof fn lemma_set_role_for_user_idempotent(
    s0: Seq<RoleAssignment>,
    s1: Seq<RoleAssignment>,
    s2: Seq<RoleAssignment>,
    user: Seq<char>,
    role: Seq<char>,
)
    requires
        role_assignment_transition(s0, s1, user, role),
        role_assignment_transition(s1, s2, user, role),
    ensures
        s2 == s1,
{
    if has_assignment_in(s0, user, role) {
        assert(s1 == s0);
    } else {
        assert(s1.last().user@ == user && s1.last().role@ == role);
        assert(s1[s1.len() - 1].user@ == user);
        assert(has_assignment_in(s1, user, role));
    }
}

/// Replacement correctness: after a successful grant replacement, the keys
/// readable for the role are exactly the keys that were granted,
/// order-independent.
pub proof fn lemma_set_permissions_replaces(
    old_p: Seq<PolicyTuple>,
    new_p: Seq<PolicyTuple>,
    role: Seq<char>,
    ks: Seq<String>,
)
    requires
        policies_wf(new_p),
        keys_valid(ks),
        grants_replaced(old_p, new_p, role, ks),
    ensures
        forall|k: Seq<char>| #[trigger] role_keys_of(new_p, role).contains(k) <==> key_in(ks, k),
{
    lemma_catalog_keys();
    lemma_role_grants(new_p, role);
    let g = role_grants_of(new_p, role);
    let keys = role_keys_of(new_p, role);
    assert forall|k: Seq<char>| #[trigger] keys.contains(k) implies key_in(ks, k) by {
        let j = choose|j: int| 0 <= j < keys.len() && keys[j] == k;
        let t = g[j];
        assert(k == key_of(t.object@, t.action@));
        assert(new_p.contains(t));
        let i = choose|i: int| 0 <= i < new_p.len() && new_p[i] == t;
        assert(tuple_matches(new_p[i], role, t.object@, t.action@));
        assert(has_policy_in(new_p, role, t.object@, t.action@));
    }
    assert forall|k: Seq<char>| #[trigger] key_in(ks, k) implies keys.contains(k) by {
        let i = choose|i: int| 0 <= i < ks.len() && (#[trigger] ks[i])@ == k;
        assert(is_catalog_key(k));
        let (o, a) = catalog_pair_of(k);
        assert(in_catalog(o, a) && key_of(o, a) == k);
        assert(has_policy_in(new_p, role, o, a));
        let j = choose|j: int|
            0 <= j < g.len() && (#[trigger] g[j]).object@ == o && g[j].action@ == a;
        assert(keys[j] == key_of(o, a));
    }
}

/// Atomicity under failure: a grant replacement given a key list with an
/// invalid key reports it and leaves both relations — in particular the
/// role's readable keys — exactly as they were.
pub proof fn lemma_set_permissions_atomic(
    pre_p: Seq<PolicyTuple>,
    pre_a: Seq<RoleAssignment>,
    post_p: Seq<PolicyTuple>,
    post_a: Seq<RoleAssignment>,
    role: Seq<char>,
    ks: Seq<String>,
    r: Result<(), CoreError>,
)
    requires
        set_permissions_outcome(pre_p, pre_a, post_p, post_a, role, ks, r),
        !keys_valid(ks),
    ensures
        r == Err::<(), CoreError>(CoreError::InvalidPermissionKey),
        post_p == pre_p,
        post_a == pre_a,
        role_keys_of(post_p, role) == role_keys_of(pre_p, role),
{
}

/// Deny-by-default: a user assigned to a role that holds no grants is
/// denied every `(object, action)` request.
pub proof fn lemma_deny_by_default(
    ps: Seq<PolicyTuple>,
    asg: Seq<RoleAssignment>,
    user: Seq<char>,
    role: Seq<char>,
)
    requires
        assignments_wf(asg),
        has_assignment_in(asg, user, role),
        forall|o: Seq<char>, a: Seq<char>| !has_policy_in(ps, role, o, a),
    ensures
        forall|o: Seq<char>, a: Seq<char>| !allowed_in(ps, asg, user, o, a),
{
    assert forall|o: Seq<char>, a: Seq<char>| !allowed_in(ps, asg, user, o, a) by {
        if allowed_in(ps, asg, user, o, a) {
            let r = choose|r: Seq<char>|
                #[trigger] has_assignment_in(asg, user, r) && has_policy_in(ps, r, o, a);
            let i = choose|i: int|
                0 <= i < asg.len() && (#[trigger] asg[i]).user@ == user && asg[i].role@ == r;
            let j = choose|j: int|
                0 <= j < asg.len() && (#[trigger] asg[j]).user@ == user && asg[j].role@ == role;
            assert(i == j);
            assert(!has_policy_in(ps, role, o, a));
        }
    }
}

} // verus!
