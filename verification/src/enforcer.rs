//! The read path of the core: authorization queries over the current
//! relations.  Every query is a pure function of the store's contents;
//! absence of a matching grant is the normal deny outcome, never an error.

use vstd::prelude::*;
use vstd::seq_lib::group_seq_lib_default;
use crate::catalog::Permission;
use crate::store::{
    allowed_in, assignments_wf, has_assignment_in, has_policy_in, policies_wf, tuple_matches,
    user_assigned, PolicyStore, PolicyTuple,
};
use crate::text::{key_of, make_key, str_eq};

verus! {

broadcast use group_seq_lib_default;

/// The grants a role holds, in store order.
pub open spec fn role_grants_of(ps: Seq<PolicyTuple>, role: Seq<char>) -> Seq<PolicyTuple>
    decreases ps.len(),
{
    if ps.len() == 0 {
        Seq::empty()
    } else {
        let rest = role_grants_of(ps.drop_last(), role);
        if ps.last().role@ == role {
            rest.push(ps.last())
        } else {
            rest
        }
    }
}

/// The keys of the grants a role holds, in store order.
pub open spec fn role_keys_of(ps: Seq<PolicyTuple>, role: Seq<char>) -> Seq<Seq<char>>
    decreases ps.len(),
{
    if ps.len() == 0 {
        Seq::empty()
    } else {
        let rest = role_keys_of(ps.drop_last(), role);
        if ps.last().role@ == role {
            rest.push(key_of(ps.last().object@, ps.last().action@))
        } else {
            rest
        }
    }
}

/// How a role's grants and keys relate to the relation they are drawn
/// from: the keys are the grants' keys, the grants are grants of the
/// relation, and the role holds `(object, action)` exactly when some
/// listed grant carries it.
pub proof fn lemma_role_grants(ps: Seq<PolicyTuple>, role: Seq<char>)
    ensures
        role_keys_of(ps, role).len() == role_grants_of(ps, role).len(),
        forall|i: int|
            0 <= i < role_grants_of(ps, role).len() ==> {
                let g = #[trigger] role_grants_of(ps, role)[i];
                &&& role_keys_of(ps, role)[i] == key_of(g.object@, g.action@)
                &&& g.role@ == role
                &&& ps.contains(g)
            },
        forall|o: Seq<char>, a: Seq<char>|
            #[trigger] has_policy_in(ps, role, o, a) <==> exists|i: int|
                0 <= i < role_grants_of(ps, role).len() && (#[trigger] role_grants_of(ps, role)[i]).object@
                    == o && role_grants_of(ps, role)[i].action@ == a,
        policies_wf(ps) ==> forall|i: int, j: int|
            0 <= i < j < role_grants_of(ps, role).len() ==> !tuple_matches(
                #[trigger] role_grants_of(ps, role)[i],
                (#[trigger] role_grants_of(ps, role)[j]).role@,
                role_grants_of(ps, role)[j].object@,
                role_grants_of(ps, role)[j].action@,
            ),
    decreases ps.len(),
{
    let g = role_grants_of(ps, role);
    let k = role_keys_of(ps, role);
    if ps.len() == 0 {
        assert forall|o: Seq<char>, a: Seq<char>| !has_policy_in(ps, role, o, a) by {
            if has_policy_in(ps, role, o, a) {
                let t = choose|t: int|
                    0 <= t < ps.len() && tuple_matches(#[trigger] ps[t], role, o, a);
            }
        }
    } else {
        let head = ps.drop_last();
        let last = ps.last();
        lemma_role_grants(head, role);
        assert(policies_wf(ps) ==> policies_wf(head));
        assert forall|i: int| 0 <= i < g.len() implies {
            let gi = #[trigger] g[i];
            &&& k[i] == key_of(gi.object@, gi.action@)
            &&& gi.role@ == role
            &&& ps.contains(gi)
        } by {
            if last.role@ == role && i == g.len() - 1 {
                assert(g[i] == last);
                assert(ps[ps.len() - 1] == last);
            } else {
                assert(g[i] == role_grants_of(head, role)[i]);
                assert(head.contains(g[i]));
                let t = choose|t: int| 0 <= t < head.len() && head[t] == g[i];
                assert(ps[t] == g[i]);
            }
        }
        assert forall|o: Seq<char>, a: Seq<char>| #[trigger] has_policy_in(ps, role, o, a)
            <==> exists|i: int|
                0 <= i < g.len() && (#[trigger] g[i]).object@ == o && g[i].action@ == a by {
            if has_policy_in(ps, role, o, a) {
                let t = choose|t: int|
                    0 <= t < ps.len() && tuple_matches(#[trigger] ps[t], role, o, a);
                if t < ps.len() - 1 {
                    assert(tuple_matches(head[t], role, o, a));
                    assert(has_policy_in(head, role, o, a));
                    let i = choose|i: int|
                        0 <= i < role_grants_of(head, role).len() && (
                        #[trigger] role_grants_of(head, role)[i]).object@ == o && role_grants_of(
                            head,
                            role,
                        )[i].action@ == a;
                    assert(g[i].object@ == o && g[i].action@ == a);
                } else {
                    assert(last.role@ == role);
                    assert(g.last().object@ == o && g.last().action@ == a);
                    assert(g[g.len() - 1].object@ == o);
                }
            }
            if exists|i: int| 0 <= i < g.len() && (#[trigger] g[i]).object@ == o && g[i].action@
                == a {
                let i = choose|i: int|
                    0 <= i < g.len() && (#[trigger] g[i]).object@ == o && g[i].action@ == a;
                if last.role@ == role && i == g.len() - 1 {
                    assert(tuple_matches(ps[ps.len() - 1], role, o, a));
                } else {
                    assert(g[i] == role_grants_of(head, role)[i]);
                    assert(has_policy_in(head, role, o, a));
                    let t = choose|t: int|
                        0 <= t < head.len() && tuple_matches(#[trigger] head[t], role, o, a);
                    assert(tuple_matches(ps[t], role, o, a));
                }
            }
        }
        if policies_wf(ps) {
            assert forall|i: int, j: int| 0 <= i < j < g.len() implies !tuple_matches(
                g[i],
                (g[j]).role@,
                g[j].object@,
                g[j].action@,
            ) by {
                if last.role@ == role && j == g.len() - 1 {
                    assert(g[i] == role_grants_of(head, role)[i]);
                    assert(head.contains(g[i]));
                    let t = choose|t: int| 0 <= t < head.len() && head[t] == g[i];
                    assert(ps[t] == g[i]);
                    assert(g[j] == ps[ps.len() - 1]);
                    assert(!tuple_matches(ps[t], ps[ps.len() - 1].role@, ps[ps.len() - 1].object@,
                        ps[ps.len() - 1].action@));
                } else {
                    assert(g[i] == role_grants_of(head, role)[i]);
                    assert(g[j] == role_grants_of(head, role)[j]);
                }
            }
        }
    }
}

impl PolicyStore {
    /// The authorization decision: `true` iff some role assigned to the
    /// subject is granted `(object, action)`.  Default is deny.
    pub fn enforce(&self, subject: &str, object: &str, action: &str) -> (r: bool)
        ensures
            r == allowed_in(self.policies@, self.assignments@, subject@, object@, action@),
    {
        let n = self.assignments.len();
        let mut i: usize = 0;
        while i < n
            invariant
                0 <= i <= n,
                n == self.assignments@.len(),
                forall|j: int| 0 <= j < i ==> !((#[trigger] self.assignments@[j]).user@ == subject@
                    && has_policy_in(
                    self.policies@,
                    self.assignments@[j].role@,
                    object@,
                    action@,
                )),
            decreases n - i,
        {
            let a = &self.assignments[i];
            if str_eq(a.user.as_str(), subject) {
                if self.has_policy(a.role.as_str(), object, action) {
                    proof {
                        let ghost r0 = self.assignments@[i as int].role@;
                        assert(has_assignment_in(self.assignments@, subject@, r0));
                    }
                    return true;
                }
            }
            i = i + 1;
        }
        proof {
            assert forall|r0: Seq<char>| #[trigger] has_assignment_in(
                self.assignments@,
                subject@,
                r0,
            ) implies !has_policy_in(self.policies@, r0, object@, action@) by {
                let j = choose|j: int|
                    0 <= j < self.assignments@.len() && (#[trigger] self.assignments@[j]).user@
                        == subject@ && self.assignments@[j].role@ == r0;
            }
        }
        false
    }

    /// The keys of the grants the role holds directly, in store order and
    /// without duplicates.
    pub fn get_permissions_for_role(&self, role: &str) -> (res: Vec<String>)
        requires
            self.wf(),
        ensures
            res@.map_values(|s: String| s@) == role_keys_of(self.policies@, role@),
            forall|i: int, j: int| 0 <= i < j < res@.len() ==> res@[i]@ != res@[j]@,
    {
        let n = self.policies.len();
        let mut res: Vec<String> = Vec::new();
        let mut i: usize = 0;
        proof {
            assert(self.policies@.subrange(0, 0) =~= Seq::<PolicyTuple>::empty());
        }
        while i < n
            invariant
                0 <= i <= n,
                n == self.policies@.len(),
                policies_wf(self.policies@),
                res@.len() == role_keys_of(self.policies@.subrange(0, i as int), role@).len(),
                forall|k: int| 0 <= k < res@.len() ==> (#[trigger] res@[k])@ == role_keys_of(
                    self.policies@.subrange(0, i as int),
                    role@,
                )[k],
            decreases n - i,
        {
            let ghost res0 = res@;
            let ghost sub0 = self.policies@.subrange(0, i as int);
            let p = &self.policies[i];
            if str_eq(p.role.as_str(), role) {
                res.push(make_key(p.object.as_str(), p.action.as_str()));
            }
            i = i + 1;
            proof {
                let sub1 = self.policies@.subrange(0, i as int);
                let last = self.policies@[i as int - 1];
                assert(sub1.drop_last() =~= sub0);
                assert(sub1.last() == last);
                if last.role@ == role@ {
                    assert(role_keys_of(sub1, role@) == role_keys_of(sub0, role@).push(
                        key_of(last.object@, last.action@),
                    ));
                    assert(res@ == res0.push(res@.last()));
                } else {
                    assert(role_keys_of(sub1, role@) == role_keys_of(sub0, role@));
                }
            }
        }
        proof {
            assert(self.policies@.subrange(0, n as int) =~= self.policies@);
            assert(res@.map_values(|s: String| s@) =~= role_keys_of(self.policies@, role@));
            lemma_role_grants(self.policies@, role@);
            crate::catalog::lemma_catalog_keys();
            let g = role_grants_of(self.policies@, role@);
            assert forall|i: int, j: int| 0 <= i < j < res@.len() implies res@[i]@ != res@[j]@ by {
                assert(!tuple_matches(g[i], g[j].role@, g[j].object@, g[j].action@));
                assert(self.policies@.contains(g[i]));
                assert(self.policies@.contains(g[j]));
                let ti = choose|t: int| 0 <= t < self.policies@.len() && self.policies@[t] == g[i];
                let tj = choose|t: int| 0 <= t < self.policies@.len() && self.policies@[t] == g[j];
                assert(crate::catalog::in_catalog(g[i].object@, g[i].action@));
                assert(crate::catalog::in_catalog(g[j].object@, g[j].action@));
                assert(res@[i]@ == key_of(g[i].object@, g[i].action@));
                assert(res@[j]@ == key_of(g[j].object@, g[j].action@));
                if key_of(g[i].object@, g[i].action@) == key_of(g[j].object@, g[j].action@) {
                    assert(crate::catalog::catalog_pair_of(key_of(g[i].object@, g[i].action@))
                        == (g[i].object@, g[i].action@));
                    assert(crate::catalog::catalog_pair_of(key_of(g[j].object@, g[j].action@))
                        == (g[j].object@, g[j].action@));
                }
            }
        }
        res
    }

    /// The keys of every grant reachable from the user's assigned role,
    /// in store order and without duplicates; empty when the user holds no
    /// role.
    pub fn get_permissions_for_user(&self, user: &str) -> (res: Vec<String>)
        requires
            self.wf(),
        ensures
            !user_assigned(self.assignments@, user@) ==> res@.len() == 0,
            forall|r: Seq<char>| #[trigger] has_assignment_in(self.assignments@, user@, r)
                ==> res@.map_values(|s: String| s@) == role_keys_of(self.policies@, r),
            forall|i: int, j: int| 0 <= i < j < res@.len() ==> res@[i]@ != res@[j]@,
    {
        let n = self.assignments.len();
        let mut i: usize = 0;
        while i < n
            invariant
                0 <= i <= n,
                n == self.assignments@.len(),
                self.wf(),
                forall|j: int| 0 <= j < i ==> (#[trigger] self.assignments@[j]).user@ != user@,
            decreases n - i,
        {
            let a = &self.assignments[i];
            if str_eq(a.user.as_str(), user) {
                let res = self.get_permissions_for_role(a.role.as_str());
                proof {
                    assert forall|r: Seq<char>| #[trigger] has_assignment_in(
                        self.assignments@,
                        user@,
                        r,
                    ) implies res@.map_values(|s: String| s@) == role_keys_of(self.policies@, r) by {
                        let j = choose|j: int|
                            0 <= j < self.assignments@.len() && (#[trigger] self.assignments@[j]).user@
                                == user@ && self.assignments@[j].role@ == r;
                        assert(assignments_wf(self.assignments@));
                        assert(j == i as int);
                    }
                }
                return res;
            }
            i = i + 1;
        }
        Vec::new()
    }

    /// Whether the user may perform every one of the given permissions.
    pub fn check_permissions(&self, user: &str, val: &Vec<Permission>) -> (r: bool)
        ensures
            r == forall|i: int| 0 <= i < val@.len() ==> allowed_in(
                self.policies@,
                self.assignments@,
                user@,
                (#[trigger] val@[i]).object@,
                val@[i].action@,
            ),
    {
        let n = val.len();
        let mut i: usize = 0;
        while i < n
            invariant
                0 <= i <= n,
                n == val@.len(),
                forall|j: int| 0 <= j < i ==> allowed_in(
                    self.policies@,
                    self.assignments@,
                    user@,
                    (#[trigger] val@[j]).object@,
                    val@[j].action@,
                ),
            decreases n - i,
        {
            let p = &val[i];
            let pass = self.enforce(user, p.object.as_str(), p.action.as_str());
            if !pass {
                return false;
            }
            i = i + 1;
        }
        true
    }

    /// Whether the user may manage instances.
    pub fn can_manage_instance(&self, user_id: &str) -> (r: bool)
        ensures
            r == allowed_in(self.policies@, self.assignments@, user_id@, "instance"@, "manage"@),
    {
        self.enforce(user_id, "instance", "manage")
    }

    /// Whether the user may manage users.
    pub fn can_manage_user(&self, user_id: &str) -> (r: bool)
        ensures
            r == allowed_in(self.policies@, self.assignments@, user_id@, "user"@, "manage"@),
    {
        self.enforce(user_id, "user", "manage")
    }

    /// Whether the user is forbidden to make changes.
    pub fn is_change_forbid(&self, user_id: &str) -> (r: bool)
        ensures
            r == allowed_in(self.policies@, self.assignments@, user_id@, "change"@, "forbid"@),
    {
        self.enforce(user_id, "change", "forbid")
    }
}

} // verus!
