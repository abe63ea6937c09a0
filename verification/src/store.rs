//! The policy store: the in-memory indexed relations the whole core works
//! on — permission grants `(role, object, action)` and role assignments
//! `(user, role)` — with their well-formedness invariant: grants are unique
//! and drawn from the catalog, and a user holds at most one role.
//!
//! Every mutation is a single exclusive (`&mut`) operation whose contract
//! relates the final relations to the initial ones, so a reader only ever
//! observes the state before or after a whole operation, never between its
//! steps.  Callers that back the relations with durable storage persist the
//! change before releasing their write lock.

use vstd::prelude::*;
use vstd::seq_lib::group_seq_lib_default;
use crate::catalog::in_catalog;
use crate::error::CoreError;
use crate::text::str_eq;

verus! {

broadcast use group_seq_lib_default;

/// One permission grant: the role may perform the action on the object.
#[derive(Clone, Debug)]
pub struct PolicyTuple {
    pub role: String,
    pub object: String,
    pub action: String,
}

/// One role assignment: the user holds the role.
#[derive(Clone, Debug)]
pub struct RoleAssignment {
    pub user: String,
    pub role: String,
}

/// Whether a grant is exactly `(role, object, action)`.
pub open spec fn tuple_matches(
    p: PolicyTuple,
    role: Seq<char>,
    object: Seq<char>,
    action: Seq<char>,
) -> bool {
    p.role@ == role && p.object@ == object && p.action@ == action
}

/// Whether the grants contain `(role, object, action)`.
pub open spec fn has_policy_in(
    ps: Seq<PolicyTuple>,
    role: Seq<char>,
    object: Seq<char>,
    action: Seq<char>,
) -> bool {
    exists|i: int| 0 <= i < ps.len() && tuple_matches(#[trigger] ps[i], role, object, action)
}

/// Whether the assignments contain `(user, role)`.
pub open spec fn has_assignment_in(asg: Seq<RoleAssignment>, user: Seq<char>, role: Seq<char>) -> bool {
    exists|i: int| 0 <= i < asg.len() && (#[trigger] asg[i]).user@ == user && asg[i].role@ == role
}

/// Whether the user holds any role.
pub open spec fn user_assigned(asg: Seq<RoleAssignment>, user: Seq<char>) -> bool {
    exists|i: int| 0 <= i < asg.len() && (#[trigger] asg[i]).user@ == user
}

/// Whether `(user, role)` is the first assignment the user has in the
/// sequence — the one a reload keeps.
pub open spec fn first_assignment_for(
    asg: Seq<RoleAssignment>,
    user: Seq<char>,
    role: Seq<char>,
) -> bool {
    exists|i: int|
        0 <= i < asg.len() && (#[trigger] asg[i]).user@ == user && asg[i].role@ == role && (forall|
            j: int,
        | 0 <= j < i ==> (#[trigger] asg[j]).user@ != user)
}

/// The authorization decision: some role assigned to the subject is granted
/// `(object, action)`.  Absence of any matching grant denies.
pub open spec fn allowed_in(
    ps: Seq<PolicyTuple>,
    asg: Seq<RoleAssignment>,
    subject: Seq<char>,
    object: Seq<char>,
    action: Seq<char>,
) -> bool {
    exists|r: Seq<char>| #[trigger] has_assignment_in(asg, subject, r) && has_policy_in(ps, r, object, action)
}

/// Grants are pairwise distinct and drawn from the catalog.
pub open spec fn policies_wf(ps: Seq<PolicyTuple>) -> bool {
    &&& forall|i: int, j: int|
        0 <= i < j < ps.len() ==> !tuple_matches(
            #[trigger] ps[i],
            (#[trigger] ps[j]).role@,
            ps[j].object@,
            ps[j].action@,
        )
    &&& forall|i: int| 0 <= i < ps.len() ==> in_catalog((#[trigger] ps[i]).object@, ps[i].action@)
}

/// Each user holds at most one role.
pub open spec fn assignments_wf(asg: Seq<RoleAssignment>) -> bool {
    forall|i: int, j: int|
        0 <= i < j < asg.len() ==> (#[trigger] asg[i]).user@ != (#[trigger] asg[j]).user@
}

/// The in-memory policy index.
pub struct PolicyStore {
    pub policies: Vec<PolicyTuple>,
    pub assignments: Vec<RoleAssignment>,
}

/// Whether a grant matches every field that is given.
pub open spec fn fields_match(
    p: PolicyTuple,
    role: Option<&str>,
    object: Option<&str>,
    action: Option<&str>,
) -> bool {
    &&& match role {
        Some(r) => p.role@ == r@,
        None => true,
    }
    &&& match object {
        Some(o) => p.object@ == o@,
        None => true,
    }
    &&& match action {
        Some(a) => p.action@ == a@,
        None => true,
    }
}

/// Whether an assignment matches every field that is given.
pub open spec fn assignment_fields_match(
    a: RoleAssignment,
    user: Option<&str>,
    role: Option<&str>,
) -> bool {
    &&& match user {
        Some(u) => a.user@ == u@,
        None => true,
    }
    &&& match role {
        Some(r) => a.role@ == r@,
        None => true,
    }
}

/// Filters under pointwise-equal predicates are equal.
pub proof fn lemma_filter_congruence<T>(s: Seq<T>, pred1: spec_fn(T) -> bool, pred2: spec_fn(T) -> bool)
    requires
        forall|x: T| #[trigger] pred1(x) == pred2(x),
    ensures
        s.filter(pred1) == s.filter(pred2),
    decreases s.len(),
{
    reveal(Seq::filter);
    if s.len() > 0 {
        lemma_filter_congruence(s.drop_last(), pred1, pred2);
    }
}

/// Every element a filter keeps was an element of the input.
pub proof fn lemma_filter_subset<T>(s: Seq<T>, pred: spec_fn(T) -> bool)
    ensures
        forall|x: T| s.filter(pred).contains(x) ==> s.contains(x),
    decreases s.len(),
{
    reveal(Seq::filter);
    if s.len() > 0 {
        let head = s.drop_last();
        lemma_filter_subset(head, pred);
        let sub = head.filter(pred);
        let f = s.filter(pred);
        assert forall|x: T| f.contains(x) implies s.contains(x) by {
            let i = choose|i: int| 0 <= i < f.len() && f[i] == x;
            if pred(s.last()) && i == f.len() - 1 {
                assert(f == sub.push(s.last()));
                assert(x == s.last());
                assert(s[s.len() - 1] == x);
            } else {
                assert(sub[i] == x);
                assert(sub.contains(x));
                assert(head.contains(x));
                let k = choose|k: int| 0 <= k < head.len() && head[k] == x;
                assert(s[k] == x);
            }
        }
    }
}

/// Filtering grants keeps them well-formed.
pub proof fn lemma_filter_policies_wf(ps: Seq<PolicyTuple>, pred: spec_fn(PolicyTuple) -> bool)
    requires
        policies_wf(ps),
    ensures
        policies_wf(ps.filter(pred)),
    decreases ps.len(),
{
    reveal(Seq::filter);
    if ps.len() > 0 {
        let head = ps.drop_last();
        assert(policies_wf(head));
        lemma_filter_policies_wf(head, pred);
        lemma_filter_subset(head, pred);
        let f = ps.filter(pred);
        if pred(ps.last()) {
            assert(f == head.filter(pred).push(ps.last()));
            assert forall|i: int, j: int| 0 <= i < j < f.len() implies !tuple_matches(
                f[i],
                f[j].role@,
                f[j].object@,
                f[j].action@,
            ) by {
                if j == f.len() - 1 {
                    assert(head.filter(pred).contains(f[i]));
                    assert(head.contains(f[i]));
                    let k = choose|k: int| 0 <= k < head.len() && head[k] == f[i];
                    assert(ps[k] == f[i]);
                    assert(ps.last() == ps[ps.len() - 1]);
                }
            }
        }
    }
}

/// Filtering assignments keeps them well-formed.
pub proof fn lemma_filter_assignments_wf(
    asg: Seq<RoleAssignment>,
    pred: spec_fn(RoleAssignment) -> bool,
)
    requires
        assignments_wf(asg),
    ensures
        assignments_wf(asg.filter(pred)),
    decreases asg.len(),
{
    reveal(Seq::filter);
    if asg.len() > 0 {
        let head = asg.drop_last();
        assert(assignments_wf(head));
        lemma_filter_assignments_wf(head, pred);
        lemma_filter_subset(head, pred);
        let f = asg.filter(pred);
        if pred(asg.last()) {
            assert(f == head.filter(pred).push(asg.last()));
            assert forall|i: int, j: int| 0 <= i < j < f.len() implies f[i].user@ != f[j].user@ by {
                if j == f.len() - 1 {
                    assert(head.filter(pred).contains(f[i]));
                    assert(head.contains(f[i]));
                    let k = choose|k: int| 0 <= k < head.len() && head[k] == f[i];
                    assert(asg[k] == f[i]);
                    assert(asg.last() == asg[asg.len() - 1]);
                }
            }
        }
    }
}

impl PolicyStore {
    /// Both relations are well-formed.
    pub open spec fn wf(&self) -> bool {
        policies_wf(self.policies@) && assignments_wf(self.assignments@)
    }

    /// An empty store.
    pub fn new() -> (s: Self)
        ensures
            s.wf(),
            s.policies@.len() == 0,
            s.assignments@.len() == 0,
    {
        PolicyStore { policies: Vec::new(), assignments: Vec::new() }
    }

    /// Whether the grant `(role, object, action)` is present.
    pub fn has_policy(&self, role: &str, object: &str, action: &str) -> (r: bool)
        ensures
            r == has_policy_in(self.policies@, role@, object@, action@),
    {
        let n = self.policies.len();
        let mut i: usize = 0;
        while i < n
            invariant
                0 <= i <= n,
                n == self.policies@.len(),
                forall|j: int| 0 <= j < i ==> !tuple_matches(
                    #[trigger] self.policies@[j],
                    role@,
                    object@,
                    action@,
                ),
            decreases n - i,
        {
            let p = &self.policies[i];
            if str_eq(p.role.as_str(), role) && str_eq(p.object.as_str(), object)
                && str_eq(p.action.as_str(), action) {
                return true;
            }
            i = i + 1;
        }
        false
    }

    /// Whether the user currently holds exactly this role.
    pub fn has_role_for_user(&self, user: &str, role: &str) -> (r: bool)
        ensures
            r == has_assignment_in(self.assignments@, user@, role@),
    {
        let n = self.assignments.len();
        let mut i: usize = 0;
        while i < n
            invariant
                0 <= i <= n,
                n == self.assignments@.len(),
                forall|j: int| 0 <= j < i ==> !((#[trigger] self.assignments@[j]).user@ == user@
                    && self.assignments@[j].role@ == role@),
            decreases n - i,
        {
            let a = &self.assignments[i];
            if str_eq(a.user.as_str(), user) && str_eq(a.role.as_str(), role) {
                return true;
            }
            i = i + 1;
        }
        false
    }

    /// Whether the user currently holds any role.
    pub fn user_has_any_role(&self, user: &str) -> (r: bool)
        ensures
            r == user_assigned(self.assignments@, user@),
    {
        let n = self.assignments.len();
        let mut i: usize = 0;
        while i < n
            invariant
                0 <= i <= n,
                n == self.assignments@.len(),
                forall|j: int| 0 <= j < i ==> (#[trigger] self.assignments@[j]).user@ != user@,
            decreases n - i,
        {
            if str_eq(self.assignments[i].user.as_str(), user) {
                return true;
            }
            i = i + 1;
        }
        false
    }

    /// Inserts the grant `(role, object, action)`.  Returns whether it was
    /// newly inserted — a duplicate insert is a no-op — and refuses a pair
    /// that is not in the catalog, leaving the store untouched.
    pub fn add_policy(&mut self, role: &str, object: &str, action: &str) -> (r: Result<
        bool,
        CoreError,
    >)
        requires
            old(self).wf(),
        ensures
            final(self).wf(),
            final(self).assignments@ == old(self).assignments@,
            r is Ok <==> in_catalog(object@, action@),
            r matches Err(e) ==> e == CoreError::InvalidPermissionKey && final(self).policies@
                == old(self).policies@,
            r matches Ok(b) ==> b == !has_policy_in(old(self).policies@, role@, object@, action@),
            r matches Ok(b) && !b ==> final(self).policies@ == old(self).policies@,
            r matches Ok(b) && b ==> {
                &&& final(self).policies@.len() == old(self).policies@.len() + 1
                &&& final(self).policies@.drop_last() == old(self).policies@
                &&& tuple_matches(final(self).policies@.last(), role@, object@, action@)
            },
            r is Ok ==> forall|r2: Seq<char>, o2: Seq<char>, a2: Seq<char>|
                #[trigger] has_policy_in(final(self).policies@, r2, o2, a2) <==> (has_policy_in(
                    old(self).policies@,
                    r2,
                    o2,
                    a2,
                ) || (r2 == role@ && o2 == object@ && a2 == action@)),
    {
        if !crate::catalog::catalog_contains(object, action) {
            return Err(CoreError::InvalidPermissionKey);
        }
        if self.has_policy(role, object, action) {
            proof {
                assert forall|r2: Seq<char>, o2: Seq<char>, a2: Seq<char>|
                    #[trigger] has_policy_in(self.policies@, r2, o2, a2) <==> (has_policy_in(
                        self.policies@,
                        r2,
                        o2,
                        a2,
                    ) || (r2 == role@ && o2 == object@ && a2 == action@)) by {}
            }
            return Ok(false);
        }
        let t = PolicyTuple { role: role.to_owned(), object: object.to_owned(), action: action.to_owned() };
        let ghost before = self.policies@;
        self.policies.push(t);
        proof {
            assert(self.policies@.drop_last() =~= before);
            assert(tuple_matches(self.policies@[before.len() as int], role@, object@, action@));
            assert forall|r2: Seq<char>, o2: Seq<char>, a2: Seq<char>|
                #[trigger] has_policy_in(self.policies@, r2, o2, a2) <==> (has_policy_in(
                    before,
                    r2,
                    o2,
                    a2,
                ) || (r2 == role@ && o2 == object@ && a2 == action@)) by {
                if has_policy_in(before, r2, o2, a2) {
                    let i = choose|i: int| 0 <= i < before.len() && tuple_matches(before[i], r2, o2, a2);
                    assert(tuple_matches(self.policies@[i], r2, o2, a2));
                }
                if has_policy_in(self.policies@, r2, o2, a2) {
                    let i = choose|i: int|
                        0 <= i < self.policies@.len() && tuple_matches(self.policies@[i], r2, o2, a2);
                    if i < before.len() {
                        assert(tuple_matches(before[i], r2, o2, a2));
                    }
                }
            }
        }
        Ok(true)
    }

    /// Inserts the grant `(role, object, action)` if it is not yet present.
    pub fn set_policy(&mut self, role: &str, object: &str, action: &str) -> (r: Result<
        (),
        CoreError,
    >)
        requires
            old(self).wf(),
        ensures
            final(self).wf(),
            final(self).assignments@ == old(self).assignments@,
            r is Ok <==> in_catalog(object@, action@),
            r matches Err(e) ==> e == CoreError::InvalidPermissionKey && final(self).policies@
                == old(self).policies@,
            r is Ok ==> has_policy_in(final(self).policies@, role@, object@, action@),
            r is Ok ==> forall|r2: Seq<char>, o2: Seq<char>, a2: Seq<char>|
                #[trigger] has_policy_in(final(self).policies@, r2, o2, a2) <==> (has_policy_in(
                    old(self).policies@,
                    r2,
                    o2,
                    a2,
                ) || (r2 == role@ && o2 == object@ && a2 == action@)),
    {
        match self.add_policy(role, object, action) {
            Ok(_) => Ok(()),
            Err(e) => Err(e),
        }
    }

    /// Assigns the role to the user if the user holds no role yet.  Returns
    /// whether the assignment was inserted.
    pub fn add_role_for_user(&mut self, user: &str, role: &str) -> (r: bool)
        requires
            old(self).wf(),
        ensures
            final(self).wf(),
            final(self).policies@ == old(self).policies@,
            r == !user_assigned(old(self).assignments@, user@),
            !r ==> final(self).assignments@ == old(self).assignments@,
            r ==> {
                &&& final(self).assignments@.len() == old(self).assignments@.len() + 1
                &&& final(self).assignments@.drop_last() == old(self).assignments@
                &&& final(self).assignments@.last().user@ == user@
                &&& final(self).assignments@.last().role@ == role@
            },
    {
        if self.user_has_any_role(user) {
            return false;
        }
        let a = RoleAssignment { user: user.to_owned(), role: role.to_owned() };
        let ghost before = self.assignments@;
        self.assignments.push(a);
        proof {
            assert(self.assignments@.drop_last() =~= before);
        }
        true
    }

    /// Removes every grant that matches all the given fields; a `None`
    /// field matches anything.  Returns how many grants were removed.
    pub fn remove_filtered_policy(
        &mut self,
        role: Option<&str>,
        object: Option<&str>,
        action: Option<&str>,
    ) -> (count: usize)
        requires
            old(self).wf(),
        ensures
            final(self).wf(),
            final(self).assignments@ == old(self).assignments@,
            final(self).policies@ == old(self).policies@.filter(
                (|p: PolicyTuple| !fields_match(p, role, object, action)),
            ),
            count == old(self).policies@.len() - final(self).policies@.len(),
    {
        let ghost pred = (|p: PolicyTuple| !fields_match(p, role, object, action));
        let n = self.policies.len();
        let mut out: Vec<PolicyTuple> = Vec::new();
        let mut i: usize = 0;
        proof {
            assert(self.policies@.subrange(0, 0).filter(pred) =~= Seq::<PolicyTuple>::empty());
        }
        while i < n
            invariant
                0 <= i <= n,
                n == self.policies@.len(),
                policies_wf(self.policies@),
                out@ == self.policies@.subrange(0, i as int).filter(pred),
                pred == (|p: PolicyTuple| !fields_match(p, role, object, action)),
                out@.len() <= i,
            decreases n - i,
        {
            let p = &self.policies[i];
            let m_role = match role {
                Some(r) => str_eq(p.role.as_str(), r),
                None => true,
            };
            let m_object = match object {
                Some(o) => str_eq(p.object.as_str(), o),
                None => true,
            };
            let m_action = match action {
                Some(a) => str_eq(p.action.as_str(), a),
                None => true,
            };
            let matched = m_role && m_object && m_action;
            proof {
                assert(matched == fields_match(self.policies@[i as int], role, object, action));
            }
            if !matched {
                out.push(
                    PolicyTuple {
                        role: p.role.clone(),
                        object: p.object.clone(),
                        action: p.action.clone(),
                    },
                );
                proof {
                    assert(out@.last() == self.policies@[i as int]);
                }
            }
            i = i + 1;
            proof {
                reveal(Seq::filter);
                let sub1 = self.policies@.subrange(0, i as int);
                assert(sub1.drop_last() =~= self.policies@.subrange(0, i as int - 1));
                assert(sub1.last() == self.policies@[i as int - 1]);
                assert(out@ == sub1.filter(pred));
            }
        }
        proof {
            assert(self.policies@.subrange(0, n as int) =~= self.policies@);
            lemma_filter_policies_wf(self.policies@, pred);
        }
        let count = n - out.len();
        self.policies = out;
        count
    }

    /// Removes every assignment that matches all the given fields; a `None`
    /// field matches anything.  Returns how many assignments were removed.
    pub fn remove_filtered_assignment(&mut self, user: Option<&str>, role: Option<&str>) -> (count:
        usize)
        requires
            old(self).wf(),
        ensures
            final(self).wf(),
            final(self).policies@ == old(self).policies@,
            final(self).assignments@ == old(self).assignments@.filter(
                (|a: RoleAssignment| !assignment_fields_match(a, user, role)),
            ),
            count == old(self).assignments@.len() - final(self).assignments@.len(),
    {
        let ghost pred = (|a: RoleAssignment| !assignment_fields_match(a, user, role));
        let n = self.assignments.len();
        let mut out: Vec<RoleAssignment> = Vec::new();
        let mut i: usize = 0;
        proof {
            assert(self.assignments@.subrange(0, 0).filter(pred) =~= Seq::<RoleAssignment>::empty());
        }
        while i < n
            invariant
                0 <= i <= n,
                n == self.assignments@.len(),
                assignments_wf(self.assignments@),
                out@ == self.assignments@.subrange(0, i as int).filter(pred),
                pred == (|a: RoleAssignment| !assignment_fields_match(a, user, role)),
                out@.len() <= i,
            decreases n - i,
        {
            let a = &self.assignments[i];
            let m_user = match user {
                Some(u) => str_eq(a.user.as_str(), u),
                None => true,
            };
            let m_role = match role {
                Some(r) => str_eq(a.role.as_str(), r),
                None => true,
            };
            let matched = m_user && m_role;
            proof {
                assert(matched == assignment_fields_match(self.assignments@[i as int], user, role));
            }
            if !matched {
                out.push(RoleAssignment { user: a.user.clone(), role: a.role.clone() });
                proof {
                    assert(out@.last() == self.assignments@[i as int]);
                }
            }
            i = i + 1;
            proof {
                reveal(Seq::filter);
                let sub1 = self.assignments@.subrange(0, i as int);
                assert(sub1.drop_last() =~= self.assignments@.subrange(0, i as int - 1));
                assert(sub1.last() == self.assignments@[i as int - 1]);
                assert(out@ == sub1.filter(pred));
            }
        }
        proof {
            assert(self.assignments@.subrange(0, n as int) =~= self.assignments@);
            lemma_filter_assignments_wf(self.assignments@, pred);
        }
        let count = n - out.len();
        self.assignments = out;
        count
    }

    /// Replaces the in-memory relations by the given rows, as read from a
    /// durable store.  Grants outside the catalog and duplicate grants are
    /// dropped; of a user's assignments only the first is kept.
    pub fn load_policy(&mut self, policies: Vec<PolicyTuple>, assignments: Vec<RoleAssignment>)
        ensures
            final(self).wf(),
            forall|r: Seq<char>, o: Seq<char>, a: Seq<char>|
                #[trigger] has_policy_in(final(self).policies@, r, o, a) <==> (has_policy_in(
                    policies@,
                    r,
                    o,
                    a,
                ) && in_catalog(o, a)),
            forall|u: Seq<char>, r: Seq<char>|
                #[trigger] has_assignment_in(final(self).assignments@, u, r)
                    <==> first_assignment_for(assignments@, u, r),
    {
        self.policies = Vec::new();
        self.assignments = Vec::new();
        let n = policies.len();
        let mut i: usize = 0;
        while i < n
            invariant
                0 <= i <= n,
                n == policies@.len(),
                self.wf(),
                self.assignments@.len() == 0,
                forall|r: Seq<char>, o: Seq<char>, a: Seq<char>|
                    #[trigger] has_policy_in(self.policies@, r, o, a) <==> (has_policy_in(
                        policies@.subrange(0, i as int),
                        r,
                        o,
                        a,
                    ) && in_catalog(o, a)),
            decreases n - i,
        {
            let p = &policies[i];
            let _ = self.add_policy(p.role.as_str(), p.object.as_str(), p.action.as_str());
            i = i + 1;
            proof {
                let sub1 = policies@.subrange(0, i as int);
                let sub0 = policies@.subrange(0, i as int - 1);
                let last = policies@[i as int - 1];
                assert forall|r: Seq<char>, o: Seq<char>, a: Seq<char>|
                    #[trigger] has_policy_in(sub1, r, o, a) <==> (has_policy_in(sub0, r, o, a) || (
                    tuple_matches(last, r, o, a))) by {
                    if has_policy_in(sub1, r, o, a) {
                        let k = choose|k: int|
                            0 <= k < sub1.len() && tuple_matches(#[trigger] sub1[k], r, o, a);
                        if k < sub0.len() {
                            assert(tuple_matches(sub0[k], r, o, a));
                        }
                    }
                    if has_policy_in(sub0, r, o, a) {
                        let k = choose|k: int|
                            0 <= k < sub0.len() && tuple_matches(#[trigger] sub0[k], r, o, a);
                        assert(tuple_matches(sub1[k], r, o, a));
                    }
                    if tuple_matches(last, r, o, a) {
                        assert(tuple_matches(sub1[i as int - 1], r, o, a));
                    }
                }
            }
        }
        proof {
            assert(policies@.subrange(0, n as int) =~= policies@);
        }
        let ghost loaded = self.policies@;
        let m = assignments.len();
        let mut i: usize = 0;
        while i < m
            invariant
                0 <= i <= m,
                m == assignments@.len(),
                self.wf(),
                self.policies@ == loaded,
                forall|u: Seq<char>, r: Seq<char>|
                    #[trigger] has_assignment_in(self.assignments@, u, r) <==> first_assignment_for(
                        assignments@.subrange(0, i as int),
                        u,
                        r,
                    ),
                forall|u: Seq<char>|
                    #[trigger] user_assigned(self.assignments@, u) <==> exists|j: int|
                        0 <= j < i && (#[trigger] assignments@[j]).user@ == u,
            decreases m - i,
        {
            let ghost prev = self.assignments@;
            let a = &assignments[i];
            let inserted = self.add_role_for_user(a.user.as_str(), a.role.as_str());
            i = i + 1;
            proof {
                let sub1 = assignments@.subrange(0, i as int);
                let sub0 = assignments@.subrange(0, i as int - 1);
                let last = assignments@[i as int - 1];
                assert(sub1.drop_last() =~= sub0);
                assert forall|u: Seq<char>, r: Seq<char>|
                    #[trigger] has_assignment_in(self.assignments@, u, r) <==> first_assignment_for(
                        sub1,
                        u,
                        r,
                    ) by {
                    if has_assignment_in(self.assignments@, u, r) {
                        if has_assignment_in(prev, u, r) {
                            assert(first_assignment_for(sub0, u, r));
                            let k = choose|k: int|
                                0 <= k < sub0.len() && (#[trigger] sub0[k]).user@ == u && sub0[k].role@
                                    == r && (forall|j: int|
                                    0 <= j < k ==> (#[trigger] sub0[j]).user@ != u);
                            assert(sub1[k].user@ == u && sub1[k].role@ == r);
                            assert(forall|j: int| 0 <= j < k ==> (#[trigger] sub1[j]).user@ != u);
                        } else {
                            assert(inserted);
                            assert(u == last.user@ && r == last.role@) by {
                                let k = choose|k: int|
                                    0 <= k < self.assignments@.len() && (
                                    #[trigger] self.assignments@[k]).user@ == u
                                        && self.assignments@[k].role@ == r;
                                if k < prev.len() {
                                    assert(prev[k].user@ == u && prev[k].role@ == r);
                                }
                            }
                            assert(!user_assigned(prev, u));
                            assert forall|j: int| 0 <= j < i - 1 implies (
                            #[trigger] assignments@[j]).user@ != u by {
                                if assignments@[j].user@ == u {
                                    assert(user_assigned(prev, u));
                                }
                            }
                            assert(sub1[i as int - 1].user@ == u && sub1[i as int - 1].role@ == r);
                            assert(first_assignment_for(sub1, u, r));
                        }
                    }
                    if first_assignment_for(sub1, u, r) {
                        let k = choose|k: int|
                            0 <= k < sub1.len() && (#[trigger] sub1[k]).user@ == u && sub1[k].role@
                                == r && (forall|j: int| 0 <= j < k ==> (#[trigger] sub1[j]).user@ != u);
                        if k < i - 1 {
                            assert(sub0[k].user@ == u && sub0[k].role@ == r);
                            assert(forall|j: int| 0 <= j < k ==> (#[trigger] sub0[j]).user@ != u);
                            assert(first_assignment_for(sub0, u, r));
                            assert(has_assignment_in(prev, u, r));
                            let t = choose|t: int|
                                0 <= t < prev.len() && (#[trigger] prev[t]).user@ == u && prev[t].role@
                                    == r;
                            if inserted {
                                assert(self.assignments@[t] == prev[t]);
                            }
                        } else {
                            assert(u == last.user@ && r == last.role@);
                            assert(forall|j: int| 0 <= j < k ==> (#[trigger] sub1[j]).user@ != u);
                            assert forall|j: int| 0 <= j < i - 1 implies (
                            #[trigger] assignments@[j]).user@ != u by {
                                assert(sub1[j].user@ == assignments@[j].user@);
                            }
                            assert(!user_assigned(prev, u));
                            assert(inserted);
                            assert(self.assignments@.last().user@ == u);
                        }
                    }
                }
                assert forall|u: Seq<char>|
                    #[trigger] user_assigned(self.assignments@, u) <==> exists|j: int|
                        0 <= j < i && (#[trigger] assignments@[j]).user@ == u by {
                    if user_assigned(self.assignments@, u) {
                        let k = choose|k: int|
                            0 <= k < self.assignments@.len() && (#[trigger] self.assignments@[k]).user@
                                == u;
                        if inserted && k == self.assignments@.len() - 1 {
                            assert(assignments@[i as int - 1].user@ == u);
                        } else {
                            assert(prev[k].user@ == u);
                            assert(user_assigned(prev, u));
                        }
                    }
                    if exists|j: int| 0 <= j < i && (#[trigger] assignments@[j]).user@ == u {
                        let j = choose|j: int| 0 <= j < i && (#[trigger] assignments@[j]).user@ == u;
                        if j < i - 1 {
                            assert(user_assigned(prev, u));
                            let t = choose|t: int|
                                0 <= t < prev.len() && (#[trigger] prev[t]).user@ == u;
                            if inserted {
                                assert(self.assignments@[t] == prev[t]);
                            }
                            assert(user_assigned(self.assignments@, u));
                        } else {
                            if inserted {
                                assert(self.assignments@.last().user@ == last.user@);
                            } else {
                                assert(user_assigned(prev, last.user@));
                            }
                            assert(user_assigned(self.assignments@, u));
                        }
                    }
                }
            }
        }
        proof {
            assert(assignments@.subrange(0, m as int) =~= assignments@);
        }
    }

    /// Removes the grant `(role, object, action)`.  Returns whether it was
    /// present.
    pub fn remove_policy(&mut self, role: &str, object: &str, action: &str) -> (r: bool)
        requires
            old(self).wf(),
        ensures
            final(self).wf(),
            final(self).assignments@ == old(self).assignments@,
            final(self).policies@ == old(self).policies@.filter(
                (|p: PolicyTuple| !tuple_matches(p, role@, object@, action@)),
            ),
            r == has_policy_in(old(self).policies@, role@, object@, action@),
    {
        let present = self.has_policy(role, object, action);
        let ghost before = self.policies@;
        self.remove_filtered_policy(Some(role), Some(object), Some(action));
        proof {
            lemma_filter_congruence(
                before,
                (|p: PolicyTuple| !fields_match(p, Some(role), Some(object), Some(action))),
                (|p: PolicyTuple| !tuple_matches(p, role@, object@, action@)),
            );
        }
        present
    }
}

} // verus!
