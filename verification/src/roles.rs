//! The role manager: mutations of the role-assignment relation and the
//! cascading role delete.  It maintains the rule that a user holds at most
//! one role — assigning a new role revokes the previous one in the same
//! exclusive operation, so no reader ever observes a user between roles.

use vstd::prelude::*;
use vstd::seq_lib::group_seq_lib_default;
use crate::store::{
    assignment_fields_match, fields_match, has_assignment_in, has_policy_in,
    lemma_filter_congruence, lemma_filter_subset, PolicyStore, PolicyTuple, RoleAssignment,
};

verus! {

broadcast use group_seq_lib_default;

/// What assigning `role` to `user` does to the assignment relation: a
/// no-op when the user already holds exactly this role, else every
/// assignment of the user is dropped and the single new one appended.
pub open spec fn role_assignment_transition(
    pre: Seq<RoleAssignment>,
    post: Seq<RoleAssignment>,
    user: Seq<char>,
    role: Seq<char>,
) -> bool {
    if has_assignment_in(pre, user, role) {
        post == pre
    } else {
        let kept = pre.filter((|a: RoleAssignment| a.user@ != user));
        &&& post.len() == kept.len() + 1
        &&& post.drop_last() == kept
        &&& post.last().user@ == user
        &&& post.last().role@ == role
    }
}

impl PolicyStore {
    /// Removes every role assignment the user holds; no error if none
    /// exist.  Grants are untouched.
    pub fn delete_role_for_user(&mut self, user_id: &str)
        requires
            old(self).wf(),
        ensures
            final(self).wf(),
            final(self).policies@ == old(self).policies@,
            final(self).assignments@ == old(self).assignments@.filter(
                (|a: RoleAssignment| a.user@ != user_id@),
            ),
            forall|r: Seq<char>| !has_assignment_in(final(self).assignments@, user_id@, r),
            forall|u: Seq<char>, r: Seq<char>|
                u != user_id@ ==> (has_assignment_in(final(self).assignments@, u, r)
                    <==> has_assignment_in(old(self).assignments@, u, r)),
    {
        let ghost before = self.assignments@;
        self.remove_filtered_assignment(Some(user_id), None);
        proof {
            let keep = (|a: RoleAssignment| a.user@ != user_id@);
            lemma_filter_congruence(
                before,
                (|a: RoleAssignment| !assignment_fields_match(a, Some(user_id), None)),
                keep,
            );
            lemma_filter_subset(before, keep);
            assert forall|r: Seq<char>| !has_assignment_in(
                self.assignments@,
                user_id@,
                r,
            ) by {
                if has_assignment_in(self.assignments@, user_id@, r) {
                    let i = choose|i: int|
                        0 <= i < self.assignments@.len() && (#[trigger] self.assignments@[i]).user@
                            == user_id@ && self.assignments@[i].role@ == r;
                }
            }
            assert forall|u: Seq<char>, r: Seq<char>| u != user_id@ implies (has_assignment_in(
                self.assignments@,
                u,
                r,
            ) <==> has_assignment_in(before, u, r)) by {
                if has_assignment_in(self.assignments@, u, r) {
                    let i = choose|i: int|
                        0 <= i < self.assignments@.len() && (#[trigger] self.assignments@[i]).user@
                            == u && self.assignments@[i].role@ == r;
                    assert(self.assignments@.contains(self.assignments@[i]));
                    assert(before.contains(self.assignments@[i]));
                    let j = choose|j: int| 0 <= j < before.len() && before[j] == self.assignments@[i];
                }
                if has_assignment_in(before, u, r) {
                    let i = choose|i: int|
                        0 <= i < before.len() && (#[trigger] before[i]).user@ == u
                            && before[i].role@ == r;
                    assert(keep(before[i]));
                    assert(self.assignments@.contains(before[i]));
                    let j = choose|j: int|
                        0 <= j < self.assignments@.len() && self.assignments@[j] == before[i];
                }
            }
        }
    }

    /// Deletes a role: cascades over both relations, removing every
    /// assignment referencing the role and every grant it holds.
    pub fn delete_role(&mut self, role_id: &str)
        requires
            old(self).wf(),
        ensures
            final(self).wf(),
            final(self).policies@ == old(self).policies@.filter(
                (|p: PolicyTuple| p.role@ != role_id@),
            ),
            final(self).assignments@ == old(self).assignments@.filter(
                (|a: RoleAssignment| a.role@ != role_id@),
            ),
            forall|o: Seq<char>, a: Seq<char>| !has_policy_in(final(self).policies@, role_id@, o, a),
            forall|r2: Seq<char>, o: Seq<char>, a: Seq<char>|
                r2 != role_id@ ==> (has_policy_in(final(self).policies@, r2, o, a)
                    <==> has_policy_in(old(self).policies@, r2, o, a)),
            forall|u: Seq<char>, r2: Seq<char>|
                #[trigger] has_assignment_in(final(self).assignments@, u, r2) <==> (r2 != role_id@
                    && has_assignment_in(old(self).assignments@, u, r2)),
    {
        let ghost before_p = self.policies@;
        let ghost before_a = self.assignments@;
        self.remove_filtered_policy(Some(role_id), None, None);
        self.remove_filtered_assignment(None, Some(role_id));
        proof {
            let keep_p = (|p: PolicyTuple| p.role@ != role_id@);
            let keep_a = (|a: RoleAssignment| a.role@ != role_id@);
            lemma_filter_congruence(
                before_p,
                (|p: PolicyTuple| !fields_match(p, Some(role_id), None, None)),
                keep_p,
            );
            lemma_filter_congruence(
                before_a,
                (|a: RoleAssignment| !assignment_fields_match(a, None, Some(role_id))),
                keep_a,
            );
            lemma_filter_subset(before_p, keep_p);
            lemma_filter_subset(before_a, keep_a);
            assert forall|r2: Seq<char>, o: Seq<char>, a: Seq<char>| #![auto]
                (has_policy_in(self.policies@, r2, o, a) && r2 != role_id@) == has_policy_in(
                    self.policies@,
                    r2,
                    o,
                    a,
                ) && (r2 != role_id@ ==> (has_policy_in(self.policies@, r2, o, a)
                    <==> has_policy_in(before_p, r2, o, a))) && !has_policy_in(
                    self.policies@,
                    role_id@,
                    o,
                    a,
                ) by {
                if has_policy_in(self.policies@, r2, o, a) {
                    let i = choose|i: int|
                        0 <= i < self.policies@.len() && crate::store::tuple_matches(
                            #[trigger] self.policies@[i],
                            r2,
                            o,
                            a,
                        );
                    assert(keep_p(self.policies@[i]));
                    assert(self.policies@.contains(self.policies@[i]));
                    assert(before_p.contains(self.policies@[i]));
                    let j = choose|j: int| 0 <= j < before_p.len() && before_p[j] == self.policies@[i];
                }
                if has_policy_in(self.policies@, role_id@, o, a) {
                    let i = choose|i: int|
                        0 <= i < self.policies@.len() && crate::store::tuple_matches(
                            #[trigger] self.policies@[i],
                            role_id@,
                            o,
                            a,
                        );
                    assert(keep_p(self.policies@[i]));
                }
                if r2 != role_id@ && has_policy_in(before_p, r2, o, a) {
                    let i = choose|i: int|
                        0 <= i < before_p.len() && crate::store::tuple_matches(
                            #[trigger] before_p[i],
                            r2,
                            o,
                            a,
                        );
                    assert(keep_p(before_p[i]));
                    assert(self.policies@.contains(before_p[i]));
                    let j = choose|j: int|
                        0 <= j < self.policies@.len() && self.policies@[j] == before_p[i];
                }
            }
            assert forall|u: Seq<char>, r2: Seq<char>|
                #[trigger] has_assignment_in(self.assignments@, u, r2) <==> (r2 != role_id@
                    && has_assignment_in(before_a, u, r2)) by {
                if has_assignment_in(self.assignments@, u, r2) {
                    let i = choose|i: int|
                        0 <= i < self.assignments@.len() && (#[trigger] self.assignments@[i]).user@
                            == u && self.assignments@[i].role@ == r2;
                    assert(keep_a(self.assignments@[i]));
                    assert(self.assignments@.contains(self.assignments@[i]));
                    assert(before_a.contains(self.assignments@[i]));
                    let j = choose|j: int|
                        0 <= j < before_a.len() && before_a[j] == self.assignments@[i];
                }
                if r2 != role_id@ && has_assignment_in(before_a, u, r2) {
                    let i = choose|i: int|
                        0 <= i < before_a.len() && (#[trigger] before_a[i]).user@ == u
                            && before_a[i].role@ == r2;
                    assert(keep_a(before_a[i]));
                    assert(self.assignments@.contains(before_a[i]));
                    let j = choose|j: int|
                        0 <= j < self.assignments@.len() && self.assignments@[j] == before_a[i];
                }
            }
        }
    }

    /// Assigns the role to the user.  If the user already holds exactly
    /// this role the call is a no-op; otherwise every current assignment of
    /// the user is revoked and the single new one added, as one exclusive
    /// operation.
    pub fn set_role_for_user(&mut self, user_id: &str, role_id: &str)
        requires
            old(self).wf(),
        ensures
            final(self).wf(),
            final(self).policies@ == old(self).policies@,
            role_assignment_transition(
                old(self).assignments@,
                final(self).assignments@,
                user_id@,
                role_id@,
            ),
            forall|r2: Seq<char>|
                #[trigger] has_assignment_in(final(self).assignments@, user_id@, r2) <==> r2
                    == role_id@,
            forall|u: Seq<char>, r2: Seq<char>|
                u != user_id@ ==> (has_assignment_in(final(self).assignments@, u, r2)
                    <==> has_assignment_in(old(self).assignments@, u, r2)),
    {
        let ghost before = self.assignments@;
        if self.has_role_for_user(user_id, role_id) {
            proof {
                assert forall|r2: Seq<char>|
                    #[trigger] has_assignment_in(self.assignments@, user_id@, r2) implies r2
                        == role_id@ by {
                    let i = choose|i: int|
                        0 <= i < self.assignments@.len() && (#[trigger] self.assignments@[i]).user@
                            == user_id@ && self.assignments@[i].role@ == r2;
                    let j = choose|j: int|
                        0 <= j < self.assignments@.len() && (#[trigger] self.assignments@[j]).user@
                            == user_id@ && self.assignments@[j].role@ == role_id@;
                    assert(i == j);
                }
            }
            return;
        }
        self.delete_role_for_user(user_id);
        let inserted = self.add_role_for_user(user_id, role_id);
        proof {
            assert(inserted);
            let kept = before.filter((|a: RoleAssignment| a.user@ != user_id@));
            let last = self.assignments@.last();
            assert forall|r2: Seq<char>|
                #[trigger] has_assignment_in(self.assignments@, user_id@, r2) implies r2
                    == role_id@ by {
                let i = choose|i: int|
                    0 <= i < self.assignments@.len() && (#[trigger] self.assignments@[i]).user@
                        == user_id@ && self.assignments@[i].role@ == r2;
                if i < kept.len() {
                    assert(kept[i] == self.assignments@[i]);
                    assert(kept[i].user@ != user_id@);
                }
            }
            assert(has_assignment_in(self.assignments@, user_id@, role_id@)) by {
                assert(self.assignments@[self.assignments@.len() - 1].user@ == user_id@);
            }
            assert forall|u: Seq<char>, r2: Seq<char>| u != user_id@ implies (has_assignment_in(
                self.assignments@,
                u,
                r2,
            ) <==> has_assignment_in(before, u, r2)) by {
                if has_assignment_in(self.assignments@, u, r2) {
                    let i = choose|i: int|
                        0 <= i < self.assignments@.len() && (#[trigger] self.assignments@[i]).user@
                            == u && self.assignments@[i].role@ == r2;
                    assert(i < kept.len());
                    assert(kept[i] == self.assignments@[i]);
                    assert(has_assignment_in(kept, u, r2));
                }
                if has_assignment_in(kept, u, r2) {
                    let i = choose|i: int|
                        0 <= i < kept.len() && (#[trigger] kept[i]).user@ == u && kept[i].role@
                            == r2;
                    assert(self.assignments@[i] == kept[i]);
                }
            }
        }
    }
}

} // verus!
