//! The permission catalog: the fixed, compiled-in set of valid
//! `(object, action)` permission descriptors.  Only descriptors present here
//! may be granted to a role; each is denoted by the key `"object_action"`.

use vstd::prelude::*;
use vstd::string::StringExecFns;
use crate::text::{key_of, str_eq};

verus! {

/// One `(object, action)` permission descriptor.
#[derive(Clone, Debug)]
pub struct Permission {
    pub object: String,
    pub action: String,
}

/// Whether `(object, action)` is a descriptor of the catalog.
pub open spec fn in_catalog(object: Seq<char>, action: Seq<char>) -> bool {
    ||| (object == "instance"@ && action == "manage"@)
    ||| (object == "user"@ && action == "manage"@)
    ||| (object == "change"@ && action == "forbid"@)
}

/// Whether a key denotes a descriptor of the catalog.
pub open spec fn is_catalog_key(k: Seq<char>) -> bool {
    ||| k == "instance_manage"@
    ||| k == "user_manage"@
    ||| k == "change_forbid"@
}

/// The `(object, action)` pair a catalog key denotes.
pub open spec fn catalog_pair_of(k: Seq<char>) -> (Seq<char>, Seq<char>) {
    if k == "instance_manage"@ {
        ("instance"@, "manage"@)
    } else if k == "user_manage"@ {
        ("user"@, "manage"@)
    } else {
        ("change"@, "forbid"@)
    }
}

/// `key_of` and `catalog_pair_of` are inverse bijections between catalog
/// descriptors and catalog keys.
pub proof fn lemma_catalog_keys()
    ensures
        forall|o: Seq<char>, a: Seq<char>| #[trigger] in_catalog(o, a) ==>
            is_catalog_key(key_of(o, a)) && catalog_pair_of(key_of(o, a)) == (o, a),
        forall|k: Seq<char>| #[trigger] is_catalog_key(k) ==>
            in_catalog(catalog_pair_of(k).0, catalog_pair_of(k).1)
                && key_of(catalog_pair_of(k).0, catalog_pair_of(k).1) == k,
{
    reveal_strlit("instance");
    reveal_strlit("user");
    reveal_strlit("change");
    reveal_strlit("manage");
    reveal_strlit("forbid");
    reveal_strlit("_");
    reveal_strlit("instance_manage");
    reveal_strlit("user_manage");
    reveal_strlit("change_forbid");
    assert(key_of("instance"@, "manage"@) =~= "instance_manage"@);
    assert(key_of("user"@, "manage"@) =~= "user_manage"@);
    assert(key_of("change"@, "forbid"@) =~= "change_forbid"@);
}

/// Lists every descriptor of the catalog.
pub fn catalog() -> (r: Vec<Permission>)
    ensures
        r@.len() == 3,
        r@[0].object@ == "instance"@ && r@[0].action@ == "manage"@,
        r@[1].object@ == "user"@ && r@[1].action@ == "manage"@,
        r@[2].object@ == "change"@ && r@[2].action@ == "forbid"@,
        forall|i: int| 0 <= i < r@.len() ==>
            in_catalog(#[trigger] r@[i].object@, r@[i].action@),
{
    let mut v: Vec<Permission> = Vec::new();
    v.push(Permission { object: String::from_str("instance"), action: String::from_str("manage") });
    v.push(Permission { object: String::from_str("user"), action: String::from_str("manage") });
    v.push(Permission { object: String::from_str("change"), action: String::from_str("forbid") });
    v
}

/// Whether `(object, action)` is a descriptor of the catalog.
pub fn catalog_contains(object: &str, action: &str) -> (r: bool)
    ensures
        r == in_catalog(object@, action@),
{
    (str_eq(object, "instance") && str_eq(action, "manage"))
        || (str_eq(object, "user") && str_eq(action, "manage"))
        || (str_eq(object, "change") && str_eq(action, "forbid"))
}

/// Looks a key up in the catalog; `None` exactly when no descriptor has
/// this key.
pub fn catalog_lookup(key: &str) -> (r: Option<Permission>)
    ensures
        r is Some <==> is_catalog_key(key@),
        r matches Some(p) ==> {
            &&& in_catalog(p.object@, p.action@)
            &&& key_of(p.object@, p.action@) == key@
            &&& (p.object@, p.action@) == catalog_pair_of(key@)
        },
{
    proof {
        reveal_strlit("instance");
        reveal_strlit("user");
        reveal_strlit("change");
        reveal_strlit("manage");
        reveal_strlit("forbid");
        reveal_strlit("_");
        reveal_strlit("instance_manage");
        reveal_strlit("user_manage");
        reveal_strlit("change_forbid");
        assert(key_of("instance"@, "manage"@) =~= "instance_manage"@);
        assert(key_of("user"@, "manage"@) =~= "user_manage"@);
        assert(key_of("change"@, "forbid"@) =~= "change_forbid"@);
    }
    if str_eq(key, "instance_manage") {
        Some(Permission { object: String::from_str("instance"), action: String::from_str("manage") })
    } else if str_eq(key, "user_manage") {
        Some(Permission { object: String::from_str("user"), action: String::from_str("manage") })
    } else if str_eq(key, "change_forbid") {
        Some(Permission { object: String::from_str("change"), action: String::from_str("forbid") })
    } else {
        None
    }
}

} // verus!
