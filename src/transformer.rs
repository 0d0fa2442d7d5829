//! Turns a fetched catalog into a cross-referenced, indexed dataset.

use vstd::prelude::*;
use crate::catalog::{
    stage_label, Changes, IamDataset, IamMetadata, IamPermission, IamRole, Indexes, RawGcpData,
};
use crate::engine::{lemma_push_contains, texts};
use crate::errors::ScraperError;
use crate::order::{sorted_unique, strictly_sorted};
use crate::table::NameTable;

verus! {

/// The positions among the first `n` labels that equal `k`, ascending.
pub open spec fn positions_of(labels: Seq<Seq<char>>, n: int, k: Seq<char>) -> Seq<usize>
    decreases n,
{
    if n <= 0 {
        Seq::empty()
    } else {
        let prev = positions_of(labels, n - 1, k);
        if labels[n - 1] == k {
            prev.push((n - 1) as usize)
        } else {
            prev
        }
    }
}

/// `t` maps each label (each non-empty one, if `skip_empty`) to the
/// positions where it occurs.
pub open spec fn groups_labels(t: NameTable<Vec<usize>>, labels: Seq<Seq<char>>, skip_empty: bool) -> bool {
    &&& t.wf()
    &&& forall|k: Seq<char>|
        #[trigger] t.keys().contains(k) <==> (labels.contains(k) && (!skip_empty || k.len() > 0))
    &&& forall|p: int|
        0 <= p < t.keys().len() ==> (#[trigger] t.entries()[p])@ == positions_of(
            labels,
            labels.len() as int,
            t.keys()[p],
        )
}

/// `i` is the last position of a label equal to `labels[i]`.
pub open spec fn last_of_label(labels: Seq<Seq<char>>, i: int) -> bool {
    forall|j: int| i < j < labels.len() ==> #[trigger] labels[j] != labels[i]
}

/// `t` maps each label to the last position where it occurs.
pub open spec fn indexes_labels(t: NameTable<usize>, labels: Seq<Seq<char>>) -> bool {
    &&& t.wf()
    &&& forall|k: Seq<char>| #[trigger] t.keys().contains(k) <==> labels.contains(k)
    &&& forall|p: int|
        0 <= p < t.keys().len() ==> {
            let i = #[trigger] t.entries()[p] as int;
            &&& i < labels.len()
            &&& labels[i] == t.keys()[p]
            &&& last_of_label(labels, i)
        }
}

/// The names of a list of roles.
pub open spec fn role_names(r: Seq<IamRole>) -> Seq<Seq<char>> {
    r.map_values(|x: IamRole| x.name@)
}

/// The stage labels of a list of roles.
pub open spec fn role_stages(r: Seq<IamRole>) -> Seq<Seq<char>> {
    r.map_values(|x: IamRole| stage_label(x.stage))
}

/// The names of a list of permissions.
pub open spec fn permission_names(p: Seq<IamPermission>) -> Seq<Seq<char>> {
    p.map_values(|x: IamPermission| x.name@)
}

/// The services of a list of permissions.
pub open spec fn permission_services(p: Seq<IamPermission>) -> Seq<Seq<char>> {
    p.map_values(|x: IamPermission| x.service@)
}

/// `idx` holds the lookup tables of `roles` and `perms`: each name to its
/// last position, each stage to the positions of its roles, and each
/// non-empty service to the positions of its permissions.
pub open spec fn indexes_of(idx: Indexes, roles: Seq<IamRole>, perms: Seq<IamPermission>) -> bool {
    &&& indexes_labels(idx.roles_by_name, role_names(roles))
    &&& indexes_labels(idx.permissions_by_name, permission_names(perms))
    &&& groups_labels(idx.roles_by_stage, role_stages(roles), false)
    &&& groups_labels(idx.permissions_by_service, permission_services(perms), true)
}

/// Some role of `roles` is named `x` and lists the permission named `p`.
pub open spec fn listed_by(roles: Seq<IamRole>, p: Seq<char>, x: Seq<char>) -> bool {
    exists|j: int|
        0 <= j < roles.len() && #[trigger] roles[j].name@ == x && texts(
            roles[j].included_permissions@,
        ).contains(p)
}

/// `a` and `b` agree on everything but the granting roles.
pub open spec fn same_record(a: IamPermission, b: IamPermission) -> bool {
    &&& a.name == b.name
    &&& a.service == b.service
    &&& a.resource == b.resource
    &&& a.action == b.action
    &&& a.description == b.description
    &&& a.custom_roles_support_level == b.custom_roles_support_level
    &&& a.stage == b.stage
    &&& a.api_disabled == b.api_disabled
}

/// `after` is `before` with references built: each permission that is the
/// last of its name gains the names of the roles that list it, and every
/// list of granting roles is sorted and free of repeats.
pub open spec fn references_built(
    roles: Seq<IamRole>,
    before: Seq<IamPermission>,
    after: Seq<IamPermission>,
) -> bool {
    &&& after.len() == before.len()
    &&& forall|i: int|
        0 <= i < after.len() ==> same_record(#[trigger] after[i], before[i]) && strictly_sorted(
            texts(after[i].roles_granting@),
        )
    &&& forall|i: int, x: Seq<char>|
        0 <= i < after.len() ==> (#[trigger] texts(after[i].roles_granting@).contains(x) <==> (
        texts(before[i].roles_granting@).contains(x) || (last_of_label(permission_names(before), i)
            && listed_by(roles, before[i].name@, x))))
}

proof fn lemma_positions_absent(labels: Seq<Seq<char>>, n: int, k: Seq<char>)
    requires
        0 <= n <= labels.len(),
        !labels.take(n).contains(k),
    ensures
        positions_of(labels, n, k) == Seq::<usize>::empty(),
    decreases n,
{
    if n > 0 {
        assert(labels.take(n)[n - 1] == labels[n - 1]);
        assert(labels.take(n - 1).contains(k) ==> labels.take(n).contains(k)) by {
            if labels.take(n - 1).contains(k) {
                let m = choose|m: int| 0 <= m < n - 1 && #[trigger] labels.take(n - 1)[m] == k;
                assert(labels.take(n)[m] == k);
            }
        }
        lemma_positions_absent(labels, n - 1, k);
    }
}

/// The positions of each label (each non-empty one, if `skip_empty`).
fn group_positions(labels: &Vec<String>, skip_empty: bool) -> (r: NameTable<Vec<usize>>)
    ensures
        groups_labels(r, texts(labels@), skip_empty),
{
    let ghost l = texts(labels@);
    let mut t: NameTable<Vec<usize>> = NameTable::new();
    let mut n: usize = 0;
    while n < labels.len()
        invariant
            l == texts(labels@),
            n <= labels@.len(),
            t.wf(),
            forall|k: Seq<char>|
                #[trigger] t.keys().contains(k) <==> (l.take(n as int).contains(k) && (!skip_empty
                    || k.len() > 0)),
            forall|p: int|
                0 <= p < t.keys().len() ==> (#[trigger] t.entries()[p])@ == positions_of(
                    l,
                    n as int,
                    t.keys()[p],
                ),
        decreases labels.len() - n,
    {
        let label = &labels[n];
        let ghost t0 = t;
        let ghost lab = l[n as int];
        proof {
            assert(l.take(n + 1) =~= l.take(n as int).push(lab));
            t0.lemma_keys_unique();
        }
        if !skip_empty || label.as_str().unicode_len() > 0 {
            t.push_to(label.clone(), n);
            proof {
                t.lemma_keys_unique();
                assert forall|k: Seq<char>|
                    #[trigger] t.keys().contains(k) <==> (l.take(n + 1).contains(k) && (!skip_empty
                        || k.len() > 0)) by {
                    lemma_push_contains(l.take(n as int), lab, k);
                    if !t0.keys().contains(lab) {
                        lemma_push_contains(t0.keys(), lab, k);
                    }
                }
                if t0.keys().contains(lab) {
                    let i0 = choose|i: int|
                        0 <= i < t0.keys().len() && t0.keys()[i] == lab && t.keys() == t0.keys()
                            && t.entries() == t0.entries().update(i, t.entries()[i])
                            && t.entries()[i]@ == t0.entries()[i]@.push(n);
                    assert forall|p: int|
                        0 <= p < t.keys().len() implies (#[trigger] t.entries()[p])@ == positions_of(
                        l,
                        n + 1,
                        t.keys()[p],
                    ) by {
                        assert(t0.entries()[p]@ == positions_of(l, n as int, t0.keys()[p]));
                        if p != i0 {
                            assert(t0.keys()[p] != t0.keys()[i0]);
                        }
                    }
                } else {
                    assert forall|p: int|
                        0 <= p < t.keys().len() implies (#[trigger] t.entries()[p])@ == positions_of(
                        l,
                        n + 1,
                        t.keys()[p],
                    ) by {
                        if p < t0.keys().len() {
                            assert(t.entries()[p] == t0.entries()[p]);
                            assert(t0.entries()[p]@ == positions_of(l, n as int, t0.keys()[p]));
                            assert(t0.keys().contains(t0.keys()[p]));
                        } else {
                            assert(!l.take(n as int).contains(lab));
                            lemma_positions_absent(l, n as int, lab);
                            assert(positions_of(l, n as int, lab).push(n) =~= seq![n]);
                        }
                    }
                }
            }
        } else {
            proof {
                assert(lab.len() == 0);
                assert forall|k: Seq<char>|
                    #[trigger] t.keys().contains(k) <==> (l.take(n + 1).contains(k) && (!skip_empty
                        || k.len() > 0)) by {
                    lemma_push_contains(l.take(n as int), lab, k);
                }
                assert forall|p: int|
                    0 <= p < t.keys().len() implies (#[trigger] t.entries()[p])@ == positions_of(
                    l,
                    n + 1,
                    t.keys()[p],
                ) by {
                    assert(t.keys().contains(t.keys()[p]));
                }
            }
        }
        n += 1;
    }
    assert(l.take(labels@.len() as int) =~= l);
    t
}

/// The last position of each label.
fn last_positions(labels: &Vec<String>) -> (r: NameTable<usize>)
    ensures
        indexes_labels(r, texts(labels@)),
{
    let ghost l = texts(labels@);
    let mut t: NameTable<usize> = NameTable::new();
    let mut n: usize = 0;
    while n < labels.len()
        invariant
            l == texts(labels@),
            n <= labels@.len(),
            t.wf(),
            forall|k: Seq<char>| #[trigger] t.keys().contains(k) <==> l.take(n as int).contains(k),
            forall|p: int|
                0 <= p < t.keys().len() ==> {
                    let i = #[trigger] t.entries()[p] as int;
                    &&& i < n
                    &&& l[i] == t.keys()[p]
                    &&& forall|j: int| i < j < n ==> #[trigger] l[j] != l[i]
                },
        decreases labels.len() - n,
    {
        let ghost t0 = t;
        let ghost lab = l[n as int];
        proof {
            assert(l.take(n + 1) =~= l.take(n as int).push(lab));
            t0.lemma_keys_unique();
        }
        t.insert(labels[n].clone(), n);
        proof {
            t.lemma_keys_unique();
            assert forall|k: Seq<char>| #[trigger] t.keys().contains(k) <==> l.take(n + 1).contains(k) by {
                lemma_push_contains(l.take(n as int), lab, k);
                if !t0.keys().contains(lab) {
                    lemma_push_contains(t0.keys(), lab, k);
                }
            }
            if t0.keys().contains(lab) {
                let i0 = choose|i: int|
                    0 <= i < t0.keys().len() && t0.keys()[i] == lab && t.keys() == t0.keys()
                        && t.entries() == t0.entries().update(i, n);
                assert forall|p: int| 0 <= p < t.keys().len() implies {
                    let i = #[trigger] t.entries()[p] as int;
                    &&& i < n + 1
                    &&& l[i] == t.keys()[p]
                    &&& forall|j: int| i < j < n + 1 ==> #[trigger] l[j] != l[i]
                } by {
                    if p != i0 {
                        assert(t0.keys()[p] != t0.keys()[i0]);
                        assert(t.entries()[p] == t0.entries()[p]);
                    }
                }
            } else {
                assert forall|p: int| 0 <= p < t.keys().len() implies {
                    let i = #[trigger] t.entries()[p] as int;
                    &&& i < n + 1
                    &&& l[i] == t.keys()[p]
                    &&& forall|j: int| i < j < n + 1 ==> #[trigger] l[j] != l[i]
                } by {
                    if p < t0.keys().len() {
                        assert(t.entries()[p] == t0.entries()[p]);
                        assert(t0.keys().contains(t0.keys()[p]));
                    }
                }
            }
        }
        n += 1;
    }
    assert(l.take(labels@.len() as int) =~= l);
    t
}

/// Records `role_name` among the granting roles of each permission in
/// `listed`, on the last permission of that name.
fn record_grantor(
    permissions: &mut Vec<IamPermission>,
    slots: &NameTable<usize>,
    role_name: &String,
    listed: &Vec<String>,
)
    requires
        indexes_labels(*slots, permission_names(old(permissions)@)),
    ensures
        final(permissions)@.len() == old(permissions)@.len(),
        forall|i: int|
            0 <= i < final(permissions)@.len() ==> same_record(
                #[trigger] final(permissions)@[i],
                old(permissions)@[i],
            ),
        forall|i: int, x: Seq<char>|
            0 <= i < final(permissions)@.len() ==> (#[trigger] texts(
                final(permissions)@[i].roles_granting@,
            ).contains(x) <==> (texts(old(permissions)@[i].roles_granting@).contains(x) || (x
                == role_name@ && last_of_label(permission_names(old(permissions)@), i) && texts(
                listed@,
            ).contains(old(permissions)@[i].name@)))),
{
    let ghost names = permission_names(permissions@);
    let ghost ls = texts(listed@);
    let mut k: usize = 0;
    proof {
        slots.lemma_keys_unique();
    }
    while k < listed.len()
        invariant
            indexes_labels(*slots, names),
            names == permission_names(old(permissions)@),
            ls == texts(listed@),
            k <= listed@.len(),
            permissions@.len() == old(permissions)@.len(),
            forall|i: int|
                0 <= i < permissions@.len() ==> same_record(
                    #[trigger] permissions@[i],
                    old(permissions)@[i],
                ),
            forall|i: int, x: Seq<char>|
                0 <= i < permissions@.len() ==> (#[trigger] texts(
                    permissions@[i].roles_granting@,
                ).contains(x) <==> (texts(old(permissions)@[i].roles_granting@).contains(x) || (x
                    == role_name@ && last_of_label(names, i) && ls.take(k as int).contains(
                    names[i],
                )))),
        decreases listed.len() - k,
    {
        let ghost prior = permissions@;
        let ghost pname = ls[k as int];
        proof {
            assert(ls.take(k + 1) =~= ls.take(k as int).push(pname));
            slots.lemma_keys_unique();
        }
        match slots.get(listed[k].as_str()) {
            Some(slot) => {
                let idx = *slot;
                proof {
                    let p = choose|p: int|
                        0 <= p < slots.keys().len() && slots.keys()[p] == pname && slots.entries()[p]
                            == idx;
                    assert(slots.entries()[p] == idx);
                }
                permissions[idx].roles_granting.push(role_name.clone());
                proof {
                    assert forall|i: int| 0 <= i < permissions@.len() implies same_record(
                        #[trigger] permissions@[i],
                        old(permissions)@[i],
                    ) by {
                        assert(same_record(prior[i], old(permissions)@[i]));
                    }
                    assert forall|i: int, x: Seq<char>|
                        0 <= i < permissions@.len() implies (#[trigger] texts(
                            permissions@[i].roles_granting@,
                        ).contains(x) <==> (texts(old(permissions)@[i].roles_granting@).contains(x)
                            || (x == role_name@ && last_of_label(names, i) && ls.take(
                            k + 1,
                        ).contains(names[i])))) by {
                        lemma_push_contains(ls.take(k as int), pname, names[i]);
                        assert(texts(prior[i].roles_granting@).contains(x) <==> (texts(
                            old(permissions)@[i].roles_granting@,
                        ).contains(x) || (x == role_name@ && last_of_label(names, i) && ls.take(
                            k as int,
                        ).contains(names[i]))));
                        assert(names[i] == prior[i].name@);
                        if i == idx {
                            assert(texts(permissions@[i].roles_granting@) =~= texts(
                                prior[i].roles_granting@,
                            ).push(role_name@));
                            lemma_push_contains(texts(prior[i].roles_granting@), role_name@, x);
                        } else {
                            assert(permissions@[i] == prior[i]);
                            if names[i] == pname && last_of_label(names, i) {
                                assert(last_of_label(names, idx as int));
                                if i < idx {
                                    assert(names[idx as int] != names[i]);
                                } else {
                                    assert(names[i] != names[idx as int]);
                                }
                            }
                        }
                    }
                }
            },
            None => {
                proof {
                    assert forall|i: int, x: Seq<char>|
                        0 <= i < permissions@.len() implies (#[trigger] texts(
                            permissions@[i].roles_granting@,
                        ).contains(x) <==> (texts(old(permissions)@[i].roles_granting@).contains(x)
                            || (x == role_name@ && last_of_label(names, i) && ls.take(
                            k + 1,
                        ).contains(names[i])))) by {
                        lemma_push_contains(ls.take(k as int), pname, names[i]);
                        if names[i] == pname {
                            assert(names.contains(pname));
                        }
                    }
                }
            },
        }
        k += 1;
    }
    assert(ls.take(listed@.len() as int) =~= ls);
}

/// A unit of work that cross-references and indexes a fetched catalog.
pub struct DataTransformer;

impl Default for DataTransformer {
    fn default() -> (r: DataTransformer)
        ensures
            r == DataTransformer,
    {
        DataTransformer
    }
}

impl DataTransformer {
    /// A transformer; it holds no state.
    pub fn new() -> (r: DataTransformer)
        ensures
            r == DataTransformer,
    {
        DataTransformer
    }

    /// Records on each permission the roles that list it, then sorts each
    /// list of granting roles and drops repeats. A permission name that
    /// occurs more than once gets its roles on its last occurrence.
    pub fn build_role_permission_references(
        &self,
        roles: &mut Vec<IamRole>,
        permissions: &mut Vec<IamPermission>,
    )
        ensures
            *final(roles) == *old(roles),
            references_built(old(roles)@, old(permissions)@, final(permissions)@),
    {
        let mut names: Vec<String> = Vec::new();
        let mut k: usize = 0;
        while k < permissions.len()
            invariant
                k <= permissions@.len(),
                texts(names@) == permission_names(permissions@).take(k as int),
            decreases permissions.len() - k,
        {
            let ghost n0 = names@;
            names.push(permissions[k].name.clone());
            assert(texts(names@) =~= texts(n0).push(permissions@[k as int].name@));
            assert(permission_names(permissions@).take(k + 1) =~= permission_names(permissions@).take(
                k as int,
            ).push(permissions@[k as int].name@));
            k += 1;
        }
        assert(permission_names(permissions@).take(permissions@.len() as int) =~= permission_names(
            permissions@,
        ));
        let slots = last_positions(&names);
        let ghost pn = permission_names(old(permissions)@);
        let mut j: usize = 0;
        while j < roles.len()
            invariant
                *roles == *old(roles),
                j <= roles@.len(),
                indexes_labels(slots, pn),
                pn == permission_names(old(permissions)@),
                permissions@.len() == old(permissions)@.len(),
                forall|i: int|
                    0 <= i < permissions@.len() ==> same_record(
                        #[trigger] permissions@[i],
                        old(permissions)@[i],
                    ),
                forall|i: int, x: Seq<char>|
                    0 <= i < permissions@.len() ==> (#[trigger] texts(
                        permissions@[i].roles_granting@,
                    ).contains(x) <==> (texts(old(permissions)@[i].roles_granting@).contains(x) || (
                    last_of_label(pn, i) && listed_by(roles@.take(j as int), pn[i], x)))),
            decreases roles.len() - j,
        {
            let ghost prior = permissions@;
            proof {
                assert(permission_names(prior) =~= pn);
            }
            record_grantor(permissions, &slots, &roles[j].name, &roles[j].included_permissions);
            proof {
                let r1 = roles@.take(j + 1);
                let r0 = roles@.take(j as int);
                assert forall|i: int, x: Seq<char>|
                    0 <= i < permissions@.len() implies (#[trigger] texts(
                        permissions@[i].roles_granting@,
                    ).contains(x) <==> (texts(old(permissions)@[i].roles_granting@).contains(x) || (
                    last_of_label(pn, i) && listed_by(r1, pn[i], x)))) by {
                    assert(same_record(prior[i], old(permissions)@[i]));
                    assert(texts(prior[i].roles_granting@).contains(x) <==> (texts(
                        old(permissions)@[i].roles_granting@,
                    ).contains(x) || (last_of_label(pn, i) && listed_by(r0, pn[i], x))));
                    if listed_by(r1, pn[i], x) {
                        let w = choose|w: int|
                            0 <= w < r1.len() && #[trigger] r1[w].name@ == x && texts(
                                r1[w].included_permissions@,
                            ).contains(pn[i]);
                        if w < j {
                            assert(r0[w] == r1[w]);
                        }
                    }
                    if listed_by(r0, pn[i], x) {
                        let w = choose|w: int|
                            0 <= w < r0.len() && #[trigger] r0[w].name@ == x && texts(
                                r0[w].included_permissions@,
                            ).contains(pn[i]);
                        assert(r1[w] == r0[w]);
                    }
                    if x == roles@[j as int].name@ && texts(roles@[j as int].included_permissions@).contains(
                        pn[i],
                    ) {
                        assert(r1[j as int] == roles@[j as int]);
                    }
                }
            }
            j += 1;
        }
        assert(roles@.take(roles@.len() as int) =~= roles@);
        let ghost mid = permissions@;
        let mut i: usize = 0;
        while i < permissions.len()
            invariant
                i <= permissions@.len(),
                permissions@.len() == mid.len(),
                forall|m: int|
                    0 <= m < mid.len() ==> same_record(#[trigger] permissions@[m], mid[m]),
                forall|m: int, x: Seq<char>|
                    0 <= m < mid.len() ==> (#[trigger] texts(permissions@[m].roles_granting@).contains(
                        x,
                    ) <==> texts(mid[m].roles_granting@).contains(x)),
                forall|m: int| 0 <= m < i ==> strictly_sorted(texts((#[trigger] permissions@[m]).roles_granting@)),
            decreases permissions.len() - i,
        {
            let sorted = sorted_unique(&permissions[i].roles_granting);
            let ghost prior = permissions@;
            permissions[i].roles_granting = sorted;
            proof {
                assert forall|m: int, x: Seq<char>|
                    0 <= m < mid.len() implies (#[trigger] texts(permissions@[m].roles_granting@).contains(
                        x,
                    ) <==> texts(mid[m].roles_granting@).contains(x)) by {
                    assert(texts(prior[m].roles_granting@).contains(x) <==> texts(mid[m].roles_granting@).contains(x));
                }
                assert forall|m: int| 0 <= m < mid.len() implies same_record(#[trigger] permissions@[m], mid[m]) by {
                    assert(same_record(prior[m], mid[m]));
                }
                assert forall|m: int| 0 <= m < i + 1 implies strictly_sorted(texts((#[trigger] permissions@[m]).roles_granting@)) by {
                    if m < i {
                        assert(permissions@[m] == prior[m]);
                    }
                }
            }
            i += 1;
        }
        proof {
            assert forall|m: int| 0 <= m < permissions@.len() implies same_record(#[trigger] permissions@[m], old(permissions)@[m]) by {
                assert(same_record(permissions@[m], mid[m]));
                assert(same_record(mid[m], old(permissions)@[m]));
            }
            assert forall|m: int, x: Seq<char>|
                0 <= m < permissions@.len() implies (#[trigger] texts(permissions@[m].roles_granting@).contains(x) <==> (
                texts(old(permissions)@[m].roles_granting@).contains(x) || (last_of_label(
                    permission_names(old(permissions)@),
                    m,
                ) && listed_by(old(roles)@, old(permissions)@[m].name@, x)))) by {
                assert(texts(mid[m].roles_granting@).contains(x) <==> (texts(old(permissions)@[m].roles_granting@).contains(x) || (
                    last_of_label(pn, m) && listed_by(roles@, pn[m], x))));
                assert(pn[m] == old(permissions)@[m].name@);
            }
        }
    }

    /// Cross-references and indexes a fetched catalog: roles are kept as they
    /// are, permissions gain their granting roles, and the metadata counts
    /// both and records when the catalog was fetched.
    pub fn transform(&self, raw_data: RawGcpData) -> (r: Result<IamDataset, ScraperError>)
        ensures
            r is Ok,
            ({
                let d = r->Ok_0;
                &&& d.roles == raw_data.roles
                &&& references_built(raw_data.roles@, raw_data.permissions@, d.permissions@)
                &&& indexes_of(d.indexes, d.roles@, d.permissions@)
                &&& d.metadata.last_updated == raw_data.fetched_at
                &&& d.metadata.total_roles == d.roles@.len()
                &&& d.metadata.total_permissions == d.permissions@.len()
                &&& d.metadata.gcp_api_version@ == "v1"@
                &&& d.metadata.changes_since_last_run.roles_added@.len() == 0
                &&& d.metadata.changes_since_last_run.roles_removed@.len() == 0
                &&& d.metadata.changes_since_last_run.roles_modified@.len() == 0
                &&& d.metadata.changes_since_last_run.permissions_added@.len() == 0
                &&& d.metadata.changes_since_last_run.permissions_removed@.len() == 0
            }),
    {
        let mut roles = raw_data.roles;
        let mut permissions = raw_data.permissions;
        self.build_role_permission_references(&mut roles, &mut permissions);
        let indexes = self.build_indexes(&roles, &permissions);
        let total_roles = roles.len();
        let total_permissions = permissions.len();
        let metadata = IamMetadata {
            last_updated: raw_data.fetched_at,
            total_roles,
            total_permissions,
            gcp_api_version: String::from_str("v1"),
            changes_since_last_run: Changes::default(),
        };
        Ok(IamDataset { metadata, roles, permissions, indexes })
    }

    /// The lookup tables of a role list and a permission list.
    pub fn build_indexes(&self, roles: &Vec<IamRole>, permissions: &Vec<IamPermission>) -> (r: Indexes)
        ensures
            indexes_of(r, roles@, permissions@),
    {
        let mut names: Vec<String> = Vec::new();
        let mut stages: Vec<String> = Vec::new();
        let mut i: usize = 0;
        while i < roles.len()
            invariant
                i <= roles@.len(),
                texts(names@) == role_names(roles@).take(i as int),
                texts(stages@) == role_stages(roles@).take(i as int),
            decreases roles.len() - i,
        {
            let ghost n0 = names@;
            let ghost s0 = stages@;
            names.push(roles[i].name.clone());
            stages.push(roles[i].stage.label());
            assert(texts(names@) =~= texts(n0).push(roles@[i as int].name@));
            assert(texts(stages@) =~= texts(s0).push(stage_label(roles@[i as int].stage)));
            assert(role_names(roles@).take(i + 1) =~= role_names(roles@).take(i as int).push(
                roles@[i as int].name@,
            ));
            assert(role_stages(roles@).take(i + 1) =~= role_stages(roles@).take(i as int).push(
                stage_label(roles@[i as int].stage),
            ));
            i += 1;
        }
        assert(role_names(roles@).take(roles@.len() as int) =~= role_names(roles@));
        assert(role_stages(roles@).take(roles@.len() as int) =~= role_stages(roles@));
        let mut pnames: Vec<String> = Vec::new();
        let mut services: Vec<String> = Vec::new();
        let mut k: usize = 0;
        while k < permissions.len()
            invariant
                k <= permissions@.len(),
                texts(pnames@) == permission_names(permissions@).take(k as int),
                texts(services@) == permission_services(permissions@).take(k as int),
            decreases permissions.len() - k,
        {
            let ghost n0 = pnames@;
            let ghost s0 = services@;
            pnames.push(permissions[k].name.clone());
            services.push(permissions[k].service.clone());
            assert(texts(pnames@) =~= texts(n0).push(permissions@[k as int].name@));
            assert(texts(services@) =~= texts(s0).push(permissions@[k as int].service@));
            assert(permission_names(permissions@).take(k + 1) =~= permission_names(permissions@).take(
                k as int,
            ).push(permissions@[k as int].name@));
            assert(permission_services(permissions@).take(k + 1) =~= permission_services(
                permissions@,
            ).take(k as int).push(permissions@[k as int].service@));
            k += 1;
        }
        assert(permission_names(permissions@).take(permissions@.len() as int) =~= permission_names(
            permissions@,
        ));
        assert(permission_services(permissions@).take(permissions@.len() as int)
            =~= permission_services(permissions@));
        Indexes {
            roles_by_name: last_positions(&names),
            permissions_by_name: last_positions(&pnames),
            roles_by_stage: group_positions(&stages, false),
            permissions_by_service: group_positions(&services, true),
        }
    }
}

} // verus!
