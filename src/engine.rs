//! Entity tables, cross-references, the lexical index and the query engine.

use vstd::prelude::*;
use std::collections::HashMap;
use crate::models::{mode_named, SearchMode};
use crate::ngram::{extract_ngrams, ngrams, similarity, similarity_to, views};
use crate::score::{exact_score, prefix_score, substring_score, Score};
use crate::segments::{segment, split_permission_name};
use crate::text::{
    chars_of, contains_text, has_prefix, has_substring, lower_of, same_chars, starts_with, to_lower,
};

verus! {

/// A bundle of permissions.
#[derive(Clone, Debug)]
pub struct Role {
    pub name: String,
    pub title: String,
    pub description: String,
    pub stage: String,
    pub included_permissions: Vec<String>,
}

/// A grantable action, named `service.resource.action`.
#[derive(Clone, Debug)]
pub struct Permission {
    pub name: String,
    pub service: String,
    pub resource: String,
    pub action: String,
    pub granted_by_roles: Vec<String>,
}

/// A role as embedded in a permission's search result.
#[derive(Clone, Debug)]
pub struct RoleSummary {
    pub name: String,
    pub title: String,
    pub stage: String,
}

/// A matching permission with the roles that grant it.
#[derive(Clone, Debug)]
pub struct PermissionSearchResult {
    pub name: String,
    pub service: String,
    pub resource: String,
    pub action: String,
    pub score: Score,
    pub granted_by_roles: Vec<RoleSummary>,
}

/// A matching role with a sample of its permissions.
#[derive(Clone, Debug)]
pub struct RoleSearchResult {
    pub name: String,
    pub title: String,
    pub description: String,
    pub stage: String,
    pub score: Score,
    pub permission_count: usize,
    pub sample_permissions: Vec<String>,
}

/// A single-mode match: the permission's name and its score.
#[derive(Clone, Debug)]
pub struct SearchResult<T> {
    pub item: T,
    pub score: Score,
}

/// Score of a match in the single-mode prefix search: 0.8.
pub open spec fn plain_prefix_score() -> Score {
    Score { num: 8, den: 10 }
}

/// The positions and scores of a list of matches.
pub open spec fn hit_view(v: Seq<(usize, Score)>) -> Seq<(int, Score)> {
    v.map_values(|h: (usize, Score)| (h.0 as int, h.1))
}

/// Most matches that one query returns.
pub const MAX_RESULTS: usize = 20;

/// Most roles embedded in a permission's result, and most permissions
/// sampled in a role's result.
pub const MAX_EMBEDDED: usize = 5;

/// How a permission named `name` matches query `q`: an exact name match
/// scores 1, a case-insensitive prefix match 0.9; in fuzzy mode a
/// case-insensitive substring match scores 0.85, and otherwise the trigram
/// similarity counts when it reaches `threshold`.
pub open spec fn permission_score(name: Seq<char>, q: Seq<char>, mode: SearchMode, threshold: Score) -> Option<Score> {
    let ln = lower_of(name);
    let lq = lower_of(q);
    match mode {
        SearchMode::Exact => if name == q {
            Some(exact_score())
        } else {
            None
        },
        SearchMode::Prefix => if starts_with(ln, lq) {
            Some(prefix_score())
        } else {
            None
        },
        SearchMode::Fuzzy => if contains_text(ln, lq) {
            Some(substring_score())
        } else if similarity(lq, ln).at_least(threshold) {
            Some(similarity(lq, ln))
        } else {
            None
        },
    }
}

/// How a role matches query `q`: as a permission does, by its name in exact
/// mode and by its name or title otherwise; the fuzzy similarity is the
/// greater of the name's and the title's.
pub open spec fn role_score(role: Role, q: Seq<char>, mode: SearchMode, threshold: Score) -> Option<Score> {
    let ln = lower_of(role.name@);
    let lt = lower_of(role.title@);
    let lq = lower_of(q);
    let sim = similarity(lq, ln).max_with(similarity(lq, lt));
    match mode {
        SearchMode::Exact => if role.name@ == q {
            Some(exact_score())
        } else {
            None
        },
        SearchMode::Prefix => if starts_with(ln, lq) || starts_with(lt, lq) {
            Some(prefix_score())
        } else {
            None
        },
        SearchMode::Fuzzy => if contains_text(ln, lq) || contains_text(lt, lq) {
            Some(substring_score())
        } else if sim.at_least(threshold) {
            Some(sim)
        } else {
            None
        },
    }
}

/// The first `cap` permissions of `t`, from position `from` on, that match
/// the query: their positions and scores, in table order.
pub open spec fn permission_hits(
    t: Seq<Permission>,
    from: int,
    q: Seq<char>,
    mode: SearchMode,
    threshold: Score,
    cap: nat,
) -> Seq<(int, Score)>
    decreases t.len() - from,
{
    if from < 0 || from >= t.len() || cap == 0 {
        Seq::empty()
    } else {
        match permission_score(t[from].name@, q, mode, threshold) {
            Some(s) => seq![(from, s)] + permission_hits(t, from + 1, q, mode, threshold, (cap - 1) as nat),
            None => permission_hits(t, from + 1, q, mode, threshold, cap),
        }
    }
}

/// The first `cap` roles of `t`, from position `from` on, that match the
/// query: their positions and scores, in table order.
pub open spec fn role_hits(
    t: Seq<Role>,
    from: int,
    q: Seq<char>,
    mode: SearchMode,
    threshold: Score,
    cap: nat,
) -> Seq<(int, Score)>
    decreases t.len() - from,
{
    if from < 0 || from >= t.len() || cap == 0 {
        Seq::empty()
    } else {
        match role_score(t[from], q, mode, threshold) {
            Some(s) => seq![(from, s)] + role_hits(t, from + 1, q, mode, threshold, (cap - 1) as nat),
            None => role_hits(t, from + 1, q, mode, threshold, cap),
        }
    }
}

/// All permissions of `t`, from position `from` on, that match the query:
/// their positions and scores, in table order.
pub open spec fn permission_matches(
    t: Seq<Permission>,
    from: int,
    q: Seq<char>,
    mode: SearchMode,
    threshold: Score,
) -> Seq<(int, Score)>
    decreases t.len() - from,
{
    if from < 0 || from >= t.len() {
        Seq::empty()
    } else {
        match permission_score(t[from].name@, q, mode, threshold) {
            Some(s) => seq![(from, s)] + permission_matches(t, from + 1, q, mode, threshold),
            None => permission_matches(t, from + 1, q, mode, threshold),
        }
    }
}

/// All roles of `t`, from position `from` on, that match the query: their
/// positions and scores, in table order.
pub open spec fn role_matches(
    t: Seq<Role>,
    from: int,
    q: Seq<char>,
    mode: SearchMode,
    threshold: Score,
) -> Seq<(int, Score)>
    decreases t.len() - from,
{
    if from < 0 || from >= t.len() {
        Seq::empty()
    } else {
        match role_score(t[from], q, mode, threshold) {
            Some(s) => seq![(from, s)] + role_matches(t, from + 1, q, mode, threshold),
            None => role_matches(t, from + 1, q, mode, threshold),
        }
    }
}

/// The smaller of two counts.
pub open spec fn min_count(a: nat, b: nat) -> nat {
    if a < b {
        a
    } else {
        b
    }
}

/// The position of the role named `n`, if any.
pub open spec fn role_lookup(roles: Seq<Role>, n: Seq<char>) -> Option<int> {
    if has_role(roles, n) {
        Some(choose|j: int| 0 <= j < roles.len() && #[trigger] roles[j].name@ == n)
    } else {
        None
    }
}

/// The positions of the first `cap` roles among `names` that are in the
/// table, in the order of `names`.
pub open spec fn resolve_roles(roles: Seq<Role>, names: Seq<Seq<char>>, cap: nat) -> Seq<int>
    decreases names.len(),
{
    if names.len() == 0 || cap == 0 {
        Seq::empty()
    } else {
        match role_lookup(roles, names[0]) {
            Some(j) => seq![j] + resolve_roles(roles, names.drop_first(), (cap - 1) as nat),
            None => resolve_roles(roles, names.drop_first(), cap),
        }
    }
}

/// `s` is the summary of `role`.
pub open spec fn summarizes(s: RoleSummary, role: Role) -> bool {
    &&& s.name@ == role.name@
    &&& s.title@ == role.title@
    &&& s.stage@ == role.stage@
}

/// `r` is the result for permission `p` with score `score`: its fields, and
/// the summaries of the first five roles of its `granted_by_roles` that are
/// in the table.
pub open spec fn permission_result_is(
    r: PermissionSearchResult,
    roles: Seq<Role>,
    p: Permission,
    score: Score,
) -> bool {
    let picked = resolve_roles(roles, texts(p.granted_by_roles@), MAX_EMBEDDED as nat);
    &&& r.name@ == p.name@
    &&& r.service@ == p.service@
    &&& r.resource@ == p.resource@
    &&& r.action@ == p.action@
    &&& r.score == score
    &&& r.granted_by_roles@.len() == picked.len()
    &&& forall|k: int|
        0 <= k < picked.len() ==> summarizes(#[trigger] r.granted_by_roles@[k], roles[picked[k]])
}

/// `r` is the result for `role` with score `score`: its fields, the size of
/// its permission list, and the first five permissions of that list.
pub open spec fn role_result_is(r: RoleSearchResult, role: Role, score: Score) -> bool {
    let all = texts(role.included_permissions@);
    &&& r.name@ == role.name@
    &&& r.title@ == role.title@
    &&& r.description@ == role.description@
    &&& r.stage@ == role.stage@
    &&& r.score == score
    &&& r.permission_count == all.len()
    &&& texts(r.sample_permissions@) == all.take(
        if all.len() < MAX_EMBEDDED { all.len() as int } else { MAX_EMBEDDED as int },
    )
}

/// The texts of a list of strings.
pub open spec fn texts(v: Seq<String>) -> Seq<Seq<char>> {
    v.map_values(|s: String| s@)
}

/// Some role of `roles` is named `r` and lists permission `p`.
pub open spec fn grants(roles: Seq<Role>, p: Seq<char>, r: Seq<char>) -> bool {
    exists|j: int|
        0 <= j < roles.len() && #[trigger] roles[j].name@ == r && texts(
            roles[j].included_permissions@,
        ).contains(p)
}

/// The service, resource and action of `p` are the pieces of its name.
pub open spec fn derived_from_name(p: Permission) -> bool {
    &&& p.service@ == segment(p.name@, 0)
    &&& p.resource@ == segment(p.name@, 1)
    &&& p.action@ == segment(p.name@, 2)
}

/// Some permission of `t` is named `n`.
pub open spec fn has_permission(t: Seq<Permission>, n: Seq<char>) -> bool {
    exists|i: int| 0 <= i < t.len() && #[trigger] t[i].name@ == n
}

/// Some role of `t` is named `n`.
pub open spec fn has_role(t: Seq<Role>, n: Seq<char>) -> bool {
    exists|i: int| 0 <= i < t.len() && #[trigger] t[i].name@ == n
}

/// No two permissions of `t` share a name.
pub open spec fn distinct_permissions(t: Seq<Permission>) -> bool {
    forall|i: int, j: int|
        0 <= i < t.len() && 0 <= j < t.len() && i != j ==> #[trigger] t[i].name@ != #[trigger] t[j].name@
}

/// No two roles of `t` share a name.
pub open spec fn distinct_roles(t: Seq<Role>) -> bool {
    forall|i: int, j: int|
        0 <= i < t.len() && 0 <= j < t.len() && i != j ==> #[trigger] t[i].name@ != #[trigger] t[j].name@
}

/// The search engine: a table of permissions and a table of roles, each in
/// insertion order and keyed by name, with the cross-references and the
/// lowercase forms that queries read.
pub struct SearchEngine {
    permissions: Vec<Permission>,
    /// The characters of each permission's name.
    permission_chars: Vec<Vec<char>>,
    /// The lowercase characters of each permission's name.
    permission_lower: Vec<Vec<char>>,
    /// For each permission, the names of the roles indexed so far that list it.
    grantors: Vec<Vec<String>>,
    /// Where each permission name stands in the table; consulted as a hint.
    permission_slots: HashMap<String, usize>,
    roles: Vec<Role>,
    role_chars: Vec<Vec<char>>,
    role_name_lower: Vec<Vec<char>>,
    role_title_lower: Vec<Vec<char>>,
    role_slots: HashMap<String, usize>,
    /// Whether `finalize` has run since the last change of the role table.
    finalized: bool,
}

impl SearchEngine {
    /// The permission table, in insertion order.
    pub closed spec fn permission_table(&self) -> Seq<Permission> {
        self.permissions@
    }

    /// The role table, in insertion order.
    pub closed spec fn role_table(&self) -> Seq<Role> {
        self.roles@
    }

    /// For each permission, the names of the roles that list it, as collected
    /// while indexing.
    pub closed spec fn grantor_lists(&self) -> Seq<Seq<Seq<char>>> {
        self.grantors@.map_values(|g: Vec<String>| texts(g@))
    }

    /// The tables are consistent: names are unique keys, derived fields and
    /// lowercase forms match their sources, every permission a role lists is
    /// in the permission table, and each permission's grantor list holds
    /// exactly the roles that list it.
    pub closed spec fn wf(&self) -> bool {
        &&& self.tables_wf()
        &&& self.listed_exist(self.roles@)
        &&& self.grantors_follow(self.roles@)
        &&& self.frozen_consistent()
    }

    /// The engine is frozen: `finalize` has run since the role table last
    /// changed, so every permission's `granted_by_roles` is up to date.
    pub closed spec fn frozen(&self) -> bool {
        self.finalized
    }

    /// A frozen engine's `granted_by_roles` lists are its grantor lists.
    closed spec fn frozen_consistent(&self) -> bool {
        self.finalized ==> forall|i: int|
            0 <= i < self.permissions@.len() ==> texts((#[trigger] self.permissions@[i]).granted_by_roles@)
                == texts(self.grantors@[i]@)
    }

    /// Lengths, unique names, derived fields and lowercase forms.
    closed spec fn tables_wf(&self) -> bool {
        let p = self.permissions@;
        let r = self.roles@;
        &&& self.permission_chars@.len() == p.len()
        &&& self.permission_lower@.len() == p.len()
        &&& self.grantors@.len() == p.len()
        &&& self.role_chars@.len() == r.len()
        &&& self.role_name_lower@.len() == r.len()
        &&& self.role_title_lower@.len() == r.len()
        &&& distinct_permissions(p)
        &&& distinct_roles(r)
        &&& forall|i: int| 0 <= i < p.len() ==> derived_from_name(#[trigger] p[i])
        &&& forall|i: int| 0 <= i < p.len() ==> (#[trigger] self.permission_chars@[i])@ == p[i].name@
        &&& forall|i: int|
            0 <= i < p.len() ==> (#[trigger] self.permission_lower@[i])@ == lower_of(p[i].name@)
        &&& forall|j: int| 0 <= j < r.len() ==> (#[trigger] self.role_chars@[j])@ == r[j].name@
        &&& forall|j: int|
            0 <= j < r.len() ==> (#[trigger] self.role_name_lower@[j])@ == lower_of(r[j].name@)
        &&& forall|j: int|
            0 <= j < r.len() ==> (#[trigger] self.role_title_lower@[j])@ == lower_of(r[j].title@)
    }

    /// Every permission that a role of `r` lists is in the permission table.
    closed spec fn listed_exist(&self, r: Seq<Role>) -> bool {
        forall|j: int, k: int|
            0 <= j < r.len() && 0 <= k < r[j].included_permissions@.len() ==> has_permission(
                self.permissions@,
                (#[trigger] r[j].included_permissions@[k])@,
            )
    }

    /// Each permission's grantor list holds exactly the roles of `r` that
    /// list it.
    closed spec fn grantors_follow(&self, r: Seq<Role>) -> bool {
        forall|i: int, x: Seq<char>|
            0 <= i < self.permissions@.len() ==> (#[trigger] texts(self.grantors@[i]@).contains(x)
                <==> grants(r, self.permissions@[i].name@, x))
    }

    /// An empty engine.
    pub fn new() -> (r: SearchEngine)
        ensures
            r.wf(),
            !r.frozen(),
            r.permission_table().len() == 0,
            r.role_table().len() == 0,
    {
        SearchEngine {
            permissions: Vec::new(),
            permission_chars: Vec::new(),
            permission_lower: Vec::new(),
            grantors: Vec::new(),
            permission_slots: HashMap::new(),
            roles: Vec::new(),
            role_chars: Vec::new(),
            role_name_lower: Vec::new(),
            role_title_lower: Vec::new(),
            role_slots: HashMap::new(),
            finalized: false,
        }
    }

    /// Where the permission named `name` (with characters `chars`) stands.
    fn find_permission(&self, name: &str, chars: &Vec<char>) -> (r: Option<usize>)
        requires
            self.tables_wf(),
            chars@ == name@,
        ensures
            match r {
                Some(i) => i < self.permissions@.len() && self.permissions@[i as int].name@ == name@,
                None => !has_permission(self.permissions@, name@),
            },
    {
        match self.permission_slots.get(name) {
            Some(slot) => {
                let i = *slot;
                if i < self.permission_chars.len() && crate::text::same_chars(
                    &self.permission_chars[i],
                    chars,
                ) {
                    return Some(i);
                }
            },
            None => {},
        }
        let mut i: usize = 0;
        while i < self.permission_chars.len()
            invariant
                self.tables_wf(),
                chars@ == name@,
                i <= self.permissions@.len(),
                forall|k: int| 0 <= k < i ==> self.permissions@[k].name@ != name@,
            decreases self.permission_chars.len() - i,
        {
            if crate::text::same_chars(&self.permission_chars[i], chars) {
                return Some(i);
            }
            i += 1;
        }
        None
    }

    /// Where the role named `name` (with characters `chars`) stands.
    fn find_role(&self, name: &str, chars: &Vec<char>) -> (r: Option<usize>)
        requires
            self.tables_wf(),
            chars@ == name@,
        ensures
            match r {
                Some(j) => j < self.roles@.len() && self.roles@[j as int].name@ == name@,
                None => !has_role(self.roles@, name@),
            },
    {
        match self.role_slots.get(name) {
            Some(slot) => {
                let j = *slot;
                if j < self.role_chars.len() && crate::text::same_chars(&self.role_chars[j], chars) {
                    return Some(j);
                }
            },
            None => {},
        }
        let mut j: usize = 0;
        while j < self.role_chars.len()
            invariant
                self.tables_wf(),
                chars@ == name@,
                j <= self.roles@.len(),
                forall|k: int| 0 <= k < j ==> self.roles@[k].name@ != name@,
            decreases self.role_chars.len() - j,
        {
            if crate::text::same_chars(&self.role_chars[j], chars) {
                return Some(j);
            }
            j += 1;
        }
        None
    }

    /// Appends a new permission named `name`, derived from its name, with no
    /// grantors yet.
    fn add_permission(&mut self, name: &String, chars: Vec<char>)
        requires
            old(self).tables_wf(),
            chars@ == name@,
            !has_permission(old(self).permissions@, name@),
        ensures
            final(self).tables_wf(),
            final(self).permissions@.len() == old(self).permissions@.len() + 1,
            forall|i: int|
                0 <= i < old(self).permissions@.len() ==> final(self).permissions@[i]
                    == old(self).permissions@[i],
            final(self).permissions@.last().name@ == name@,
            final(self).permissions@.last().granted_by_roles@.len() == 0,
            final(self).roles@ == old(self).roles@,
            final(self).grantors@.len() == old(self).grantors@.len() + 1,
            final(self).grantors@.drop_last() == old(self).grantors@,
            final(self).grantors@.last()@.len() == 0,
            final(self).finalized == old(self).finalized,
    {
        let (service, resource, action) = split_permission_name(name.as_str());
        let lower = chars_of(to_lower(name.as_str()).as_str());
        let slot = self.permissions.len();
        self.permissions.push(
            Permission {
                name: name.clone(),
                service,
                resource,
                action,
                granted_by_roles: Vec::new(),
            },
        );
        self.permission_chars.push(chars);
        self.permission_lower.push(lower);
        self.grantors.push(Vec::new());
        self.permission_slots.insert(name.clone(), slot);
        assert(self.grantors@.drop_last() =~= old(self).grantors@);
    }

    /// The names of a table's permissions, in order.
    pub open spec fn names_of(t: Seq<Permission>) -> Seq<Seq<char>> {
        t.map_values(|p: Permission| p.name@)
    }

    /// Removes `name` from every grantor list.
    fn forget_grantor(&mut self, name: &String)
        requires
            old(self).tables_wf(),
            old(self).grantors_follow(old(self).roles@),
        ensures
            final(self).tables_wf(),
            final(self).permissions@ == old(self).permissions@,
            final(self).roles@ == old(self).roles@,
            final(self).permission_lower@ == old(self).permission_lower@,
            final(self).permission_chars@ == old(self).permission_chars@,
            final(self).role_chars@ == old(self).role_chars@,
            final(self).role_name_lower@ == old(self).role_name_lower@,
            final(self).role_title_lower@ == old(self).role_title_lower@,
            final(self).finalized == old(self).finalized,
            forall|i: int, x: Seq<char>|
                0 <= i < final(self).permissions@.len() ==> (#[trigger] texts(
                    final(self).grantors@[i]@,
                ).contains(x) <==> (x != name@ && grants(
                    final(self).roles@,
                    final(self).permissions@[i].name@,
                    x,
                ))),
    {
        let mut i: usize = 0;
        while i < self.grantors.len()
            invariant
                self.tables_wf(),
                self.permissions@ == old(self).permissions@,
                self.roles@ == old(self).roles@,
                self.permission_lower@ == old(self).permission_lower@,
                self.permission_chars@ == old(self).permission_chars@,
                self.role_chars@ == old(self).role_chars@,
                self.role_name_lower@ == old(self).role_name_lower@,
                self.role_title_lower@ == old(self).role_title_lower@,
                self.finalized == old(self).finalized,
                i <= self.grantors@.len(),
                forall|k: int| i <= k < self.grantors@.len() ==> self.grantors@[k] == old(self).grantors@[k],
                forall|k: int, x: Seq<char>|
                    0 <= k < i ==> (#[trigger] texts(self.grantors@[k]@).contains(x) <==> (x != name@
                        && grants(self.roles@, self.permissions@[k].name@, x))),
                old(self).grantors_follow(old(self).roles@),
            decreases self.grantors.len() - i,
        {
            let kept = without(&self.grantors[i], name);
            self.grantors[i] = kept;
            i += 1;
        }
    }

    /// Adds to the tables a role and the permissions it lists. A role whose
    /// name is already present is overwritten in place (last write wins); each
    /// listed permission seen for the first time is created from its name and
    /// appended; the role is recorded as a grantor of each listed permission.
    pub fn index_role(
        &mut self,
        name: String,
        title: String,
        description: String,
        stage: String,
        permissions: Vec<String>,
    )
        requires
            old(self).wf(),
        ensures
            final(self).wf(),
            !final(self).frozen(),
            has_role(old(self).role_table(), name@) ==> exists|j: int|
                0 <= j < old(self).role_table().len() && old(self).role_table()[j].name@ == name@
                    && final(self).role_table() == old(self).role_table().update(
                    j,
                    (Role { name, title, description, stage, included_permissions: permissions }),
                ),
            !has_role(old(self).role_table(), name@) ==> final(self).role_table()
                == old(self).role_table().push(
                (Role { name, title, description, stage, included_permissions: permissions }),
            ),
            Self::names_of(final(self).permission_table()) == with_names(
                Self::names_of(old(self).permission_table()),
                texts(permissions@),
            ),
            forall|i: int|
                0 <= i < old(self).permission_table().len() ==> final(self).permission_table()[i]
                    == old(self).permission_table()[i],
            forall|i: int|
                old(self).permission_table().len() <= i < final(self).permission_table().len()
                    ==> final(self).permission_table()[i].granted_by_roles@.len() == 0,
    {
        self.finalized = false;
        let name_chars = chars_of(name.as_str());
        let existing = self.find_role(name.as_str(), &name_chars);
        if existing.is_some() {
            self.forget_grantor(&name);
        }
        let ghost roles0 = self.roles@;
        let ghost perms0 = self.permissions@;
        let ghost listed = texts(permissions@);
        proof {
            if existing is None {
                assert forall|p: Seq<char>, x: Seq<char>|
                    grants(roles0, p, x) implies x != name@ by {
                    let j = choose|j: int|
                        0 <= j < roles0.len() && #[trigger] roles0[j].name@ == x && texts(
                            roles0[j].included_permissions@,
                        ).contains(p);
                }
            }
            assert(listed.take(0) =~= Seq::empty());
            assert(Self::names_of(perms0) =~= with_names(Self::names_of(perms0), listed.take(0)));
        }
        let mut k: usize = 0;
        while k < permissions.len()
            invariant
                self.tables_wf(),
                !self.finalized,
                self.roles@ == roles0,
                roles0 == old(self).roles@,
                perms0 == old(self).permissions@,
                listed == texts(permissions@),
                k <= permissions@.len(),
                self.listed_exist(roles0),
                existing is None ==> !has_role(roles0, name@),
                forall|i: int| 0 <= i < perms0.len() ==> self.permissions@[i] == perms0[i],
                perms0.len() <= self.permissions@.len(),
                forall|i: int|
                    perms0.len() <= i < self.permissions@.len()
                        ==> self.permissions@[i].granted_by_roles@.len() == 0,
                Self::names_of(self.permissions@) == with_names(
                    Self::names_of(perms0),
                    listed.take(k as int),
                ),
                forall|m: int| 0 <= m < k ==> has_permission(self.permissions@, #[trigger] listed[m]),
                forall|i: int, x: Seq<char>|
                    0 <= i < self.permissions@.len() ==> (#[trigger] texts(
                        self.grantors@[i]@,
                    ).contains(x) <==> ((x != name@ && grants(roles0, self.permissions@[i].name@, x))
                        || (x == name@ && listed.take(k as int).contains(
                        self.permissions@[i].name@,
                    )))),
            decreases permissions.len() - k,
        {
            let pname = &permissions[k];
            let pchars = chars_of(pname.as_str());
            let ghost before = *self;
            proof {
                assert(listed.take(k + 1).drop_last() =~= listed.take(k as int));
                assert(listed[k as int] == pname@);
            }
            let slot = match self.find_permission(pname.as_str(), &pchars) {
                Some(i) => {
                    assert(Self::names_of(self.permissions@)[i as int] == listed[k as int]);
                    i
                },
                None => {
                    self.add_permission(pname, pchars);
                    proof {
                        let grown = self.permissions@;
                        assert(Self::names_of(grown) =~= Self::names_of(before.permissions@).push(
                            listed[k as int],
                        ));
                        assert forall|n: Seq<char>|
                            has_permission(before.permissions@, n) implies has_permission(grown, n) by {
                            let i = choose|i: int|
                                0 <= i < before.permissions@.len()
                                    && #[trigger] before.permissions@[i].name@ == n;
                            assert(grown[i].name@ == n);
                        }
                        assert(!Self::names_of(before.permissions@).contains(listed[k as int])) by {
                            if Self::names_of(before.permissions@).contains(listed[k as int]) {
                                let i = choose|i: int|
                                    0 <= i < before.permissions@.len() && Self::names_of(
                                        before.permissions@,
                                    )[i] == listed[k as int];
                                assert(before.permissions@[i].name@ == listed[k as int]);
                            }
                        }
                        let last = (grown.len() - 1) as int;
                        assert forall|x: Seq<char>|
                            !(#[trigger] grants(roles0, grown[last].name@, x)) by {
                            if grants(roles0, grown[last].name@, x) {
                                let j = choose|j: int|
                                    0 <= j < roles0.len() && #[trigger] roles0[j].name@ == x && texts(
                                        roles0[j].included_permissions@,
                                    ).contains(grown[last].name@);
                                let kk = choose|kk: int|
                                    0 <= kk < texts(roles0[j].included_permissions@).len() && texts(
                                        roles0[j].included_permissions@,
                                    )[kk] == grown[last].name@;
                                assert(has_permission(
                                    before.permissions@,
                                    roles0[j].included_permissions@[kk]@,
                                ));
                            }
                        }
                        assert(!listed.take(k as int).contains(grown[last].name@)) by {
                            if listed.take(k as int).contains(grown[last].name@) {
                                let m = choose|m: int|
                                    0 <= m < k && #[trigger] listed.take(k as int)[m] == grown[last].name@;
                                assert(has_permission(before.permissions@, listed[m]));
                            }
                        }
                        assert(texts(self.grantors@[last]@) =~= Seq::empty());
                        assert forall|i: int, x: Seq<char>|
                            0 <= i < grown.len() implies (#[trigger] texts(
                                self.grantors@[i]@,
                            ).contains(x) <==> ((x != name@ && grants(roles0, grown[i].name@, x)) || (
                            x == name@ && listed.take(k as int).contains(grown[i].name@)))) by {
                            if i < last {
                                assert(self.grantors@[i] == before.grantors@[i]);
                            }
                        }
                    }
                    self.permissions.len() - 1
                },
            };
            let ghost mid = *self;
            self.grantors[slot].push(name.clone());
            proof {
                let grown = self.permissions@;
                assert(texts(self.grantors@[slot as int]@) =~= texts(mid.grantors@[slot as int]@).push(
                    name@,
                ));
                assert(listed.take(k + 1) =~= listed.take(k as int).push(listed[k as int]));
                assert forall|i: int, x: Seq<char>|
                    0 <= i < grown.len() implies (#[trigger] texts(self.grantors@[i]@).contains(x) <==> (
                    (x != name@ && grants(roles0, grown[i].name@, x)) || (x == name@ && listed.take(
                        k + 1,
                    ).contains(grown[i].name@)))) by {
                    lemma_push_contains(texts(mid.grantors@[slot as int]@), name@, x);
                    lemma_push_contains(listed.take(k as int), listed[k as int], grown[i].name@);
                    assert(texts(mid.grantors@[i]@).contains(x) <==> ((x != name@ && grants(
                        roles0,
                        grown[i].name@,
                        x,
                    )) || (x == name@ && listed.take(k as int).contains(grown[i].name@))));
                    if i != slot {
                        assert(grown[i].name@ != grown[slot as int].name@);
                        assert(listed.take(k + 1).contains(grown[i].name@) ==> listed.take(
                            k as int,
                        ).contains(grown[i].name@)) by {
                            if listed.take(k + 1).contains(grown[i].name@) {
                                let m = choose|m: int|
                                    0 <= m < k + 1 && #[trigger] listed.take(k + 1)[m] == grown[i].name@;
                                assert(listed.take(k as int)[m] == grown[i].name@);
                            }
                        }
                    } else {
                        assert(listed.take(k + 1)[k as int] == grown[i].name@);
                    }
                }
                assert(has_permission(grown, listed[k as int]));
            }
            k += 1;
        }
        assert(listed.take(permissions@.len() as int) =~= listed);
        let ghost new_role = Role { name, title, description, stage, included_permissions: permissions };
        let name_lower = chars_of(to_lower(name.as_str()).as_str());
        let title_lower = chars_of(to_lower(title.as_str()).as_str());
        let role = Role { name, title, description, stage, included_permissions: permissions };
        match existing {
            Some(j) => {
                self.roles[j] = role;
                self.role_name_lower[j] = name_lower;
                self.role_title_lower[j] = title_lower;
                proof {
                    let r1 = self.roles@;
                    assert(r1 =~= roles0.update(j as int, new_role));
                    assert(texts(new_role.included_permissions@) == listed);
                    assert forall|a: int, b: int|
                        0 <= a < r1.len() && 0 <= b < r1.len() && a != b implies #[trigger] r1[a].name@
                        != #[trigger] r1[b].name@ by {
                        assert(roles0[a].name@ != roles0[b].name@);
                    }
                    assert forall|jj: int, kk: int|
                        0 <= jj < r1.len() && 0 <= kk < r1[jj].included_permissions@.len()
                            implies has_permission(
                        self.permissions@,
                        (#[trigger] r1[jj].included_permissions@[kk])@,
                    ) by {
                        if jj == j {
                            assert(listed[kk] == r1[jj].included_permissions@[kk]@);
                        }
                    }
                    lemma_grants_after_store(roles0, r1, j as int, new_role, listed, name@);
                }
            },
            None => {
                let slot = self.roles.len();
                let key = role.name.clone();
                self.roles.push(role);
                self.role_chars.push(name_chars);
                self.role_name_lower.push(name_lower);
                self.role_title_lower.push(title_lower);
                self.role_slots.insert(key, slot);
                proof {
                    let r1 = self.roles@;
                    assert(r1 =~= roles0.push(new_role));
                    assert(texts(new_role.included_permissions@) == listed);
                    assert forall|a: int, b: int|
                        0 <= a < r1.len() && 0 <= b < r1.len() && a != b implies #[trigger] r1[a].name@
                        != #[trigger] r1[b].name@ by {
                        if a < roles0.len() && b < roles0.len() {
                            assert(roles0[a].name@ != roles0[b].name@);
                        } else if a < roles0.len() {
                            assert(roles0[a].name@ == r1[a].name@);
                        } else {
                            assert(roles0[b].name@ == r1[b].name@);
                        }
                    }
                    assert forall|jj: int, kk: int|
                        0 <= jj < r1.len() && 0 <= kk < r1[jj].included_permissions@.len()
                            implies has_permission(
                        self.permissions@,
                        (#[trigger] r1[jj].included_permissions@[kk])@,
                    ) by {
                        if jj == roles0.len() {
                            assert(listed[kk] == r1[jj].included_permissions@[kk]@);
                        }
                    }
                    lemma_grants_after_store(roles0, r1, roles0.len() as int, new_role, listed, name@);
                }
            },
        }
    }

    /// Indexes a permission known outside any role's list. A permission
    /// already in the table is left as it is; a new one is derived from its
    /// name (the service as well, so that both ways of creating a permission
    /// give the same record) and appended. The catalog's service label is
    /// therefore not read.
    pub fn index_permission(&mut self, name: String, _service: String)
        requires
            old(self).wf(),
        ensures
            final(self).wf(),
            has_permission(old(self).permission_table(), name@) ==> *final(self) == *old(self),
            !has_permission(old(self).permission_table(), name@) ==> {
                &&& final(self).permission_table().len() == old(self).permission_table().len() + 1
                &&& final(self).permission_table().drop_last() == old(self).permission_table()
                &&& final(self).permission_table().last().name@ == name@
                &&& final(self).permission_table().last().granted_by_roles@.len() == 0
            },
            final(self).role_table() == old(self).role_table(),
            final(self).frozen() == old(self).frozen(),
    {
        let chars = chars_of(name.as_str());
        match self.find_permission(name.as_str(), &chars) {
            Some(_) => {},
            None => {
                let ghost before = *self;
                assert(before.wf());
                self.add_permission(&name, chars);
                assert(self.permissions@.drop_last() =~= old(self).permissions@);
                proof {
                    assert forall|i: int|
                        self.finalized && 0 <= i < self.permissions@.len() implies texts(
                        (#[trigger] self.permissions@[i]).granted_by_roles@,
                    ) == texts(self.grantors@[i]@) by {
                        if i < before.permissions@.len() {
                            assert(self.permissions@[i] == before.permissions@[i]);
                            assert(self.grantors@[i] == before.grantors@[i]);
                            if self.finalized {
                                assert(before.frozen_consistent());
                                assert(texts(before.permissions@[i].granted_by_roles@) == texts(
                                    before.grantors@[i]@,
                                ));
                            }
                        } else {
                            assert(texts(self.permissions@[i].granted_by_roles@) =~= Seq::empty());
                            assert(texts(self.grantors@[i]@) =~= Seq::empty());
                        }
                    }
                    let p = self.permissions@;
                    let r = self.roles@;
                    assert(texts(Seq::<String>::empty()) =~= Seq::empty());
                    assert forall|j: int, k: int|
                        0 <= j < r.len() && 0 <= k < r[j].included_permissions@.len() implies has_permission(
                        p,
                        (#[trigger] r[j].included_permissions@[k])@,
                    ) by {
                        assert(before.listed_exist(before.roles@));
                        assert(r[j] == before.roles@[j]);
                        assert(has_permission(
                            before.permissions@,
                            before.roles@[j].included_permissions@[k]@,
                        ));
                        let i = choose|i: int|
                            0 <= i < before.permissions@.len()
                                && #[trigger] before.permissions@[i].name@
                                == r[j].included_permissions@[k]@;
                        assert(p[i].name@ == r[j].included_permissions@[k]@);
                    }
                    assert forall|i: int, x: Seq<char>| 0 <= i < p.len() implies (#[trigger] texts(
                        self.grantors@[i]@,
                    ).contains(x) <==> grants(r, p[i].name@, x)) by {
                        assert(before.grantors_follow(before.roles@));
                        if i < p.len() - 1 {
                            assert(self.grantors@[i] == before.grantors@[i]);
                            assert(p[i] == before.permissions@[i]);
                        }
                        if i == p.len() - 1 {
                            assert(texts(self.grantors@[i]@) =~= Seq::empty());
                            if grants(r, p[i].name@, x) {
                                let j = choose|j: int|
                                    0 <= j < r.len() && #[trigger] r[j].name@ == x && texts(
                                        r[j].included_permissions@,
                                    ).contains(p[i].name@);
                                let k = choose|k: int|
                                    0 <= k < texts(r[j].included_permissions@).len() && texts(
                                        r[j].included_permissions@,
                                    )[k] == p[i].name@;
                                assert(before.listed_exist(before.roles@));
                                assert(r[j] == before.roles@[j]);
                                assert(has_permission(
                                    before.permissions@,
                                    before.roles@[j].included_permissions@[k]@,
                                ));
                            }
                        }
                    }
                }
            },
        }
    }

    /// Freezes the cross-references: each permission's `granted_by_roles`
    /// becomes the list of roles that list it, in indexing order. Afterwards a
    /// role name stands in a permission's `granted_by_roles` exactly when that
    /// role lists the permission.
    pub fn finalize(&mut self)
        requires
            old(self).wf(),
        ensures
            final(self).wf(),
            final(self).frozen(),
            final(self).role_table() == old(self).role_table(),
            final(self).permission_table().len() == old(self).permission_table().len(),
            final(self).grantor_lists() == old(self).grantor_lists(),
            forall|i: int|
                0 <= i < final(self).permission_table().len() ==> {
                    let p = #[trigger] final(self).permission_table()[i];
                    let q = old(self).permission_table()[i];
                    &&& p.name == q.name
                    &&& p.service == q.service
                    &&& p.resource == q.resource
                    &&& p.action == q.action
                    &&& texts(p.granted_by_roles@) == old(self).grantor_lists()[i]
                },
            forall|i: int, x: Seq<char>|
                0 <= i < final(self).permission_table().len() ==> (#[trigger] texts(
                    final(self).permission_table()[i].granted_by_roles@,
                ).contains(x) <==> grants(
                    final(self).role_table(),
                    final(self).permission_table()[i].name@,
                    x,
                )),
    {
        self.finalized = false;
        let mut i: usize = 0;
        while i < self.permissions.len()
            invariant
                self.wf(),
                !self.finalized,
                self.roles@ == old(self).roles@,
                self.grantors@ == old(self).grantors@,
                self.permissions@.len() == old(self).permissions@.len(),
                i <= self.permissions@.len(),
                forall|k: int|
                    0 <= k < self.permissions@.len() ==> {
                        let p = #[trigger] self.permissions@[k];
                        let q = old(self).permissions@[k];
                        &&& p.name == q.name
                        &&& p.service == q.service
                        &&& p.resource == q.resource
                        &&& p.action == q.action
                    },
                forall|k: int|
                    0 <= k < i ==> texts((#[trigger] self.permissions@[k]).granted_by_roles@)
                        == texts(self.grantors@[k]@),
            decreases self.permissions.len() - i,
        {
            let granted = copy_names(&self.grantors[i]);
            let ghost before = *self;
            self.permissions[i].granted_by_roles = granted;
            proof {
                assert forall|a: int, b: int|
                    0 <= a < self.permissions@.len() && 0 <= b < self.permissions@.len() && a != b
                        implies #[trigger] self.permissions@[a].name@
                    != #[trigger] self.permissions@[b].name@ by {
                    assert(before.permissions@[a].name@ != before.permissions@[b].name@);
                }
                assert forall|j: int, k: int|
                    0 <= j < self.roles@.len() && 0 <= k < self.roles@[j].included_permissions@.len()
                        implies has_permission(
                    self.permissions@,
                    (#[trigger] self.roles@[j].included_permissions@[k])@,
                ) by {
                    assert(before.listed_exist(before.roles@));
                    let n = self.roles@[j].included_permissions@[k]@;
                    assert(has_permission(before.permissions@, n));
                    let w = choose|w: int|
                        0 <= w < before.permissions@.len() && #[trigger] before.permissions@[w].name@
                            == n;
                    assert(self.permissions@[w].name@ == n);
                }
                assert forall|a: int| 0 <= a < self.permissions@.len() implies derived_from_name(
                    #[trigger] self.permissions@[a],
                ) by {
                    assert(derived_from_name(before.permissions@[a]));
                }
            }
            i += 1;
        }
        proof {
            assert forall|k: int| 0 <= k < self.permissions@.len() implies texts(
                (#[trigger] self.permissions@[k]).granted_by_roles@,
            ) == old(self).grantor_lists()[k] by {}
            assert(self.grantor_lists() =~= old(self).grantor_lists());
        }
        self.finalized = true;
    }

    /// Whether `finalize` has run since the role table last changed; until it
    /// has, permissions show no or stale granting roles.
    pub fn is_finalized(&self) -> (r: bool)
        ensures
            r == self.frozen(),
    {
        self.finalized
    }

    /// How permission `i` matches the query whose characters, lowercase
    /// characters and lowercase trigrams are given.
    fn permission_score_at(
        &self,
        i: usize,
        query: &str,
        qchars: &Vec<char>,
        qlower: &Vec<char>,
        qgrams: &Vec<Vec<char>>,
        mode: SearchMode,
        threshold: &Score,
    ) -> (r: Option<Score>)
        requires
            self.wf(),
            i < self.permissions@.len(),
            qchars@ == query@,
            qlower@ == lower_of(query@),
            views(qgrams@) == ngrams(qlower@, 3),
        ensures
            r == permission_score(self.permissions@[i as int].name@, query@, mode, *threshold),
    {
        match mode {
            SearchMode::Exact => {
                if same_chars(&self.permission_chars[i], qchars) {
                    Some(Score::exact())
                } else {
                    None
                }
            },
            SearchMode::Prefix => {
                if has_prefix(&self.permission_lower[i], qlower) {
                    Some(Score::prefix())
                } else {
                    None
                }
            },
            SearchMode::Fuzzy => {
                if has_substring(&self.permission_lower[i], qlower) {
                    Some(Score::substring())
                } else {
                    let sim = similarity_to(qgrams, &self.permission_lower[i]);
                    if sim.is_at_least(threshold) {
                        Some(sim)
                    } else {
                        None
                    }
                }
            },
        }
    }

    /// How role `j` matches the query whose characters, lowercase characters
    /// and lowercase trigrams are given.
    fn role_score_at(
        &self,
        j: usize,
        query: &str,
        qchars: &Vec<char>,
        qlower: &Vec<char>,
        qgrams: &Vec<Vec<char>>,
        mode: SearchMode,
        threshold: &Score,
    ) -> (r: Option<Score>)
        requires
            self.wf(),
            j < self.roles@.len(),
            qchars@ == query@,
            qlower@ == lower_of(query@),
            views(qgrams@) == ngrams(qlower@, 3),
        ensures
            r == role_score(self.roles@[j as int], query@, mode, *threshold),
    {
        match mode {
            SearchMode::Exact => {
                if same_chars(&self.role_chars[j], qchars) {
                    Some(Score::exact())
                } else {
                    None
                }
            },
            SearchMode::Prefix => {
                if has_prefix(&self.role_name_lower[j], qlower) || has_prefix(
                    &self.role_title_lower[j],
                    qlower,
                ) {
                    Some(Score::prefix())
                } else {
                    None
                }
            },
            SearchMode::Fuzzy => {
                if has_substring(&self.role_name_lower[j], qlower) || has_substring(
                    &self.role_title_lower[j],
                    qlower,
                ) {
                    Some(Score::substring())
                } else {
                    let by_name = similarity_to(qgrams, &self.role_name_lower[j]);
                    let by_title = similarity_to(qgrams, &self.role_title_lower[j]);
                    let sim = by_name.max(by_title);
                    if sim.is_at_least(threshold) {
                        Some(sim)
                    } else {
                        None
                    }
                }
            },
        }
    }

    /// The result for permission `i` with score `score`.
    fn permission_result(&self, i: usize, score: Score) -> (r: PermissionSearchResult)
        requires
            self.wf(),
            i < self.permissions@.len(),
        ensures
            permission_result_is(r, self.roles@, self.permissions@[i as int], score),
    {
        let p = &self.permissions[i];
        let ghost names = texts(p.granted_by_roles@);
        let ghost all = resolve_roles(self.roles@, names, MAX_EMBEDDED as nat);
        let mut summaries: Vec<RoleSummary> = Vec::new();
        let ghost mut picked: Seq<int> = Seq::empty();
        let mut k: usize = 0;
        assert(names.skip(0) =~= names);
        while k < p.granted_by_roles.len() && summaries.len() < MAX_EMBEDDED
            invariant
                self.wf(),
                i < self.permissions@.len(),
                p == self.permissions@[i as int],
                names == texts(p.granted_by_roles@),
                all == resolve_roles(self.roles@, names, MAX_EMBEDDED as nat),
                k <= names.len(),
                summaries@.len() == picked.len(),
                picked.len() <= MAX_EMBEDDED,
                all == picked + resolve_roles(
                    self.roles@,
                    names.skip(k as int),
                    (MAX_EMBEDDED - picked.len()) as nat,
                ),
                forall|m: int|
                    #![trigger summaries@[m]]
                    #![trigger picked[m]]
                    0 <= m < picked.len() ==> 0 <= picked[m] < self.roles@.len() && summarizes(
                        summaries@[m],
                        self.roles@[picked[m]],
                    ),
            decreases p.granted_by_roles.len() - k,
        {
            let gname = &p.granted_by_roles[k];
            let gchars = chars_of(gname.as_str());
            let ghost rest = names.skip(k as int);
            proof {
                assert(rest[0] == gname@);
                assert(rest.drop_first() =~= names.skip(k + 1));
            }
            match self.find_role(gname.as_str(), &gchars) {
                Some(j) => {
                    let role = &self.roles[j];
                    let ghost s0 = summaries@;
                    summaries.push(
                        RoleSummary {
                            name: role.name.clone(),
                            title: role.title.clone(),
                            stage: role.stage.clone(),
                        },
                    );
                    proof {
                        assert forall|m: int| 0 <= m < s0.len() implies summaries@[m] == s0[m] by {}
                        assert(has_role(self.roles@, gname@));
                        let c = choose|c: int|
                            0 <= c < self.roles@.len() && #[trigger] self.roles@[c].name@ == gname@;
                        assert(c == j as int);
                        assert(role_lookup(self.roles@, rest[0]) == Some(j as int));
                        let old_picked = picked;
                        picked = picked.push(j as int);
                        assert(all =~= picked + resolve_roles(
                            self.roles@,
                            names.skip(k + 1),
                            (MAX_EMBEDDED - picked.len()) as nat,
                        ));
                        assert forall|m: int|
                            #![trigger summaries@[m]]
                            #![trigger picked[m]]
                            0 <= m < picked.len() implies 0 <= picked[m] < self.roles@.len() && summarizes(
                            summaries@[m],
                            self.roles@[picked[m]],
                        ) by {
                            if m < old_picked.len() {
                                assert(picked[m] == old_picked[m]);
                                assert(summarizes(s0[m], self.roles@[old_picked[m]]));
                            }
                        }
                    }
                },
                None => {},
            }
            k += 1;
        }
        proof {
            if k == names.len() {
                assert(names.skip(k as int).len() == 0);
            }
            assert(picked =~= all);
        }
        PermissionSearchResult {
            name: p.name.clone(),
            service: p.service.clone(),
            resource: p.resource.clone(),
            action: p.action.clone(),
            score,
            granted_by_roles: summaries,
        }
    }

    /// The result for role `j` with score `score`.
    fn role_result(&self, j: usize, score: Score) -> (r: RoleSearchResult)
        requires
            self.wf(),
            j < self.roles@.len(),
        ensures
            role_result_is(r, self.roles@[j as int], score),
    {
        let role = &self.roles[j];
        let n = role.included_permissions.len();
        let take = if n < MAX_EMBEDDED { n } else { MAX_EMBEDDED };
        let mut sample: Vec<String> = Vec::new();
        let mut k: usize = 0;
        while k < take
            invariant
                take <= n == role.included_permissions@.len(),
                k <= take,
                sample@.len() == k,
                texts(sample@) == texts(role.included_permissions@).take(k as int),
            decreases take - k,
        {
            let c = role.included_permissions[k].clone();
            let ghost s0 = sample@;
            sample.push(c);
            assert(texts(sample@) =~= texts(s0).push(role.included_permissions@[k as int]@));
            assert(texts(role.included_permissions@).take(k + 1) =~= texts(
                role.included_permissions@,
            ).take(k as int).push(role.included_permissions@[k as int]@));
            k += 1;
        }
        RoleSearchResult {
            name: role.name.clone(),
            title: role.title.clone(),
            description: role.description.clone(),
            stage: role.stage.clone(),
            score,
            permission_count: n,
            sample_permissions: sample,
        }
    }

    /// Searches the permissions: the first twenty that match `query` in the
    /// named mode (an unknown mode name means fuzzy), in table order, each with
    /// its score and the first five roles that grant it.
    pub fn search_permissions(&self, query: &str, mode: &str, threshold: Score) -> (r: Vec<
        PermissionSearchResult,
    >)
        requires
            self.wf(),
        ensures
            ({
                let hits = permission_hits(
                    self.permission_table(),
                    0,
                    query@,
                    mode_named(mode@),
                    threshold,
                    MAX_RESULTS as nat,
                );
                &&& r@.len() == hits.len()
                &&& forall|k: int|
                    0 <= k < hits.len() ==> permission_result_is(
                        #[trigger] r@[k],
                        self.role_table(),
                        self.permission_table()[hits[k].0],
                        hits[k].1,
                    )
            }),
    {
        let m = SearchMode::from_name(mode);
        let qchars = chars_of(query);
        let qlower = chars_of(to_lower(query).as_str());
        let qgrams = extract_ngrams(&qlower, 3);
        let ghost t = self.permissions@;
        let ghost all = permission_hits(t, 0, query@, m, threshold, MAX_RESULTS as nat);
        let ghost mut done: Seq<(int, Score)> = Seq::empty();
        let mut out: Vec<PermissionSearchResult> = Vec::new();
        let mut i: usize = 0;
        while i < self.permissions.len() && out.len() < MAX_RESULTS
            invariant
                self.wf(),
                t == self.permissions@,
                qchars@ == query@,
                qlower@ == lower_of(query@),
                views(qgrams@) == ngrams(qlower@, 3),
                all == permission_hits(t, 0, query@, m, threshold, MAX_RESULTS as nat),
                i <= t.len(),
                out@.len() == done.len(),
                done.len() <= MAX_RESULTS,
                all == done + permission_hits(
                    t,
                    i as int,
                    query@,
                    m,
                    threshold,
                    (MAX_RESULTS - done.len()) as nat,
                ),
                forall|k: int|
                    #![trigger out@[k]]
                    #![trigger done[k]]
                    0 <= k < done.len() ==> 0 <= done[k].0 < t.len() && permission_result_is(
                        out@[k],
                        self.roles@,
                        t[done[k].0],
                        done[k].1,
                    ),
            decreases t.len() - i,
        {
            match self.permission_score_at(i, query, &qchars, &qlower, &qgrams, m, &threshold) {
                Some(score) => {
                    let res = self.permission_result(i, score);
                    let ghost out0 = out@;
                    out.push(res);
                    proof {
                        let done0 = done;
                        done = done.push((i as int, score));
                        assert forall|k: int|
                            #![trigger out@[k]]
                            #![trigger done[k]]
                            0 <= k < done.len() implies 0 <= done[k].0 < t.len() && permission_result_is(
                            out@[k],
                            self.roles@,
                            t[done[k].0],
                            done[k].1,
                        ) by {
                            if k < done0.len() {
                                assert(out@[k] == out0[k]);
                                assert(done[k] == done0[k]);
                                assert(0 <= done0[k].0 < t.len());
                            }
                        }
                        assert(all =~= done + permission_hits(
                            t,
                            i + 1,
                            query@,
                            m,
                            threshold,
                            (MAX_RESULTS - done.len()) as nat,
                        ));
                    }
                },
                None => {},
            }
            i += 1;
        }
        assert(done =~= all);
        out
    }

    /// Searches the roles: the first twenty that match `query` in the named
    /// mode (an unknown mode name means fuzzy), in table order, each with its
    /// score, its permission count and its first five permissions.
    pub fn search_roles(&self, query: &str, mode: &str, threshold: Score) -> (r: Vec<RoleSearchResult>)
        requires
            self.wf(),
        ensures
            ({
                let hits = role_hits(
                    self.role_table(),
                    0,
                    query@,
                    mode_named(mode@),
                    threshold,
                    MAX_RESULTS as nat,
                );
                &&& r@.len() == hits.len()
                &&& forall|k: int|
                    0 <= k < hits.len() ==> role_result_is(
                        #[trigger] r@[k],
                        self.role_table()[hits[k].0],
                        hits[k].1,
                    )
            }),
    {
        let m = SearchMode::from_name(mode);
        let qchars = chars_of(query);
        let qlower = chars_of(to_lower(query).as_str());
        let qgrams = extract_ngrams(&qlower, 3);
        let ghost t = self.roles@;
        let ghost all = role_hits(t, 0, query@, m, threshold, MAX_RESULTS as nat);
        let ghost mut done: Seq<(int, Score)> = Seq::empty();
        let mut out: Vec<RoleSearchResult> = Vec::new();
        let mut j: usize = 0;
        while j < self.roles.len() && out.len() < MAX_RESULTS
            invariant
                self.wf(),
                t == self.roles@,
                qchars@ == query@,
                qlower@ == lower_of(query@),
                views(qgrams@) == ngrams(qlower@, 3),
                all == role_hits(t, 0, query@, m, threshold, MAX_RESULTS as nat),
                j <= t.len(),
                out@.len() == done.len(),
                done.len() <= MAX_RESULTS,
                all == done + role_hits(
                    t,
                    j as int,
                    query@,
                    m,
                    threshold,
                    (MAX_RESULTS - done.len()) as nat,
                ),
                forall|k: int|
                    #![trigger out@[k]]
                    #![trigger done[k]]
                    0 <= k < done.len() ==> 0 <= done[k].0 < t.len() && role_result_is(
                        out@[k],
                        t[done[k].0],
                        done[k].1,
                    ),
            decreases t.len() - j,
        {
            match self.role_score_at(j, query, &qchars, &qlower, &qgrams, m, &threshold) {
                Some(score) => {
                    let res = self.role_result(j, score);
                    let ghost out0 = out@;
                    out.push(res);
                    proof {
                        let done0 = done;
                        done = done.push((j as int, score));
                        assert forall|k: int|
                            #![trigger out@[k]]
                            #![trigger done[k]]
                            0 <= k < done.len() implies 0 <= done[k].0 < t.len() && role_result_is(
                            out@[k],
                            
                            t[done[k].0],
                            done[k].1,
                        ) by {
                            if k < done0.len() {
                                assert(out@[k] == out0[k]);
                                assert(done[k] == done0[k]);
                                assert(0 <= done0[k].0 < t.len());
                            }
                        }
                        assert(all =~= done + role_hits(
                            t,
                            j + 1,
                            query@,
                            m,
                            threshold,
                            (MAX_RESULTS - done.len()) as nat,
                        ));
                    }
                },
                None => {},
            }
            j += 1;
        }
        assert(done =~= all);
        out
    }

    /// The first twenty permissions that match `query` in mode `m`.
    fn permission_hit_list(&self, query: &str, m: SearchMode, threshold: Score) -> (r: Vec<(usize, Score)>)
        requires
            self.wf(),
        ensures
            hit_view(r@) == permission_hits(self.permissions@, 0, query@, m, threshold, MAX_RESULTS as nat),
            forall|k: int| 0 <= k < r@.len() ==> (#[trigger] r@[k]).0 < self.permissions@.len(),
    {
        let qchars = chars_of(query);
        let qlower = chars_of(to_lower(query).as_str());
        let qgrams = extract_ngrams(&qlower, 3);
        let ghost t = self.permissions@;
        let ghost all = permission_hits(t, 0, query@, m, threshold, MAX_RESULTS as nat);
        let mut out: Vec<(usize, Score)> = Vec::new();
        let mut i: usize = 0;
        while i < self.permissions.len() && out.len() < MAX_RESULTS
            invariant
                self.wf(),
                t == self.permissions@,
                qchars@ == query@,
                qlower@ == lower_of(query@),
                views(qgrams@) == ngrams(qlower@, 3),
                all == permission_hits(t, 0, query@, m, threshold, MAX_RESULTS as nat),
                i <= t.len(),
                out@.len() <= MAX_RESULTS,
                forall|k: int| 0 <= k < out@.len() ==> (#[trigger] out@[k]).0 < t.len(),
                all == hit_view(out@) + permission_hits(
                    t,
                    i as int,
                    query@,
                    m,
                    threshold,
                    (MAX_RESULTS - out@.len()) as nat,
                ),
            decreases t.len() - i,
        {
            match self.permission_score_at(i, query, &qchars, &qlower, &qgrams, m, &threshold) {
                Some(score) => {
                    let ghost o0 = out@;
                    out.push((i, score));
                    assert(hit_view(out@) =~= hit_view(o0).push((i as int, score)));
                    assert(all =~= hit_view(out@) + permission_hits(
                        t,
                        i + 1,
                        query@,
                        m,
                        threshold,
                        (MAX_RESULTS - out@.len()) as nat,
                    ));
                },
                None => {},
            }
            i += 1;
        }
        assert(hit_view(out@) =~= all);
        out
    }

    /// The permission named exactly `query`, scored 1, if there is one.
    pub fn search_exact(&self, query: &str) -> (r: Option<SearchResult<String>>)
        requires
            self.wf(),
        ensures
            r is Some <==> has_permission(self.permission_table(), query@),
            r is Some ==> r->0.item@ == query@ && r->0.score == exact_score(),
    {
        let qchars = chars_of(query);
        match self.find_permission(query, &qchars) {
            Some(i) => Some(SearchResult { item: self.permissions[i].name.clone(), score: Score::exact() }),
            None => None,
        }
    }

    /// The first twenty permissions whose name starts with `query`, ignoring
    /// case, in table order, each scored 0.8.
    pub fn search_prefix(&self, query: &str) -> (r: Vec<SearchResult<String>>)
        requires
            self.wf(),
        ensures
            ({
                let hits = permission_hits(
                    self.permission_table(),
                    0,
                    query@,
                    SearchMode::Prefix,
                    Score { num: 0, den: 1 },
                    MAX_RESULTS as nat,
                );
                &&& r@.len() == hits.len()
                &&& forall|k: int|
                    0 <= k < hits.len() ==> (#[trigger] r@[k]).item@
                        == self.permission_table()[hits[k].0].name@ && r@[k].score
                        == plain_prefix_score()
            }),
    {
        let hits = self.permission_hit_list(query, SearchMode::Prefix, Score { num: 0, den: 1 });
        let mut out: Vec<SearchResult<String>> = Vec::new();
        let mut k: usize = 0;
        while k < hits.len()
            invariant
                self.wf(),
                k <= hits@.len(),
                out@.len() == k,
                forall|m: int| 0 <= m < hits@.len() ==> (#[trigger] hits@[m]).0 < self.permissions@.len(),
                forall|m: int|
                    0 <= m < k ==> (#[trigger] out@[m]).item@ == self.permissions@[hits@[m].0 as int].name@
                        && out@[m].score == plain_prefix_score(),
            decreases hits.len() - k,
        {
            let (i, _) = hits[k];
            out.push(SearchResult { item: self.permissions[i].name.clone(), score: Score { num: 8, den: 10 } });
            k += 1;
        }
        proof {
            let hv = hit_view(hits@);
            assert forall|m: int| 0 <= m < hv.len() implies hv[m].0 == hits@[m].0 as int by {}
        }
        out
    }

    /// The first twenty permissions that match `query` fuzzily, in table
    /// order, with their scores.
    pub fn search_fuzzy(&self, query: &str, threshold: Score) -> (r: Vec<SearchResult<String>>)
        requires
            self.wf(),
        ensures
            ({
                let hits = permission_hits(
                    self.permission_table(),
                    0,
                    query@,
                    SearchMode::Fuzzy,
                    threshold,
                    MAX_RESULTS as nat,
                );
                &&& r@.len() == hits.len()
                &&& forall|k: int|
                    0 <= k < hits.len() ==> (#[trigger] r@[k]).item@
                        == self.permission_table()[hits[k].0].name@ && r@[k].score == hits[k].1
            }),
    {
        let hits = self.permission_hit_list(query, SearchMode::Fuzzy, threshold);
        let mut out: Vec<SearchResult<String>> = Vec::new();
        let mut k: usize = 0;
        while k < hits.len()
            invariant
                self.wf(),
                k <= hits@.len(),
                out@.len() == k,
                forall|m: int| 0 <= m < hits@.len() ==> (#[trigger] hits@[m]).0 < self.permissions@.len(),
                forall|m: int|
                    0 <= m < k ==> (#[trigger] out@[m]).item@ == self.permissions@[hits@[m].0 as int].name@
                        && out@[m].score == hits@[m].1,
            decreases hits.len() - k,
        {
            let (i, score) = hits[k];
            out.push(SearchResult { item: self.permissions[i].name.clone(), score });
            k += 1;
        }
        proof {
            let hv = hit_view(hits@);
            assert forall|m: int| 0 <= m < hv.len() implies hv[m].0 == hits@[m].0 as int && hv[m].1 == hits@[m].1 by {}
        }
        out
    }

    /// The number of permissions and the number of roles.
    pub fn stats(&self) -> (r: (usize, usize))
        ensures
            r.0 == self.permission_table().len(),
            r.1 == self.role_table().len(),
    {
        (self.permissions.len(), self.roles.len())
    }
}

/// The known names after adding `added` in order, each new name appended
/// once, at its first sight.
pub open spec fn with_names(known: Seq<Seq<char>>, added: Seq<Seq<char>>) -> Seq<Seq<char>>
    decreases added.len(),
{
    if added.len() == 0 {
        known
    } else {
        let k = with_names(known, added.drop_last());
        if k.contains(added.last()) {
            k
        } else {
            k.push(added.last())
        }
    }
}

/// Storing role `new_role` named `name` at `j` (replacing the role of that
/// name, or appended) makes the roles granting a permission those of before,
/// without `name`, and `name` where the new role lists the permission.
proof fn lemma_grants_after_store(
    roles0: Seq<Role>,
    r1: Seq<Role>,
    j: int,
    new_role: Role,
    listed: Seq<Seq<char>>,
    name: Seq<char>,
)
    requires
        0 <= j <= roles0.len(),
        j < roles0.len() ==> roles0[j].name@ == name && r1 == roles0.update(j, new_role),
        j == roles0.len() ==> r1 == roles0.push(new_role) && !has_role(roles0, name),
        distinct_roles(roles0),
        new_role.name@ == name,
        texts(new_role.included_permissions@) == listed,
    ensures
        forall|p: Seq<char>, x: Seq<char>|
            #[trigger] grants(r1, p, x) <==> ((x != name && grants(roles0, p, x)) || (x == name
                && listed.contains(p))),
{
    assert forall|p: Seq<char>, x: Seq<char>|
        #[trigger] grants(r1, p, x) <==> ((x != name && grants(roles0, p, x)) || (x == name
            && listed.contains(p))) by {
        if grants(r1, p, x) {
            let jj = choose|jj: int|
                0 <= jj < r1.len() && #[trigger] r1[jj].name@ == x && texts(
                    r1[jj].included_permissions@,
                ).contains(p);
            if jj != j {
                assert(r1[jj] == roles0[jj]);
                if j < roles0.len() {
                    assert(roles0[jj].name@ != roles0[j].name@);
                } else {
                    assert(roles0[jj].name@ != name);
                }
            }
        }
        if x != name && grants(roles0, p, x) {
            let jj = choose|jj: int|
                0 <= jj < roles0.len() && #[trigger] roles0[jj].name@ == x && texts(
                    roles0[jj].included_permissions@,
                ).contains(p);
            assert(jj != j);
            assert(r1[jj] == roles0[jj]);
        }
        if x == name && listed.contains(p) {
            assert(r1[j] == new_role);
        }
    }
}

proof fn lemma_permission_hits_prefix(
    t: Seq<Permission>,
    from: int,
    q: Seq<char>,
    mode: SearchMode,
    threshold: Score,
    cap: nat,
)
    requires
        0 <= from,
    ensures
        permission_hits(t, from, q, mode, threshold, cap) == permission_matches(
            t,
            from,
            q,
            mode,
            threshold,
        ).take(min_count(cap, permission_matches(t, from, q, mode, threshold).len()) as int),
    decreases t.len() - from,
{
    let all = permission_matches(t, from, q, mode, threshold);
    if from >= t.len() {
        assert(all.take(0) =~= Seq::empty());
    } else if cap == 0 {
        assert(all.take(0) =~= Seq::empty());
    } else {
        lemma_permission_hits_prefix(t, from + 1, q, mode, threshold, (cap - 1) as nat);
        lemma_permission_hits_prefix(t, from + 1, q, mode, threshold, cap);
        let rest = permission_matches(t, from + 1, q, mode, threshold);
        match permission_score(t[from].name@, q, mode, threshold) {
            Some(s) => {
                assert(all == seq![(from, s)] + rest);
                assert(all.take(min_count(cap, all.len()) as int) =~= seq![(from, s)] + rest.take(
                    min_count((cap - 1) as nat, rest.len()) as int,
                ));
            },
            None => {},
        }
    }
}

proof fn lemma_role_hits_prefix(
    t: Seq<Role>,
    from: int,
    q: Seq<char>,
    mode: SearchMode,
    threshold: Score,
    cap: nat,
)
    requires
        0 <= from,
    ensures
        role_hits(t, from, q, mode, threshold, cap) == role_matches(t, from, q, mode, threshold).take(
            min_count(cap, role_matches(t, from, q, mode, threshold).len()) as int,
        ),
    decreases t.len() - from,
{
    let all = role_matches(t, from, q, mode, threshold);
    if from >= t.len() {
        assert(all.take(0) =~= Seq::empty());
    } else if cap == 0 {
        assert(all.take(0) =~= Seq::empty());
    } else {
        lemma_role_hits_prefix(t, from + 1, q, mode, threshold, (cap - 1) as nat);
        lemma_role_hits_prefix(t, from + 1, q, mode, threshold, cap);
        let rest = role_matches(t, from + 1, q, mode, threshold);
        match role_score(t[from], q, mode, threshold) {
            Some(s) => {
                assert(all == seq![(from, s)] + rest);
                assert(all.take(min_count(cap, all.len()) as int) =~= seq![(from, s)] + rest.take(
                    min_count((cap - 1) as nat, rest.len()) as int,
                ));
            },
            None => {},
        }
    }
}

/// In a frozen engine, a role name stands in a permission's
/// `granted_by_roles` exactly when that role lists the permission.
pub proof fn lemma_frozen_grants_complete(e: &SearchEngine)
    requires
        e.wf(),
        e.frozen(),
    ensures
        forall|i: int, x: Seq<char>|
            0 <= i < e.permission_table().len() ==> (#[trigger] texts(
                e.permission_table()[i].granted_by_roles@,
            ).contains(x) <==> grants(e.role_table(), e.permission_table()[i].name@, x)),
{
    assert forall|i: int, x: Seq<char>|
        0 <= i < e.permission_table().len() implies (#[trigger] texts(
            e.permission_table()[i].granted_by_roles@,
        ).contains(x) <==> grants(e.role_table(), e.permission_table()[i].name@, x)) by {
        assert(texts(e.permissions@[i].granted_by_roles@) == texts(e.grantors@[i]@));
    }
}

/// A query returns its first twenty matches in table order: when more than
/// twenty permissions (or roles) match, exactly twenty come back, and fewer
/// matches all come back.
pub proof fn lemma_results_capped(e: &SearchEngine, q: Seq<char>, mode: SearchMode, threshold: Score)
    ensures
        ({
            let all = permission_matches(e.permission_table(), 0, q, mode, threshold);
            permission_hits(e.permission_table(), 0, q, mode, threshold, MAX_RESULTS as nat)
                == all.take(min_count(MAX_RESULTS as nat, all.len()) as int)
        }),
        ({
            let all = role_matches(e.role_table(), 0, q, mode, threshold);
            role_hits(e.role_table(), 0, q, mode, threshold, MAX_RESULTS as nat) == all.take(
                min_count(MAX_RESULTS as nat, all.len()) as int,
            )
        }),
{
    lemma_permission_hits_prefix(e.permission_table(), 0, q, mode, threshold, MAX_RESULTS as nat);
    lemma_role_hits_prefix(e.role_table(), 0, q, mode, threshold, MAX_RESULTS as nat);
}

proof fn lemma_resolve_len(roles: Seq<Role>, names: Seq<Seq<char>>, cap: nat)
    ensures
        resolve_roles(roles, names, cap).len() <= cap,
    decreases names.len(),
{
    if names.len() > 0 && cap > 0 {
        lemma_resolve_len(roles, names.drop_first(), (cap - 1) as nat);
        lemma_resolve_len(roles, names.drop_first(), cap);
    }
}

/// A permission's result embeds at most five granting roles; a role's result
/// samples at most five permissions and counts all of them.
pub proof fn lemma_embedded_capped(
    pr: PermissionSearchResult,
    rr: RoleSearchResult,
    roles: Seq<Role>,
    p: Permission,
    role: Role,
    s: Score,
    t: Score,
)
    requires
        permission_result_is(pr, roles, p, s),
        role_result_is(rr, role, t),
    ensures
        pr.granted_by_roles@.len() <= MAX_EMBEDDED,
        rr.sample_permissions@.len() <= MAX_EMBEDDED,
        rr.sample_permissions@.len() <= rr.permission_count,
        rr.permission_count == role.included_permissions@.len(),
{
    lemma_resolve_len(roles, texts(p.granted_by_roles@), MAX_EMBEDDED as nat);
    let all = texts(role.included_permissions@);
    assert(texts(rr.sample_permissions@).len() == rr.sample_permissions@.len());
    assert(all.len() == role.included_permissions@.len());
}

proof fn lemma_exact_permission_hits(
    t: Seq<Permission>,
    from: int,
    q: Seq<char>,
    threshold: Score,
    cap: nat,
)
    requires
        0 <= from <= t.len(),
        cap > 0,
        distinct_permissions(t),
    ensures
        forall|i: int|
            from <= i < t.len() && #[trigger] t[i].name@ == q ==> permission_hits(
                t,
                from,
                q,
                SearchMode::Exact,
                threshold,
                cap,
            ) == seq![(i, exact_score())],
        (forall|i: int| from <= i < t.len() ==> #[trigger] t[i].name@ != q) ==> permission_hits(
            t,
            from,
            q,
            SearchMode::Exact,
            threshold,
            cap,
        ) == Seq::<(int, Score)>::empty(),
    decreases t.len() - from,
{
    if from < t.len() {
        lemma_exact_permission_hits(t, from + 1, q, threshold, cap);
        if cap > 1 {
            lemma_exact_permission_hits(t, from + 1, q, threshold, (cap - 1) as nat);
        }
        if t[from].name@ != q {
            assert(permission_score(t[from].name@, q, SearchMode::Exact, threshold) is None);
            assert(permission_hits(t, from, q, SearchMode::Exact, threshold, cap) == permission_hits(
                t,
                from + 1,
                q,
                SearchMode::Exact,
                threshold,
                cap,
            ));
        }
        if t[from].name@ == q {
            assert(permission_score(t[from].name@, q, SearchMode::Exact, threshold) == Some(
                exact_score(),
            ));
            assert forall|i: int| from < i < t.len() implies #[trigger] t[i].name@ != q by {
                assert(t[i].name@ != t[from].name@);
            }
            let rest = permission_hits(t, from + 1, q, SearchMode::Exact, threshold, (cap - 1) as nat);
            assert(rest == Seq::<(int, Score)>::empty());
            assert(permission_hits(t, from, q, SearchMode::Exact, threshold, cap) == seq![
                (from, exact_score()),
            ] + rest);
            assert(seq![(from, exact_score())] + Seq::<(int, Score)>::empty() =~= seq![
                (from, exact_score()),
            ]);
            assert forall|i: int|
                from <= i < t.len() && #[trigger] t[i].name@ == q implies i == from by {
                if i != from {
                    assert(t[i].name@ != t[from].name@);
                }
            }
        }
    }
}

proof fn lemma_exact_role_hits(t: Seq<Role>, from: int, q: Seq<char>, threshold: Score, cap: nat)
    requires
        0 <= from <= t.len(),
        cap > 0,
        distinct_roles(t),
    ensures
        forall|i: int|
            from <= i < t.len() && #[trigger] t[i].name@ == q ==> role_hits(
                t,
                from,
                q,
                SearchMode::Exact,
                threshold,
                cap,
            ) == seq![(i, exact_score())],
        (forall|i: int| from <= i < t.len() ==> #[trigger] t[i].name@ != q) ==> role_hits(
            t,
            from,
            q,
            SearchMode::Exact,
            threshold,
            cap,
        ) == Seq::<(int, Score)>::empty(),
    decreases t.len() - from,
{
    if from < t.len() {
        lemma_exact_role_hits(t, from + 1, q, threshold, cap);
        if cap > 1 {
            lemma_exact_role_hits(t, from + 1, q, threshold, (cap - 1) as nat);
        }
        if t[from].name@ != q {
            assert(role_score(t[from], q, SearchMode::Exact, threshold) is None);
            assert(role_hits(t, from, q, SearchMode::Exact, threshold, cap) == role_hits(
                t,
                from + 1,
                q,
                SearchMode::Exact,
                threshold,
                cap,
            ));
        }
        if t[from].name@ == q {
            assert(role_score(t[from], q, SearchMode::Exact, threshold) == Some(exact_score()));
            assert forall|i: int| from < i < t.len() implies #[trigger] t[i].name@ != q by {
                assert(t[i].name@ != t[from].name@);
            }
            let rest = role_hits(t, from + 1, q, SearchMode::Exact, threshold, (cap - 1) as nat);
            assert(rest == Seq::<(int, Score)>::empty());
            assert(role_hits(t, from, q, SearchMode::Exact, threshold, cap) == seq![
                (from, exact_score()),
            ] + rest);
            assert(seq![(from, exact_score())] + Seq::<(int, Score)>::empty() =~= seq![
                (from, exact_score()),
            ]);
            assert forall|i: int|
                from <= i < t.len() && #[trigger] t[i].name@ == q implies i == from by {
                if i != from {
                    assert(t[i].name@ != t[from].name@);
                }
            }
        }
    }
}

/// Exact mode matches names case-sensitively and whole: a query equal to the
/// name of a permission (or role) finds that entry alone, scored 1, and a
/// query equal to no name finds nothing.
pub proof fn lemma_exact_mode(e: &SearchEngine, q: Seq<char>, threshold: Score)
    requires
        e.wf(),
    ensures
        forall|i: int|
            0 <= i < e.permission_table().len() && #[trigger] e.permission_table()[i].name@ == q
                ==> permission_hits(
                e.permission_table(),
                0,
                q,
                SearchMode::Exact,
                threshold,
                MAX_RESULTS as nat,
            ) == seq![(i, exact_score())],
        !has_permission(e.permission_table(), q) ==> permission_hits(
            e.permission_table(),
            0,
            q,
            SearchMode::Exact,
            threshold,
            MAX_RESULTS as nat,
        ) == Seq::<(int, Score)>::empty(),
        forall|j: int|
            0 <= j < e.role_table().len() && #[trigger] e.role_table()[j].name@ == q ==> role_hits(
                e.role_table(),
                0,
                q,
                SearchMode::Exact,
                threshold,
                MAX_RESULTS as nat,
            ) == seq![(j, exact_score())],
        !has_role(e.role_table(), q) ==> role_hits(
            e.role_table(),
            0,
            q,
            SearchMode::Exact,
            threshold,
            MAX_RESULTS as nat,
        ) == Seq::<(int, Score)>::empty(),
{
    lemma_exact_permission_hits(e.permission_table(), 0, q, threshold, MAX_RESULTS as nat);
    lemma_exact_role_hits(e.role_table(), 0, q, threshold, MAX_RESULTS as nat);
}

pub proof fn lemma_push_contains<A>(s: Seq<A>, a: A, x: A)
    ensures
        s.push(a).contains(x) <==> (s.contains(x) || x == a),
{
    if s.push(a).contains(x) {
        let i = choose|i: int| 0 <= i < s.len() + 1 && s.push(a)[i] == x;
        if i < s.len() {
            assert(s[i] == x);
        }
    }
    if s.contains(x) {
        let i = choose|i: int| 0 <= i < s.len() && s[i] == x;
        assert(s.push(a)[i] == x);
    }
    if x == a {
        assert(s.push(a)[s.len() as int] == a);
    }
}

/// A copy of a list of names.
fn copy_names(v: &Vec<String>) -> (r: Vec<String>)
    ensures
        texts(r@) == texts(v@),
{
    let mut r: Vec<String> = Vec::new();
    let mut i: usize = 0;
    while i < v.len()
        invariant
            i <= v@.len(),
            r@.len() == i,
            texts(r@) == texts(v@.take(i as int)),
        decreases v.len() - i,
    {
        let c = v[i].clone();
        let ghost r0 = r@;
        r.push(c);
        assert(texts(r@) =~= texts(r0).push(v@[i as int]@));
        assert(texts(v@.take(i + 1)) =~= texts(v@.take(i as int)).push(v@[i as int]@));
        i += 1;
    }
    assert(v@.take(v@.len() as int) =~= v@);
    r
}

/// A copy of `v` without the entries equal to `name`.
fn without(v: &Vec<String>, name: &String) -> (r: Vec<String>)
    ensures
        forall|x: Seq<char>| #[trigger] texts(r@).contains(x) <==> (texts(v@).contains(x) && x != name@),
{
    let mut r: Vec<String> = Vec::new();
    let mut i: usize = 0;
    while i < v.len()
        invariant
            i <= v@.len(),
            forall|x: Seq<char>|
                #[trigger] texts(r@).contains(x) <==> (texts(v@.take(i as int)).contains(x) && x != name@),
        decreases v.len() - i,
    {
        let ghost r0 = r@;
        let ghost t0 = texts(v@.take(i as int));
        assert(texts(v@.take(i + 1)) =~= t0.push(v@[i as int]@));
        if !(v[i] == *name) {
            r.push(v[i].clone());
            assert(texts(r@) =~= texts(r0).push(v@[i as int]@));
            assert forall|x: Seq<char>|
                #[trigger] texts(r@).contains(x) <==> (texts(v@.take(i + 1)).contains(x) && x != name@) by {
                lemma_push_contains(texts(r0), v@[i as int]@, x);
                lemma_push_contains(t0, v@[i as int]@, x);
            }
        } else {
            assert forall|x: Seq<char>|
                #[trigger] texts(r@).contains(x) <==> (texts(v@.take(i + 1)).contains(x) && x != name@) by {
                lemma_push_contains(t0, v@[i as int]@, x);
            }
        }
        i += 1;
    }
    assert(v@.take(v@.len() as int) =~= v@);
    r
}

} // verus!
