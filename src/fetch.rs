//! Decisions of the catalog collector: paging through the upstream role
//! listing, backing off when rate limited, classifying answers, and deriving
//! the permission list from the roles collected.

use vstd::prelude::*;
use crate::catalog::{stage_named, GcpRoleResponse, GcpRolesResponse, IamPermission, IamRole, RawGcpData};
use crate::keywords::keywords_of;
use crate::engine::{texts, with_names};
use crate::errors::ScraperError;
use crate::segments::segment;
use crate::table::NameTable;
use crate::transformer::permission_names;

verus! {

/// Retries of one page request after rate limiting, before a long pause.
pub const MAX_RETRIES: u32 = 5;

/// First back-off delay, in milliseconds; each retry doubles it.
pub const INITIAL_BACKOFF_MS: u64 = 100;

/// Pause after the retries of a page are spent, in milliseconds.
pub const RATE_LIMIT_PAUSE_MS: u64 = 10000;

/// `2^k`.
pub open spec fn doubling(k: nat) -> nat
    decreases k,
{
    if k == 0 {
        1
    } else {
        2 * doubling((k - 1) as nat)
    }
}

/// What the collector does next.
#[derive(Debug)]
pub enum FetchAction {
    /// Request the page after `page_token` (the first page for `None`).
    Request { page_token: Option<String> },
    /// Wait `millis` milliseconds, then request that page again.
    Retry { millis: u64, page_token: Option<String> },
    /// Every page has been received.
    Finished,
    /// Give up with this error.
    Failed(ScraperError),
}

/// What came back from a page request.
#[derive(Debug)]
pub enum FetchEvent {
    Page(GcpRolesResponse),
    Error(ScraperError),
}

/// Progress of a collection run: the roles received so far, the page to ask
/// for, and the rate-limit retries spent on it.
#[derive(Debug)]
pub struct FetchState {
    pub roles: Vec<IamRole>,
    pub page_token: Option<String>,
    pub retry_count: u32,
}

/// The permissions listed by `roles`, role by role, in list order.
pub open spec fn listed_names(roles: Seq<IamRole>) -> Seq<Seq<char>>
    decreases roles.len(),
{
    if roles.len() == 0 {
        Seq::empty()
    } else {
        listed_names(roles.drop_last()) + texts(roles.last().included_permissions@)
    }
}

/// `p` is a permission freshly created from its name.
pub open spec fn fresh_permission(p: IamPermission) -> bool {
    &&& p.service@ == segment(p.name@, 0)
    &&& p.resource@ == segment(p.name@, 1)
    &&& p.action@ == segment(p.name@, 2)
    &&& p.description is None
    &&& p.custom_roles_support_level is None
    &&& p.stage is None
    &&& p.api_disabled is None
    &&& p.roles_granting@.len() == 0
}

/// `r` is the catalog role made from upstream description `g`.
pub open spec fn converted(r: IamRole, g: GcpRoleResponse) -> bool {
    &&& r.name == g.name
    &&& r.title == g.title
    &&& r.description == g.description
    &&& r.stage == stage_named(g.stage@)
    &&& r.included_permissions == g.included_permissions
    &&& r.etag == g.etag
    &&& r.deleted == g.deleted
    &&& r.permission_count == g.included_permissions@.len()
    &&& texts(r.keywords@) == keywords_of(g.title@, g.description@)
}

/// Appends the catalog role of each upstream role description of a page, in
/// order.
fn convert_roles(page: Vec<GcpRoleResponse>, out: &mut Vec<IamRole>)
    ensures
        final(out)@.len() == old(out)@.len() + page@.len(),
        forall|i: int| 0 <= i < old(out)@.len() ==> final(out)@[i] == old(out)@[i],
        forall|k: int|
            0 <= k < page@.len() ==> converted(#[trigger] final(out)@[old(out)@.len() + k], page@[k]),
{
    let ghost orig = page@;
    let ghost n = page@.len();
    let mut page = page;
    let mut rest: Vec<GcpRoleResponse> = Vec::new();
    while page.len() > 0
        invariant
            page@ == orig.take(page@.len() as int),
            page@.len() + rest@.len() == n,
            n == orig.len(),
            forall|k: int| 0 <= k < rest@.len() ==> #[trigger] rest@[k] == orig[n - 1 - k],
        decreases page.len(),
    {
        let ghost before = page@;
        let r = page.pop().unwrap();
        assert(r == orig[page@.len() as int]);
        assert(page@ =~= orig.take(page@.len() as int));
        rest.push(r);
    }
    let ghost start = out@;
    let ghost full = rest@;
    while rest.len() > 0
        invariant
            n == orig.len(),
            full.len() == n,
            forall|k: int| 0 <= k < n ==> #[trigger] full[k] == orig[n - 1 - k],
            rest@.len() <= n,
            rest@ == full.take(rest@.len() as int),
            out@.len() == start.len() + (n - rest@.len()),
            forall|i: int| 0 <= i < start.len() ==> out@[i] == start[i],
            forall|k: int|
                0 <= k < n - rest@.len() ==> converted(#[trigger] out@[start.len() + k], orig[k]),
        decreases rest.len(),
    {
        let ghost m = rest@.len();
        let ghost rest0 = rest@;
        assert(rest0[m - 1] == full[m - 1]);
        let r = rest.pop().unwrap();
        assert(r == rest0[m - 1]);
        assert(r == full[m - 1]);
        assert(r == orig[n - m]);
        assert(rest@ =~= full.take(rest@.len() as int));
        out.push(IamRole::from_gcp(r));
    }
}

impl FetchState {
    /// A run that has received nothing and asks for the first page.
    pub fn new() -> (r: FetchState)
        ensures
            r.roles@.len() == 0,
            r.page_token is None,
            r.retry_count == 0,
    {
        FetchState { roles: Vec::new(), page_token: None, retry_count: 0 }
    }

    /// The first action of a run: request the current page.
    pub fn start(&self) -> (r: FetchAction)
        ensures
            r matches FetchAction::Request { page_token } && page_token == self.page_token,
    {
        FetchAction::Request { page_token: self.page_token.clone() }
    }

    /// Takes in the outcome of a page request and says what to do next. A
    /// page adds its roles and moves on to the next page, or finishes when
    /// there is none. A rate-limit error is retried after `100 * 2^k` ms for
    /// the first five tries, then after a ten-second pause that starts the
    /// count anew. Any other error ends the run.
    pub fn step(&mut self, event: FetchEvent) -> (r: FetchAction)
        requires
            old(self).retry_count <= MAX_RETRIES,
        ensures
            final(self).retry_count <= MAX_RETRIES,
            match event {
                FetchEvent::Page(resp) => {
                    &&& final(self).roles@.len() == old(self).roles@.len() + resp.roles@.len()
                    &&& forall|i: int|
                        0 <= i < old(self).roles@.len() ==> final(self).roles@[i] == old(self).roles@[i]
                    &&& forall|k: int|
                        0 <= k < resp.roles@.len() ==> converted(
                            #[trigger] final(self).roles@[old(self).roles@.len() + k],
                            resp.roles@[k],
                        )
                    &&& final(self).page_token == resp.next_page_token
                    &&& final(self).retry_count == 0
                    &&& match resp.next_page_token {
                        None => r is Finished,
                        Some(t) => r matches FetchAction::Request { page_token } && page_token == Some(t),
                    }
                },
                FetchEvent::Error(e) => {
                    &&& final(self).roles == old(self).roles
                    &&& final(self).page_token == old(self).page_token
                    &&& if !(e is GcpRateLimitError) {
                        &&& r == FetchAction::Failed(e)
                        &&& final(self).retry_count == old(self).retry_count
                    } else if old(self).retry_count < MAX_RETRIES {
                        &&& r matches FetchAction::Retry { millis, page_token } && millis
                            == INITIAL_BACKOFF_MS * doubling(old(self).retry_count as nat)
                            && page_token == old(self).page_token
                        &&& final(self).retry_count == old(self).retry_count + 1
                    } else {
                        &&& r matches FetchAction::Retry { millis, page_token } && millis
                            == RATE_LIMIT_PAUSE_MS && page_token == old(self).page_token
                        &&& final(self).retry_count == 0
                    }
                },
            },
    {
        match event {
            FetchEvent::Page(resp) => {
                convert_roles(resp.roles, &mut self.roles);
                self.retry_count = 0;
                self.page_token = resp.next_page_token;
                match &self.page_token {
                    None => FetchAction::Finished,
                    Some(t) => FetchAction::Request { page_token: Some(t.clone()) },
                }
            },
            FetchEvent::Error(e) => {
                if !e.is_rate_limit_error() {
                    return FetchAction::Failed(e);
                }
                if self.retry_count < MAX_RETRIES {
                    let mut millis: u64 = INITIAL_BACKOFF_MS;
                    let mut k: u32 = 0;
                    while k < self.retry_count
                        invariant
                            k <= self.retry_count < MAX_RETRIES,
                            millis == INITIAL_BACKOFF_MS * doubling(k as nat),
                            millis <= INITIAL_BACKOFF_MS * 16,
                        decreases self.retry_count - k,
                    {
                        proof {
                            assert(doubling((k + 1) as nat) == 2 * doubling(k as nat));
                            lemma_doubling_small(k as nat);
                        }
                        millis = millis * 2;
                        k += 1;
                    }
                    self.retry_count = self.retry_count + 1;
                    FetchAction::Retry { millis, page_token: self.page_token.clone() }
                } else {
                    self.retry_count = 0;
                    FetchAction::Retry { millis: RATE_LIMIT_PAUSE_MS, page_token: self.page_token.clone() }
                }
            },
        }
    }

    /// The fetched catalog: the roles received and the distinct permissions
    /// they list, each created from its name, in order of first listing.
    pub fn finish(self, fetched_at: String) -> (r: RawGcpData)
        ensures
            r.roles == self.roles,
            r.fetched_at == fetched_at,
            permission_names(r.permissions@) == with_names(Seq::empty(), listed_names(self.roles@)),
            forall|i: int| 0 <= i < r.permissions@.len() ==> fresh_permission(#[trigger] r.permissions@[i]),
    {
        let permissions = collect_permissions(&self.roles);
        RawGcpData { roles: self.roles, permissions, fetched_at }
    }
}

proof fn lemma_doubling_small(k: nat)
    requires
        k < 4,
    ensures
        doubling(k) <= 8,
        doubling(k + 1) <= 16,
{
    assert(doubling(0) == 1);
    assert(doubling(1) == 2);
    assert(doubling(2) == 4);
    assert(doubling(3) == 8);
    assert(doubling(4) == 16);
}

/// The distinct permissions that `roles` list, each created from its name, in
/// order of first listing.
pub fn collect_permissions(roles: &Vec<IamRole>) -> (r: Vec<IamPermission>)
    ensures
        permission_names(r@) == with_names(Seq::empty(), listed_names(roles@)),
        forall|i: int| 0 <= i < r@.len() ==> fresh_permission(#[trigger] r@[i]),
{
    let mut all: Vec<String> = Vec::new();
    let mut j: usize = 0;
    assert(listed_names(roles@.take(0)) =~= Seq::empty());
    assert(texts(all@) =~= Seq::empty());
    while j < roles.len()
        invariant
            j <= roles@.len(),
            texts(all@) == listed_names(roles@.take(j as int)),
        decreases roles.len() - j,
    {
        let inc = &roles[j].included_permissions;
        let ghost base = texts(all@);
        let mut k: usize = 0;
        assert(texts(inc@).take(0) =~= Seq::empty());
        assert(base + Seq::empty() =~= base);
        while k < inc.len()
            invariant
                k <= inc@.len(),
                texts(all@) == base + texts(inc@).take(k as int),
            decreases inc.len() - k,
        {
            let ghost a0 = all@;
            all.push(inc[k].clone());
            assert(texts(all@) =~= texts(a0).push(inc@[k as int]@));
            assert(texts(inc@).take(k + 1) =~= texts(inc@).take(k as int).push(inc@[k as int]@));
            assert(base + texts(inc@).take(k + 1) =~= (base + texts(inc@).take(k as int)).push(
                inc@[k as int]@,
            ));
            k += 1;
        }
        assert(texts(inc@).take(inc@.len() as int) =~= texts(inc@));
        assert(roles@.take(j + 1).drop_last() =~= roles@.take(j as int));
        j += 1;
    }
    assert(roles@.take(roles@.len() as int) =~= roles@);
    let ghost flat = texts(all@);
    let mut seen: NameTable<usize> = NameTable::new();
    let mut out: Vec<IamPermission> = Vec::new();
    let mut i: usize = 0;
    assert(flat.take(0) =~= Seq::empty());
    assert(permission_names(out@) =~= Seq::empty());
    while i < all.len()
        invariant
            flat == texts(all@),
            i <= all@.len(),
            seen.wf(),
            seen.keys() == permission_names(out@),
            permission_names(out@) == with_names(Seq::empty(), flat.take(i as int)),
            forall|m: int| 0 <= m < out@.len() ==> fresh_permission(#[trigger] out@[m]),
        decreases all.len() - i,
    {
        proof {
            assert(flat.take(i + 1).drop_last() =~= flat.take(i as int));
        }
        if !seen.contains_key(all[i].as_str()) {
            let ghost o0 = out@;
            seen.insert(all[i].clone(), i);
            out.push(IamPermission::from_name(all[i].clone()));
            assert(permission_names(out@) =~= permission_names(o0).push(flat[i as int]));
        }
        i += 1;
    }
    assert(flat.take(all@.len() as int) =~= flat);
    out
}

/// The error that an upstream answer with HTTP status `status` stands for:
/// none for a success, an authentication error for 401 and 403, a rate-limit
/// error for 429, and an API error carrying the status and the body
/// otherwise. `status_text` is how the status reads (`429 Too Many
/// Requests`).
pub fn status_error(status: u16, status_text: &str, body: &str) -> (r: Option<ScraperError>)
    ensures
        200 <= status < 300 ==> r is None,
        (status == 401 || status == 403) ==> (r matches Some(ScraperError::GcpAuthError(m)) && m@
            == "Unauthorized to access GCP IAM API. Check service account permissions."@),
        status == 429 ==> (r matches Some(ScraperError::GcpRateLimitError(m)) && m@
            == "GCP API rate limit exceeded"@),
        !(200 <= status < 300) && status != 401 && status != 403 && status != 429 ==> (r matches Some(
            ScraperError::GcpApiError(m),
        ) && m@ == "GCP API error ("@ + status_text@ + "): "@ + body@),
{
    if status == 401 || status == 403 {
        return Some(
            ScraperError::GcpAuthError(
                String::from_str("Unauthorized to access GCP IAM API. Check service account permissions."),
            ),
        );
    }
    if status == 429 {
        return Some(ScraperError::GcpRateLimitError(String::from_str("GCP API rate limit exceeded")));
    }
    if 200 <= status && status < 300 {
        return None;
    }
    let mut m = String::from_str("GCP API error (");
    m.append(status_text);
    m.append("): ");
    m.append(body);
    Some(ScraperError::GcpApiError(m))
}

} // verus!
