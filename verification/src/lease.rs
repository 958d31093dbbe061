//! Leases: exclusive rights to resources, for a time, with a fence that grows.

use crate::rpc::{rpc_error, RpcError, RpcErrorView};
use crate::schema::{Lease, LeaseKind};
use crate::table::{
    find_in, lemma_position_from, lemma_position_unique, lemma_without, lookup, position, position_of, remove_by, removed_record_is_gone,
    unique, upsert_by, upsert_keeps_names_apart, upserted, upserted_record_is_found, without, Keyed,
};
use crate::text::{concat2, opt_eq, starts_with, str_eq};
use vstd::prelude::*;

verus! {

/// Why a lease could not be had or used.
#[derive(Debug, PartialEq, Eq)]
pub enum LeaseError {
    /// Somebody holds the resource, until a time.
    Active { owner: String, expires_at: u64 },
    NotFound,
    OwnedByOther,
    InvalidHandoff,
}

/// The fence of the last lease of a resource.
#[derive(Debug, Clone, PartialEq, Eq)]
pub struct Fence {
    pub resource: String,
    pub fence: u64,
}

impl Keyed for Lease {
    open spec fn key_view(&self) -> Seq<char> {
        self.resource@
    }

    fn key(&self) -> (r: &str) {
        self.resource.as_str()
    }
}

impl Keyed for Fence {
    open spec fn key_view(&self) -> Seq<char> {
        self.resource@
    }

    fn key(&self) -> (r: &str) {
        self.resource.as_str()
    }
}

/// The leases that are held, and the last fence of each resource.
#[derive(Debug)]
pub struct LeaseTable {
    pub leases: Vec<Lease>,
    pub fences: Vec<Fence>,
}

/// What a lease table holds.
pub struct LeasesView {
    pub leases: Seq<Lease>,
    pub fences: Seq<Fence>,
}

impl View for LeaseTable {
    type V = LeasesView;

    open spec fn view(&self) -> LeasesView {
        LeasesView { leases: self.leases@, fences: self.fences@ }
    }
}

/// The time at which something of `ttl` milliseconds that begins at `now` ends.
pub open spec fn later(now: u64, ttl: u64) -> u64 {
    if now + ttl <= u64::MAX {
        (now + ttl) as u64
    } else {
        u64::MAX
    }
}

/// The end of a span, held at the last representable time.
pub fn end_of(now: u64, ttl: u64) -> (r: u64)
    ensures
        r == later(now, ttl),
{
    if ttl <= u64::MAX - now {
        now + ttl
    } else {
        u64::MAX
    }
}

impl LeasesView {
    /// Each resource has at most one lease and one fence, and no lease is newer than its fence.
    pub open spec fn wf(self) -> bool {
        &&& unique(self.leases)
        &&& unique(self.fences)
        &&& forall|i: int|
            0 <= i < self.leases.len() ==> (#[trigger] self.leases[i]).fence <= self.fence_of(self.leases[i].resource@)
    }

    /// The lease of a resource.
    pub open spec fn held(self, resource: Seq<char>) -> Option<Lease> {
        find_in(self.leases, resource)
    }

    /// The fence of the last lease of a resource; zero where it never had one.
    pub open spec fn fence_of(self, resource: Seq<char>) -> u64 {
        match find_in(self.fences, resource) {
            Some(f) => f.fence,
            None => 0,
        }
    }

    /// The fence of the next lease of a resource.
    pub open spec fn next_fence(self, resource: Seq<char>) -> u64 {
        later(self.fence_of(resource), 1)
    }

    /// Whether somebody holds a resource at a time.
    pub open spec fn busy(self, resource: Seq<char>, now: u64) -> bool {
        self.held(resource) matches Some(l) && l.expires_at > now
    }

    /// The lease that a token gives its owner at a time, or why it gives none.
    pub open spec fn check(self, resource: Seq<char>, owner: Seq<char>, token: Seq<char>, now: u64) -> Result<
        Lease,
        LeaseError,
    > {
        match self.held(resource) {
            None => Err(LeaseError::NotFound),
            Some(l) => if l.expires_at <= now {
                Err(LeaseError::NotFound)
            } else if l.owner@ != owner || l.token@ != token {
                Err(LeaseError::OwnedByOther)
            } else {
                Ok(l)
            },
        }
    }

    /// The table with a lease put in, which is the newest of its resource.
    pub open spec fn grant(self, lease: Lease, fence: Fence) -> LeasesView {
        LeasesView { leases: upserted(self.leases, lease), fences: upserted(self.fences, fence) }
    }

    /// The table with one lease in another form.
    pub open spec fn put(self, lease: Lease) -> LeasesView {
        LeasesView { leases: upserted(self.leases, lease), ..self }
    }

    /// The table without the lease of a resource. Its fence stays.
    pub open spec fn drop_lease(self, resource: Seq<char>) -> LeasesView {
        LeasesView { leases: without(self.leases, resource), ..self }
    }
}

/// What a lease that begins at `now` says.
pub open spec fn begins(
    lease: Lease,
    kind: LeaseKind,
    resource: Seq<char>,
    owner: Seq<char>,
    id: Seq<char>,
    token: Seq<char>,
    fence: u64,
    now: u64,
    ttl: u64,
) -> bool {
    &&& lease.id@ == id
    &&& lease.kind == kind
    &&& lease.resource@ == resource
    &&& lease.owner@ == owner
    &&& lease.token@ == token
    &&& lease.fence == fence
    &&& lease.acquired_at == now
    &&& lease.updated_at == now
    &&& lease.expires_at == later(now, ttl)
    &&& lease.handoff_to is None
}

/// Whether a fence is that of a lease.
pub open spec fn fences_lease(fence: Fence, lease: Lease) -> bool {
    fence.resource@ == lease.resource@ && fence.fence == lease.fence
}

/// The fence after a grant is the one granted; every other resource keeps its fence and lease.
pub proof fn lemma_grant(t: LeasesView, lease: Lease, fence: Fence, other: Seq<char>)
    requires
        t.wf(),
        fences_lease(fence, lease),
        lease.fence >= t.fence_of(lease.resource@),
    ensures
        t.grant(lease, fence).wf(),
        t.grant(lease, fence).held(lease.resource@) == Some(lease),
        t.grant(lease, fence).fence_of(lease.resource@) == lease.fence,
        other != lease.resource@ ==> t.grant(lease, fence).held(other) == t.held(other),
        other != lease.resource@ ==> t.grant(lease, fence).fence_of(other) == t.fence_of(other),
{
    let g = t.grant(lease, fence);
    upsert_keeps_names_apart(t.leases, lease);
    upsert_keeps_names_apart(t.fences, fence);
    upserted_record_is_found(t.leases, lease, other);
    upserted_record_is_found(t.fences, fence, other);
    assert forall|i: int| 0 <= i < g.leases.len() implies (#[trigger] g.leases[i]).fence <= g.fence_of(
        g.leases[i].resource@,
    ) by {
        let l = g.leases[i];
        upserted_record_is_found(t.fences, fence, l.resource@);
        lemma_position_from(t.leases, lease.resource@, 0);
        if l != lease {
            assert(i < t.leases.len() && t.leases[i] == l);
            if l.resource@ == lease.resource@ {
                match position_of(t.leases, lease.resource@) {
                    Some(k) => {
                        assert(g.leases[k] == lease);
                        assert(t.leases[k].key_view() == t.leases[i].key_view());
                        assert(k == i);
                    },
                    None => {},
                }
            }
        }
    }
}

/// Putting a lease back in another form keeps the table in order.
pub proof fn lemma_put(t: LeasesView, lease: Lease)
    requires
        t.wf(),
        t.held(lease.resource@) matches Some(l) && lease.fence <= t.fence_of(lease.resource@),
    ensures
        t.put(lease).wf(),
        t.put(lease).held(lease.resource@) == Some(lease),
{
    let g = t.put(lease);
    upsert_keeps_names_apart(t.leases, lease);
    upserted_record_is_found(t.leases, lease, lease.resource@);
    lemma_position_from(t.leases, lease.resource@, 0);
    assert forall|i: int| 0 <= i < g.leases.len() implies (#[trigger] g.leases[i]).fence <= g.fence_of(
        g.leases[i].resource@,
    ) by {
        if g.leases[i] != lease {
            assert(t.leases[i] == g.leases[i]);
        }
    }
}

/// Dropping a lease keeps the table in order.
pub proof fn lemma_drop(t: LeasesView, resource: Seq<char>)
    requires
        t.wf(),
    ensures
        t.drop_lease(resource).wf(),
        t.drop_lease(resource).held(resource) is None,
{
    let g = t.drop_lease(resource);
    lemma_without(t.leases, resource);
    removed_record_is_gone(t.leases, resource, resource);
    assert forall|i: int| 0 <= i < g.leases.len() implies (#[trigger] g.leases[i]).fence <= g.fence_of(
        g.leases[i].resource@,
    ) by {
        assert(t.leases.contains(g.leases[i]));
        let k = choose|k: int| 0 <= k < t.leases.len() && t.leases[k] == g.leases[i];
        assert(t.leases[k].fence <= t.fence_of(t.leases[k].resource@));
    }
}

/// A lease that was just granted is good until it ends.
pub proof fn granted_lease_is_valid(t: LeasesView, lease: Lease, fence: Fence, now: u64)
    requires
        t.wf(),
        fences_lease(fence, lease),
        lease.fence >= t.fence_of(lease.resource@),
        lease.expires_at > now,
    ensures
        t.grant(lease, fence).check(lease.resource@, lease.owner@, lease.token@, now) == Ok::<
            Lease,
            LeaseError,
        >(lease),
        t.grant(lease, fence).busy(lease.resource@, now),
{
    lemma_grant(t, lease, fence, lease.resource@);
}

/// The token of a lease that was released gives nothing, and it gives nothing of the next lease
/// of the resource either, whose fence is greater.
pub proof fn old_token_gives_nothing(t: LeasesView, old_lease: Lease, next: Lease, fence: Fence, now: u64)
    requires
        t.wf(),
        t.held(old_lease.resource@) == Some(old_lease),
        next.resource@ == old_lease.resource@,
        next.token@ != old_lease.token@,
        next.fence == t.drop_lease(old_lease.resource@).next_fence(old_lease.resource@),
        fences_lease(fence, next),
    ensures
        t.drop_lease(old_lease.resource@).check(old_lease.resource@, old_lease.owner@, old_lease.token@, now) is Err,
        t.drop_lease(old_lease.resource@).grant(next, fence).check(
            old_lease.resource@,
            old_lease.owner@,
            old_lease.token@,
            now,
        ) is Err,
        old_lease.fence < u64::MAX ==> next.fence > old_lease.fence,
{
    let d = t.drop_lease(old_lease.resource@);
    lemma_drop(t, old_lease.resource@);
    lemma_grant(d, next, fence, next.resource@);
    lemma_position_from(t.leases, old_lease.resource@, 0);
}

/// The leases that have not ended at a time, in their order.
pub open spec fn unexpired(leases: Seq<Lease>, now: u64) -> Seq<Lease>
    decreases leases.len(),
{
    if leases.len() == 0 {
        leases
    } else if leases.last().expires_at > now {
        unexpired(leases.drop_last(), now).push(leases.last())
    } else {
        unexpired(leases.drop_last(), now)
    }
}

/// The leases that have ended at a time, in their order.
pub open spec fn expired(leases: Seq<Lease>, now: u64) -> Seq<Lease>
    decreases leases.len(),
{
    if leases.len() == 0 {
        leases
    } else if leases.last().expires_at <= now {
        expired(leases.drop_last(), now).push(leases.last())
    } else {
        expired(leases.drop_last(), now)
    }
}

proof fn lemma_unexpired(leases: Seq<Lease>, now: u64)
    ensures
        forall|i: int|
            0 <= i < unexpired(leases, now).len() ==> (#[trigger] unexpired(leases, now)[i]).expires_at > now
                && leases.contains(unexpired(leases, now)[i]),
        unique(leases) ==> unique(unexpired(leases, now)),
        unexpired(leases, now).len() + expired(leases, now).len() == leases.len(),
        expired(leases, now).len() == 0 ==> unexpired(leases, now) == leases,
    decreases leases.len(),
{
    if leases.len() > 0 {
        let head = leases.drop_last();
        let u = unexpired(leases, now);
        let uh = unexpired(head, now);
        lemma_unexpired(head, now);
        assert forall|i: int| 0 <= i < u.len() implies (#[trigger] u[i]).expires_at > now && leases.contains(
            u[i],
        ) by {
            if i < uh.len() {
                assert(head.contains(uh[i]));
                let k = choose|k: int| 0 <= k < head.len() && head[k] == uh[i];
                assert(leases[k] == uh[i]);
            } else {
                assert(leases[leases.len() - 1] == leases.last());
            }
        }
        if unique(leases) {
            assert(unique(head)) by {
                assert forall|a: int, b: int| 0 <= a < b < head.len() implies (#[trigger] head[a]).key_view() != (
                #[trigger] head[b]).key_view() by {
                    assert(leases[a].key_view() != leases[b].key_view());
                }
            }
            assert forall|i: int, j: int| 0 <= i < j < u.len() implies (#[trigger] u[i]).key_view() != (
            #[trigger] u[j]).key_view() by {
                if j == uh.len() {
                    assert(head.contains(uh[i]));
                    let k = choose|k: int| 0 <= k < head.len() && head[k] == uh[i];
                    assert(leases[k].key_view() != leases[leases.len() - 1].key_view());
                }
            }
        }
        if expired(leases, now).len() == 0 {
            assert(u =~= leases);
        }
    }
}

/// The last lease of a resource in a list.
pub open spec fn last_lease(leases: Seq<Lease>, resource: Seq<char>) -> Option<Lease>
    decreases leases.len(),
{
    if leases.len() == 0 {
        None
    } else if leases.last().resource@ == resource {
        Some(leases.last())
    } else {
        last_lease(leases.drop_last(), resource)
    }
}

/// The greatest fence that the leases of a list have for a resource; zero where there is none.
pub open spec fn top_lease(leases: Seq<Lease>, resource: Seq<char>) -> u64
    decreases leases.len(),
{
    if leases.len() == 0 {
        0
    } else {
        let before = top_lease(leases.drop_last(), resource);
        if leases.last().resource@ == resource && leases.last().fence > before {
            leases.last().fence
        } else {
            before
        }
    }
}

/// The greatest fence that a list has for a resource; zero where there is none.
pub open spec fn top_fence(fences: Seq<Fence>, resource: Seq<char>) -> u64
    decreases fences.len(),
{
    if fences.len() == 0 {
        0
    } else {
        let before = top_fence(fences.drop_last(), resource);
        if fences.last().resource@ == resource && fences.last().fence > before {
            fences.last().fence
        } else {
            before
        }
    }
}

/// The fence that a list gives a resource; zero where there is none.
pub open spec fn fence_in(fences: Seq<Fence>, resource: Seq<char>) -> u64 {
    match find_in(fences, resource) {
        Some(f) => f.fence,
        None => 0,
    }
}

/// The greater of two fences.
pub open spec fn greater(a: u64, b: u64) -> u64 {
    if a > b {
        a
    } else {
        b
    }
}

impl LeaseTable {
    /// The table without leases.
    pub fn new() -> (r: LeaseTable)
        ensures
            r@.wf(),
            r@.leases == Seq::<Lease>::empty(),
            r@.fences == Seq::<Fence>::empty(),
    {
        LeaseTable { leases: Vec::new(), fences: Vec::new() }
    }

    /// The table that a snapshot describes: the last lease of each resource, and for each
    /// resource the greatest fence that the snapshot knows of.
    pub fn from_snapshot(leases: Vec<Lease>, fences: Vec<Fence>) -> (r: LeaseTable)
        ensures
            r@.wf(),
            forall|resource: Seq<char>| #[trigger] r@.held(resource) == last_lease(leases@, resource),
            forall|resource: Seq<char>|
                #[trigger] r@.fence_of(resource) == greater(
                    top_fence(fences@, resource),
                    top_lease(leases@, resource),
                ),
            forall|i: int| 0 <= i < r@.leases.len() ==> leases@.contains(#[trigger] r@.leases[i]),
            unique(leases@) ==> r@.leases == leases@,
            (LeasesView { leases: leases@, fences: fences@ }).wf() ==> r@ == (LeasesView {
                leases: leases@,
                fences: fences@,
            }),
    {
        let ghost given = LeasesView { leases: leases@, fences: fences@ };
        let mut table = LeaseTable::new();
        let mut fs = fences;
        let mut i: usize = 0;
        let n = fs.len();
        let mut ordered: Vec<Fence> = Vec::new();
        while i < n
            invariant
                n == given.fences.len(),
                i <= n,
                fs@ == given.fences,
                unique(ordered@),
                unique(given.fences) ==> ordered@ == given.fences.take(i as int),
                forall|resource: Seq<char>|
                    #[trigger] fence_in(ordered@, resource) == top_fence(given.fences.take(i as int), resource),
            decreases n - i,
        {
            let f = Fence { resource: fs[i].resource.clone(), fence: fs[i].fence };
            let kept = match position(&ordered, f.resource.as_str()) {
                Some(k) => ordered[k].fence,
                None => 0,
            };
            proof {
                assert(f == given.fences[i as int]);
                lemma_position_from(ordered@, f.resource@, 0);
                upsert_keeps_names_apart(ordered@, f);
                if unique(given.fences) {
                    match position_of(ordered@, f.resource@) {
                        Some(k) => {
                            assert(given.fences[k].key_view() != given.fences[i as int].key_view());
                        },
                        None => {},
                    }
                    assert(given.fences.take(i + 1) =~= given.fences.take(i as int).push(f));
                }
            }
            let ghost before = ordered@;
            if f.fence >= kept {
                upsert_by(&mut ordered, f);
            }
            proof {
                let next = given.fences.take(i + 1);
                assert(next.drop_last() =~= given.fences.take(i as int));
                assert(next.last() == f);
                assert forall|resource: Seq<char>| #[trigger] fence_in(ordered@, resource) == top_fence(
                    next,
                    resource,
                ) by {
                    assert(fence_in(before, resource) == top_fence(given.fences.take(i as int), resource));
                    if f.fence >= kept {
                        upserted_record_is_found(before, f, resource);
                    }
                }
            }
            i += 1;
        }
        proof {
            assert(given.fences.take(n as int) =~= given.fences);
        }
        table.fences = ordered;
        assert forall|resource: Seq<char>| #[trigger] table@.fence_of(resource) == greater(
            top_fence(given.fences, resource),
            top_lease(given.leases.take(0), resource),
        ) by {
            assert(fence_in(table@.fences, resource) == top_fence(given.fences, resource));
        }
        assert forall|resource: Seq<char>| #[trigger] table@.held(resource) == last_lease(
            given.leases.take(0),
            resource,
        ) by {
            lemma_position_from(table@.leases, resource, 0);
        }
        let ls = leases;
        let m = ls.len();
        let mut j: usize = 0;
        while j < m
            invariant
                m == given.leases.len(),
                j <= m,
                ls@ == given.leases,
                table@.wf(),
                forall|k: int| 0 <= k < table@.leases.len() ==> given.leases.contains(#[trigger] table@.leases[k]),
                unique(given.leases) ==> table@.leases == given.leases.take(j as int),
                unique(given.fences) && given.wf() ==> table@.fences == given.fences,
                forall|resource: Seq<char>|
                    #[trigger] table@.held(resource) == last_lease(given.leases.take(j as int), resource),
                forall|resource: Seq<char>|
                    #[trigger] table@.fence_of(resource) == greater(
                        top_fence(given.fences, resource),
                        top_lease(given.leases.take(j as int), resource),
                    ),
            decreases m - j,
        {
            let lease = ls[j].clone();
            let seen = table.fence_of(lease.resource.as_str());
            let top = if lease.fence > seen {
                lease.fence
            } else {
                seen
            };
            let ghost before = table@;
            proof {
                assert(lease == given.leases[j as int]);
                lemma_position_from(before.leases, lease.resource@, 0);
                upserted_record_is_found(before.leases, lease, lease.resource@);
                upsert_keeps_names_apart(before.leases, lease);
                if unique(given.leases) {
                    match position_of(before.leases, lease.resource@) {
                        Some(k) => {
                            assert(given.leases[k].key_view() != given.leases[j as int].key_view());
                        },
                        None => {},
                    }
                    assert(given.leases.take(j + 1) =~= given.leases.take(j as int).push(lease));
                }
            }
            let ghost next = given.leases.take(j + 1);
            proof {
                assert(next.drop_last() =~= given.leases.take(j as int));
                assert(next.last() == lease);
            }
            if top > seen {
                let fence = Fence { resource: lease.resource.clone(), fence: top };
                proof {
                    lemma_grant(before, lease, fence, lease.resource@);
                }
                upsert_by(&mut table.fences, fence);
                upsert_by(&mut table.leases, lease);
                proof {
                    assert(table@ == before.grant(lease, fence));
                    assert forall|resource: Seq<char>| #[trigger] table@.held(resource) == last_lease(
                        next,
                        resource,
                    ) by {
                        assert(before.held(resource) == last_lease(next.drop_last(), resource));
                        lemma_grant(before, lease, fence, resource);
                    }
                    assert forall|resource: Seq<char>| #[trigger] table@.fence_of(resource) == greater(
                        top_fence(given.fences, resource),
                        top_lease(next, resource),
                    ) by {
                        assert(before.fence_of(resource) == greater(
                            top_fence(given.fences, resource),
                            top_lease(next.drop_last(), resource),
                        ));
                        lemma_grant(before, lease, fence, resource);
                    }
                }
            } else {
                proof {
                    let g = before.put(lease);
                    assert forall|i: int| 0 <= i < g.leases.len() implies (#[trigger] g.leases[i]).fence
                        <= g.fence_of(g.leases[i].resource@) by {
                        if g.leases[i] != lease {
                            assert(before.leases[i] == g.leases[i]);
                        }
                    }
                }
                upsert_by(&mut table.leases, lease);
                proof {
                    assert(table@ == before.put(lease));
                    assert forall|resource: Seq<char>| #[trigger] table@.held(resource) == last_lease(
                        next,
                        resource,
                    ) by {
                        assert(before.held(resource) == last_lease(next.drop_last(), resource));
                        upserted_record_is_found(before.leases, lease, resource);
                    }
                    assert forall|resource: Seq<char>| #[trigger] table@.fence_of(resource) == greater(
                        top_fence(given.fences, resource),
                        top_lease(next, resource),
                    ) by {
                        assert(before.fence_of(resource) == greater(
                            top_fence(given.fences, resource),
                            top_lease(next.drop_last(), resource),
                        ));
                    }
                }
            }
            proof {
                assert forall|k: int| 0 <= k < table@.leases.len() implies given.leases.contains(
                    #[trigger] table@.leases[k],
                ) by {
                    if table@.leases[k] != lease {
                        assert(before.leases[k] == table@.leases[k]);
                    }
                }
            }
            j += 1;
        }
        proof {
            assert(given.leases.take(m as int) =~= given.leases);
        }
        table
    }

    /// The fence of the last lease of `resource`; zero where it never had one.
    pub fn fence_of(&self, resource: &str) -> (r: u64)
        ensures
            r == self@.fence_of(resource@),
    {
        match lookup(&self.fences, resource) {
            Some(f) => f.fence,
            None => 0,
        }
    }

    /// The lease of `resource`.
    pub fn get(&self, resource: &str) -> (r: Option<&Lease>)
        ensures
            match r {
                Some(l) => self@.held(resource@) == Some(*l),
                None => self@.held(resource@) is None,
            },
    {
        lookup(&self.leases, resource)
    }

    /// Copies of all leases, in the order of the table.
    pub fn snapshot(&self) -> (r: Vec<Lease>)
        ensures
            r@ == self@.leases,
    {
        let mut out: Vec<Lease> = Vec::new();
        let mut i: usize = 0;
        while i < self.leases.len()
            invariant
                i <= self.leases.len(),
                out@ == self.leases@.take(i as int),
            decreases self.leases.len() - i,
        {
            out.push(self.leases[i].clone());
            assert(self.leases@.take(i + 1) =~= self.leases@.take(i as int).push(self.leases@[i as int]));
            i += 1;
        }
        assert(self.leases@.take(self.leases@.len() as int) =~= self.leases@);
        out
    }

    fn new_lease(
        kind: LeaseKind,
        resource: &str,
        owner: &str,
        id: &str,
        token: &str,
        fence: u64,
        now: u64,
        ttl_ms: u64,
    ) -> (r: Lease)
        ensures
            begins(r, kind, resource@, owner@, id@, token@, fence, now, ttl_ms),
    {
        Lease {
            id: id.to_owned(),
            kind,
            resource: resource.to_owned(),
            owner: owner.to_owned(),
            token: token.to_owned(),
            fence,
            acquired_at: now,
            updated_at: now,
            expires_at: end_of(now, ttl_ms),
            handoff_to: None,
        }
    }

    /// Takes a resource that nobody holds at `now`. The lease gets a fence greater than that of
    /// every earlier lease of the resource.
    pub fn acquire(
        &mut self,
        kind: LeaseKind,
        resource: &str,
        owner: &str,
        ttl_ms: u64,
        now: u64,
        id: &str,
        token: &str,
    ) -> (r: Result<Lease, LeaseError>)
        requires
            old(self)@.wf(),
        ensures
            final(self)@.wf(),
            r is Ok == !old(self)@.busy(resource@, now),
            r matches Ok(lease) ==> {
                &&& begins(lease, kind, resource@, owner@, id@, token@, old(self)@.next_fence(resource@), now, ttl_ms)
                &&& exists|fence: Fence|
                    #![trigger old(self)@.grant(lease, fence)]
                    fences_lease(fence, lease) && final(self)@ == old(self)@.grant(lease, fence)
                &&& final(self)@.held(resource@) == Some(lease)
            },
            r matches Err(e) ==> *final(self) == *old(self) && (old(self)@.held(resource@) matches Some(l) && e
                == (LeaseError::Active { owner: l.owner, expires_at: l.expires_at })),
    {
        if let Some(l) = self.get(resource) {
            if l.expires_at > now {
                return Err(LeaseError::Active { owner: l.owner.clone(), expires_at: l.expires_at });
            }
        }
        let ghost before = self@;
        let fence = end_of(self.fence_of(resource), 1);
        let lease = Self::new_lease(kind, resource, owner, id, token, fence, now, ttl_ms);
        let f = Fence { resource: resource.to_owned(), fence };
        proof {
            lemma_grant(before, lease, f, resource@);
        }
        let copy = lease.clone();
        upsert_by(&mut self.fences, f);
        upsert_by(&mut self.leases, copy);
        assert(self@ == before.grant(lease, f));
        Ok(lease)
    }

    /// The lease that `token` gives `owner` at `now`.
    pub fn validate(&self, resource: &str, owner: &str, token: &str, now: u64) -> (r: Result<&Lease, LeaseError>)
        ensures
            match r {
                Ok(l) => self@.check(resource@, owner@, token@, now) == Ok::<Lease, LeaseError>(*l),
                Err(e) => self@.check(resource@, owner@, token@, now) == Err::<Lease, LeaseError>(e),
            },
    {
        match self.get(resource) {
            None => Err(LeaseError::NotFound),
            Some(l) => {
                if l.expires_at <= now {
                    Err(LeaseError::NotFound)
                } else if !str_eq(l.owner.as_str(), owner) || !str_eq(l.token.as_str(), token) {
                    Err(LeaseError::OwnedByOther)
                } else {
                    Ok(l)
                }
            },
        }
    }

    /// Extends a lease to `ttl_ms` milliseconds from `now`.
    pub fn renew(&mut self, resource: &str, owner: &str, token: &str, ttl_ms: u64, now: u64) -> (r: Result<
        Lease,
        LeaseError,
    >)
        requires
            old(self)@.wf(),
        ensures
            final(self)@.wf(),
            match (r, old(self)@.check(resource@, owner@, token@, now)) {
                (Ok(lease), Ok(l)) => lease == (Lease { updated_at: now, expires_at: later(now, ttl_ms), ..l })
                    && final(self)@ == old(self)@.put(lease),
                (Err(e), Err(f)) => e == f && *final(self) == *old(self),
                _ => false,
            },
    {
        let mut lease = match self.validate(resource, owner, token, now) {
            Ok(l) => l.clone(),
            Err(e) => return Err(e),
        };
        proof {
            lemma_position_from(self@.leases, resource@, 0);
        }
        lease.updated_at = now;
        lease.expires_at = end_of(now, ttl_ms);
        self.replace(&lease);
        Ok(lease)
    }

    fn replace(&mut self, lease: &Lease)
        requires
            old(self)@.wf(),
            old(self)@.held(lease.resource@) matches Some(l) && lease.fence == l.fence,
        ensures
            final(self)@ == old(self)@.put(*lease),
            final(self)@.wf(),
    {
        let ghost before = self@;
        let copy = lease.clone();
        proof {
            lemma_position_from(before.leases, lease.resource@, 0);
            lemma_put(before, *lease);
        }
        upsert_by(&mut self.leases, copy);
        assert(self@ == before.put(*lease));
    }

    /// Gives a lease back. Its fence is remembered.
    pub fn release(&mut self, resource: &str, owner: &str, token: &str, now: u64) -> (r: Result<Lease, LeaseError>)
        requires
            old(self)@.wf(),
        ensures
            final(self)@.wf(),
            match (r, old(self)@.check(resource@, owner@, token@, now)) {
                (Ok(lease), Ok(l)) => lease == l && final(self)@ == old(self)@.drop_lease(resource@),
                (Err(e), Err(f)) => e == f && *final(self) == *old(self),
                _ => false,
            },
    {
        let lease = match self.validate(resource, owner, token, now) {
            Ok(l) => l.clone(),
            Err(e) => return Err(e),
        };
        let ghost before = self@;
        proof {
            lemma_drop(before, resource@);
        }
        remove_by(&mut self.leases, resource);
        assert(self@ == before.drop_lease(resource@));
        Ok(lease)
    }

    /// Offers a lease to `target`.
    pub fn handoff(&mut self, resource: &str, owner: &str, token: &str, target: &str, now: u64) -> (r: Result<
        Lease,
        LeaseError,
    >)
        requires
            old(self)@.wf(),
        ensures
            final(self)@.wf(),
            match (r, old(self)@.check(resource@, owner@, token@, now)) {
                (Ok(lease), Ok(l)) => (lease.handoff_to matches Some(t) && t@ == target@) && lease == (Lease {
                    updated_at: now,
                    handoff_to: lease.handoff_to,
                    ..l
                }) && final(self)@ == old(self)@.put(lease),
                (Err(e), Err(f)) => e == f && *final(self) == *old(self),
                _ => false,
            },
    {
        let mut lease = match self.validate(resource, owner, token, now) {
            Ok(l) => l.clone(),
            Err(e) => return Err(e),
        };
        proof {
            lemma_position_from(self@.leases, resource@, 0);
        }
        lease.updated_at = now;
        lease.handoff_to = Some(target.to_owned());
        self.replace(&lease);
        Ok(lease)
    }

    /// Asks the holder of a resource to hand it to `requester`. A resource that is on its way to
    /// somebody else cannot be asked for.
    pub fn request_handoff(&mut self, resource: &str, requester: &str, now: u64) -> (r: Result<Lease, LeaseError>)
        requires
            old(self)@.wf(),
        ensures
            final(self)@.wf(),
            match r {
                Ok(lease) => (old(self)@.held(resource@) matches Some(l) && (l.handoff_to matches Some(t) ==> t@
                    == requester@) && lease == (Lease { updated_at: now, handoff_to: lease.handoff_to, ..l }))
                    && (lease.handoff_to matches Some(t) && t@ == requester@) && final(self)@ == old(self)@.put(
                    lease,
                ),
                Err(LeaseError::NotFound) => old(self)@.held(resource@) is None && *final(self) == *old(self),
                Err(LeaseError::InvalidHandoff) => (old(self)@.held(resource@) matches Some(l) && (
                l.handoff_to matches Some(t) && t@ != requester@)) && *final(self) == *old(self),
                Err(_) => false,
            },
    {
        let mut lease = match self.get(resource) {
            Some(l) => l.clone(),
            None => return Err(LeaseError::NotFound),
        };
        if lease.handoff_to.is_some() && !opt_eq(&lease.handoff_to, requester) {
            return Err(LeaseError::InvalidHandoff);
        }
        proof {
            lemma_position_from(self@.leases, resource@, 0);
        }
        lease.updated_at = now;
        lease.handoff_to = Some(requester.to_owned());
        self.replace(&lease);
        Ok(lease)
    }

    /// Withdraws what `requester` asked for.
    pub fn cancel_handoff(&mut self, resource: &str, requester: &str, now: u64) -> (r: Result<Lease, LeaseError>)
        requires
            old(self)@.wf(),
        ensures
            final(self)@.wf(),
            match r {
                Ok(lease) => (old(self)@.held(resource@) matches Some(l) && (l.handoff_to matches Some(t) && t@
                    == requester@) && lease == (Lease { updated_at: now, handoff_to: None, ..l }))
                    && final(self)@ == old(self)@.put(lease),
                Err(LeaseError::NotFound) => old(self)@.held(resource@) is None && *final(self) == *old(self),
                Err(LeaseError::InvalidHandoff) => (old(self)@.held(resource@) matches Some(l) && !(
                l.handoff_to matches Some(t) && t@ == requester@)) && *final(self) == *old(self),
                Err(_) => false,
            },
    {
        let mut lease = match self.get(resource) {
            Some(l) => l.clone(),
            None => return Err(LeaseError::NotFound),
        };
        if !opt_eq(&lease.handoff_to, requester) {
            return Err(LeaseError::InvalidHandoff);
        }
        proof {
            lemma_position_from(self@.leases, resource@, 0);
        }
        lease.updated_at = now;
        lease.handoff_to = None;
        self.replace(&lease);
        Ok(lease)
    }

    /// Takes a resource that was offered to `owner`. The new lease has a greater fence and a
    /// token of its own, so the previous holder can no longer write or release.
    pub fn take_handoff(
        &mut self,
        resource: &str,
        owner: &str,
        ttl_ms: u64,
        now: u64,
        id: &str,
        token: &str,
    ) -> (r: Result<Lease, LeaseError>)
        requires
            old(self)@.wf(),
        ensures
            final(self)@.wf(),
            match r {
                Ok(lease) => {
                    &&& old(self)@.held(resource@) matches Some(l) && (l.handoff_to matches Some(t) && t@ == owner@)
                        && begins(
                        lease,
                        l.kind,
                        resource@,
                        owner@,
                        id@,
                        token@,
                        old(self)@.next_fence(resource@),
                        now,
                        ttl_ms,
                    )
                    &&& exists|fence: Fence|
                        #![trigger old(self)@.grant(lease, fence)]
                        fences_lease(fence, lease) && final(self)@ == old(self)@.grant(lease, fence)
                    &&& final(self)@.held(resource@) == Some(lease)
                },
                Err(LeaseError::NotFound) => old(self)@.held(resource@) is None && *final(self) == *old(self),
                Err(LeaseError::InvalidHandoff) => (old(self)@.held(resource@) matches Some(l) && !(
                l.handoff_to matches Some(t) && t@ == owner@)) && *final(self) == *old(self),
                Err(_) => false,
            },
    {
        let kind = match self.get(resource) {
            Some(l) => {
                if !opt_eq(&l.handoff_to, owner) {
                    return Err(LeaseError::InvalidHandoff);
                }
                l.kind
            },
            None => return Err(LeaseError::NotFound),
        };
        let ghost before = self@;
        let fence = end_of(self.fence_of(resource), 1);
        let lease = Self::new_lease(kind, resource, owner, id, token, fence, now, ttl_ms);
        let f = Fence { resource: resource.to_owned(), fence };
        proof {
            lemma_grant(before, lease, f, resource@);
        }
        let copy = lease.clone();
        upsert_by(&mut self.fences, f);
        upsert_by(&mut self.leases, copy);
        assert(self@ == before.grant(lease, f));
        Ok(lease)
    }

    /// Removes the leases that have ended at `now`, and returns them.
    pub fn reap_expired(&mut self, now: u64) -> (r: Vec<Lease>)
        requires
            old(self)@.wf(),
        ensures
            final(self)@.wf(),
            r@ == expired(old(self)@.leases, now),
            final(self)@ == (LeasesView { leases: unexpired(old(self)@.leases, now), ..old(self)@ }),
            r@.len() == 0 ==> final(self)@ == old(self)@,
    {
        let ghost before = self@;
        let mut kept: Vec<Lease> = Vec::new();
        let mut gone: Vec<Lease> = Vec::new();
        let mut i: usize = 0;
        while i < self.leases.len()
            invariant
                i <= self.leases.len(),
                self@ == before,
                kept@ == unexpired(before.leases.take(i as int), now),
                gone@ == expired(before.leases.take(i as int), now),
            decreases self.leases.len() - i,
        {
            let l = self.leases[i].clone();
            proof {
                assert(before.leases.take(i + 1).drop_last() =~= before.leases.take(i as int));
                assert(before.leases.take(i + 1).last() == before.leases[i as int]);
            }
            if l.expires_at > now {
                kept.push(l);
            } else {
                gone.push(l);
            }
            i += 1;
        }
        proof {
            assert(before.leases.take(before.leases.len() as int) =~= before.leases);
            lemma_unexpired(before.leases, now);
            let g = LeasesView { leases: kept@, ..before };
            assert forall|k: int| 0 <= k < g.leases.len() implies (#[trigger] g.leases[k]).fence <= g.fence_of(
                g.leases[k].resource@,
            ) by {
                assert(before.leases.contains(g.leases[k]));
                let m = choose|m: int| 0 <= m < before.leases.len() && before.leases[m] == g.leases[k];
                assert(before.leases[m].fence <= before.fence_of(before.leases[m].resource@));
            }
        }
        self.leases = kept;
        gone
    }
}

/// No lease that is left after reaping has ended, so a resource is held exactly while its lease
/// lasts.
pub proof fn reaped_table_holds_only_live_leases(t: LeasesView, now: u64, resource: Seq<char>)
    requires
        t.wf(),
    ensures
        ({
            let kept = LeasesView { leases: unexpired(t.leases, now), ..t };
            (kept.held(resource) is Some) == kept.busy(resource, now)
        }),
{
    lemma_unexpired(t.leases, now);
    let kept = LeasesView { leases: unexpired(t.leases, now), ..t };
    lemma_position_from(kept.leases, resource, 0);
}

/// A lease, as long as it has not ended.
pub open spec fn live(lease: Option<Lease>, now: u64) -> Option<Lease> {
    match lease {
        Some(l) => if l.expires_at > now {
            Some(l)
        } else {
            None
        },
        None => None,
    }
}

proof fn lemma_unexpired_keeps(leases: Seq<Lease>, now: u64, i: int)
    requires
        0 <= i < leases.len(),
        leases[i].expires_at > now,
    ensures
        unexpired(leases, now).contains(leases[i]),
    decreases leases.len(),
{
    let u = unexpired(leases, now);
    if i < leases.len() - 1 {
        let head = leases.drop_last();
        let uh = unexpired(head, now);
        lemma_unexpired_keeps(head, now, i);
        let k = choose|k: int| 0 <= k < uh.len() && uh[k] == head[i];
        assert(u[k] == leases[i]);
    } else {
        assert(u[u.len() - 1] == leases[i]);
    }
}

/// Reaping takes the leases that have ended, and only those.
pub proof fn reaping_takes_only_ended_leases(t: LeasesView, now: u64, resource: Seq<char>)
    requires
        t.wf(),
    ensures
        (LeasesView { leases: unexpired(t.leases, now), ..t }).held(resource) == live(t.held(resource), now),
{
    let kept = unexpired(t.leases, now);
    lemma_unexpired(t.leases, now);
    lemma_position_from(t.leases, resource, 0);
    lemma_position_from(kept, resource, 0);
    if let Some(k) = position_of(kept, resource) {
        assert(t.leases.contains(kept[k]));
        let i = choose|i: int| 0 <= i < t.leases.len() && t.leases[i] == kept[k];
        lemma_position_unique(t.leases, i);
    } else if let Some(i) = position_of(t.leases, resource) {
        if t.leases[i].expires_at > now {
            lemma_unexpired_keeps(t.leases, now, i);
            let k = choose|k: int| 0 <= k < kept.len() && kept[k] == t.leases[i];
            assert(kept[k].key_view() == resource);
        }
    }
}

/// What the error of a lease is called by a controller.
pub open spec fn lease_code(e: LeaseError) -> Seq<char> {
    match e {
        LeaseError::Active { .. } => "LEASE_ACTIVE"@,
        LeaseError::NotFound => "LEASE_NOT_FOUND"@,
        LeaseError::OwnedByOther => "LEASE_OWNED_BY_OTHER"@,
        LeaseError::InvalidHandoff => "INVALID_HANDOFF"@,
    }
}

/// The message of the error of a lease.
pub open spec fn lease_message(e: LeaseError) -> Seq<char> {
    match e {
        LeaseError::Active { owner, .. } => "lease is held by "@ + owner@,
        LeaseError::NotFound => "lease not found"@,
        LeaseError::OwnedByOther => "lease is owned by another owner or token"@,
        LeaseError::InvalidHandoff => "lease is not offered to this owner"@,
    }
}

/// The error of a lease as a controller answers it.
pub open spec fn lease_rpc(e: LeaseError) -> RpcErrorView {
    rpc_error(lease_code(e), lease_message(e))
}

impl LeaseError {
    /// The message of the error.
    pub fn message(&self) -> (r: String)
        ensures
            r@ == lease_message(*self),
    {
        match self {
            LeaseError::Active { owner, .. } => concat2("lease is held by ", owner.as_str()),
            LeaseError::NotFound => "lease not found".to_owned(),
            LeaseError::OwnedByOther => "lease is owned by another owner or token".to_owned(),
            LeaseError::InvalidHandoff => "lease is not offered to this owner".to_owned(),
        }
    }
}

/// The error of a lease as a controller answers it.
pub fn map_lease_error(error: LeaseError) -> (r: RpcError)
    ensures
        r@ == lease_rpc(error),
{
    let code = match &error {
        LeaseError::Active { .. } => "LEASE_ACTIVE",
        LeaseError::NotFound => "LEASE_NOT_FOUND",
        LeaseError::OwnedByOther => "LEASE_OWNED_BY_OTHER",
        LeaseError::InvalidHandoff => "INVALID_HANDOFF",
    };
    let message = error.message();
    RpcError::new(code, message.as_str())
}

/// The leases after those of a list are given back, the last first. One that cannot be given
/// back is passed over.
pub open spec fn released_all(t: LeasesView, acquired: Seq<Lease>, now: u64) -> LeasesView
    decreases acquired.len(),
{
    if acquired.len() == 0 {
        t
    } else {
        let l = acquired.last();
        let next = if t.check(l.resource@, l.owner@, l.token@, now) is Ok {
            t.drop_lease(l.resource@)
        } else {
            t
        };
        released_all(next, acquired.drop_last(), now)
    }
}

/// Gives the leases of a list back, the last first. One that cannot be given back is passed over.
pub fn release_acquired(leases: &mut LeaseTable, acquired: &Vec<Lease>, now: u64)
    requires
        old(leases)@.wf(),
    ensures
        final(leases)@.wf(),
        final(leases)@ == released_all(old(leases)@, acquired@, now),
{
    let mut i: usize = acquired.len();
    let ghost start = leases@;
    assert(acquired@.take(i as int) =~= acquired@);
    while i > 0
        invariant
            i <= acquired.len(),
            leases@.wf(),
            released_all(start, acquired@, now) == released_all(leases@, acquired@.take(i as int), now),
        decreases i,
    {
        i -= 1;
        proof {
            assert(acquired@.take(i + 1).drop_last() =~= acquired@.take(i as int));
            assert(acquired@.take(i + 1).last() == acquired@[i as int]);
        }
        let _ = leases.release(
            acquired[i].resource.as_str(),
            acquired[i].owner.as_str(),
            acquired[i].token.as_str(),
            now,
        );
    }
}

/// The place of a resource in the order in which leases are taken.
pub open spec fn rank_view(resource: Seq<char>) -> u8 {
    if "workspace:"@.is_prefix_of(resource) {
        1
    } else if "runtime:"@.is_prefix_of(resource) {
        2
    } else if "acceptance:"@.is_prefix_of(resource) {
        3
    } else {
        0
    }
}

/// The place of a resource in the order in which leases are taken: workspaces, then runtimes,
/// then acceptances; anything else is outside the order.
pub fn lease_order_rank(resource: &str) -> (r: u8)
    ensures
        r == rank_view(resource@),
{
    if starts_with(resource, "workspace:") {
        1
    } else if starts_with(resource, "runtime:") {
        2
    } else if starts_with(resource, "acceptance:") {
        3
    } else {
        0
    }
}

/// Whether an owner holds another resource of a lower rank than the one asked for.
pub open spec fn out_of_order(leases: Seq<Lease>, owner: Seq<char>, resource: Seq<char>) -> bool {
    exists|i: int|
        0 <= i < leases.len() && (#[trigger] leases[i]).owner@ == owner && leases[i].resource@ != resource
            && rank_view(leases[i].resource@) < rank_view(resource)
}

/// Whether `owner` holds another resource of a lower rank than `resource`.
pub fn violates_lease_order(leases: &Vec<Lease>, owner: &str, resource: &str) -> (r: bool)
    ensures
        r == out_of_order(leases@, owner@, resource@),
{
    let rank = lease_order_rank(resource);
    let mut i: usize = 0;
    while i < leases.len()
        invariant
            i <= leases.len(),
            rank == rank_view(resource@),
            forall|k: int|
                0 <= k < i ==> !((#[trigger] leases@[k]).owner@ == owner@ && leases@[k].resource@ != resource@
                    && rank_view(leases@[k].resource@) < rank_view(resource@)),
        decreases leases.len() - i,
    {
        if str_eq(leases[i].owner.as_str(), owner) && !str_eq(leases[i].resource.as_str(), resource)
            && lease_order_rank(leases[i].resource.as_str()) < rank {
            return true;
        }
        i += 1;
    }
    false
}

/// A number, held at the greatest that its place has room for.
pub open spec fn at_most(n: u64, most: u64) -> u64 {
    if n < most {
        n
    } else {
        most
    }
}

/// The greatest epoch that has a place of its own in an execution fence.
pub const MAX_FENCE_EPOCH: u64 = 63;

/// The last millisecond that has a place of its own in an execution fence.
pub const MAX_FENCE_TIME: u64 = 0x3ff_ffff_ffff;

/// The greatest fence of a lease that has a place of its own in an execution fence.
pub const MAX_FENCE_LEASE: u64 = 0xffff;

/// The fence under which an executor sees an operation: the epoch of the session in the high bits,
/// then the time, then the fence of the lease, each held at the greatest that its place has room
/// for.
pub open spec fn execution_fence(epoch: u64, lease_fence: u64, now: u64) -> u64 {
    (at_most(epoch, MAX_FENCE_EPOCH) * 0x400_0000_0000_0000 + at_most(now, MAX_FENCE_TIME) * 0x1_0000 + at_most(
        lease_fence,
        MAX_FENCE_LEASE,
    )) as u64
}

/// The fence under which an executor sees an operation. The epoch of the session forms its high
/// bits, so that a new home of the session supersedes the old one whatever their clocks say. Within
/// an epoch the fence is anchored in the time, and it keeps the low part of the lease's fence to
/// tell apart what happens within a millisecond.
pub fn executor_execution_fence(epoch: u64, lease_fence: u64, now: u64) -> (r: u64)
    ensures
        r == execution_fence(epoch, lease_fence, now),
{
    let high: u64 = if epoch < MAX_FENCE_EPOCH {
        epoch
    } else {
        MAX_FENCE_EPOCH
    };
    let middle: u64 = if now < MAX_FENCE_TIME {
        now
    } else {
        MAX_FENCE_TIME
    };
    let low: u64 = if lease_fence < MAX_FENCE_LEASE {
        lease_fence
    } else {
        MAX_FENCE_LEASE
    };
    high * 0x400_0000_0000_0000 + middle * 0x1_0000 + low
}

/// A later operation of an epoch has the greater fence: one of a later millisecond, and within a
/// millisecond one of a lease with a greater fence, as long as the time fits and the low fences
/// differ.
pub proof fn execution_fences_grow(epoch: u64, fence: u64, now: u64, next_fence: u64, later_now: u64)
    requires
        later_now <= MAX_FENCE_TIME,
        now < later_now || (now == later_now && fence < next_fence && fence < MAX_FENCE_LEASE),
    ensures
        execution_fence(epoch, fence, now) < execution_fence(epoch, next_fence, later_now),
{
}

/// An operation of a later epoch has the greater fence, whatever the fences of the leases and the
/// clocks of the two controllers are, as long as the epochs fit.
pub proof fn later_epochs_supersede(epoch: u64, fence: u64, now: u64, next_epoch: u64, next_fence: u64, next_now: u64)
    requires
        epoch < next_epoch,
        epoch < MAX_FENCE_EPOCH,
    ensures
        execution_fence(epoch, fence, now) < execution_fence(next_epoch, next_fence, next_now),
{
}

/// No operation of an epoch has a greater fence than the last one that a fence has room for.
pub proof fn execution_fences_are_bounded(epoch: u64, fence: u64, now: u64)
    ensures
        execution_fence(epoch, fence, now) <= execution_fence(epoch, MAX_FENCE_LEASE, MAX_FENCE_TIME),
        execution_fence(MAX_FENCE_EPOCH, MAX_FENCE_LEASE, MAX_FENCE_TIME) == u64::MAX,
{
}

/// A token gives its owner a resource exactly while a lease of that resource with this owner and
/// token is not past its end.
pub proof fn only_the_holder_is_let_in(t: LeasesView, resource: Seq<char>, owner: Seq<char>, token: Seq<char>, now: u64)
    ensures
        t.check(resource, owner, token, now) is Ok == (t.held(resource) matches Some(l) && l.owner@ == owner && l.token@
            == token && now < l.expires_at),
        t.check(resource, owner, token, now) matches Ok(l) ==> t.held(resource) == Some(l),
        t.held(resource) is None || (t.held(resource) matches Some(l) && l.expires_at <= now) ==> t.check(
            resource,
            owner,
            token,
            now,
        ) == Err::<Lease, LeaseError>(LeaseError::NotFound) && !t.busy(resource, now),
        (t.held(resource) matches Some(l) && now < l.expires_at && (l.owner@ != owner || l.token@ != token)) ==> t.check(
            resource,
            owner,
            token,
            now,
        ) == Err::<Lease, LeaseError>(LeaseError::OwnedByOther) && t.busy(resource, now),
{
}

/// A new lease lasts from now for the time that was asked for, belongs to the one who asked, and is
/// offered to nobody.
pub proof fn new_lease_is_what_was_asked_for(
    lease: Lease,
    kind: LeaseKind,
    resource: Seq<char>,
    owner: Seq<char>,
    id: Seq<char>,
    token: Seq<char>,
    fence: u64,
    now: u64,
    ttl: u64,
)
    requires
        begins(lease, kind, resource, owner, id, token, fence, now, ttl),
        now + ttl <= u64::MAX,
    ensures
        lease.expires_at == now + ttl,
        lease.owner@ == owner && lease.token@ == token && lease.resource@ == resource && lease.kind == kind,
        lease.fence == fence && lease.handoff_to is None && lease.acquired_at == now,
{
}

proof fn lemma_first_char(start: Seq<char>, s: Seq<char>)
    requires
        start.len() > 0,
    ensures
        start.is_prefix_of(s) ==> s[0] == start[0],
{
    if start.is_prefix_of(s) {
        assert(s.subrange(0, start.len() as int)[0] == s[0]);
    }
}

/// Leases are taken from the last kind to the first: whoever holds a workspace takes neither a
/// runtime nor an acceptance, and whoever holds a runtime takes no acceptance; other resources are
/// outside this order.
pub proof fn leases_are_taken_in_order(leases: Seq<Lease>, owner: Seq<char>, resource: Seq<char>, i: int)
    requires
        0 <= i < leases.len(),
        leases[i].owner@ == owner,
    ensures
        "workspace:"@.is_prefix_of(leases[i].resource@) && ("runtime:"@.is_prefix_of(resource)
            || "acceptance:"@.is_prefix_of(resource)) ==> out_of_order(leases, owner, resource),
        "runtime:"@.is_prefix_of(leases[i].resource@) && "acceptance:"@.is_prefix_of(resource) ==> out_of_order(
            leases,
            owner,
            resource,
        ),
        !"workspace:"@.is_prefix_of(resource) && !"runtime:"@.is_prefix_of(resource) && !"acceptance:"@.is_prefix_of(resource)
            ==> !out_of_order(leases, owner, resource),
        (forall|k: int| 0 <= k < leases.len() && (#[trigger] leases[k]).owner@ == owner ==> leases[k].resource@ == resource)
            ==> !out_of_order(leases, owner, resource),
{
    reveal_strlit("workspace:");
    reveal_strlit("runtime:");
    reveal_strlit("acceptance:");
    let held = leases[i].resource@;
    lemma_first_char("workspace:"@, resource);
    lemma_first_char("runtime:"@, resource);
    lemma_first_char("acceptance:"@, resource);
    lemma_first_char("workspace:"@, held);
    lemma_first_char("runtime:"@, held);
    assert("workspace:"@[0] == 'w' && "runtime:"@[0] == 'r' && "acceptance:"@[0] == 'a');
    if ("workspace:"@.is_prefix_of(held) && ("runtime:"@.is_prefix_of(resource) || "acceptance:"@.is_prefix_of(resource)))
        || ("runtime:"@.is_prefix_of(held) && "acceptance:"@.is_prefix_of(resource)) {
        assert(leases[i].owner@ == owner && held != resource && rank_view(held) < rank_view(resource));
    }
}

} // verus!
