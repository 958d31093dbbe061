//! Arbitration of an executor's resources between all controllers that call it.

use crate::json::{json_views, Json, JsonView};
use crate::lease::{begins, fences_lease, greater, last_lease, later, lease_message, lemma_grant, top_fence, top_lease, Fence, LeaseError, LeaseTable, LeasesView};
use crate::rpc::{fails, need, required_str, rpc_error, RpcError, RpcErrorView};
use crate::schema::{Lease, LeaseKind};
use crate::table::{has_name, lemma_name_added, position, position_of, remove_by, upsert_by, upserted, without};
use crate::text::{concat2, concat3, starts_with, str_eq, str_lt, text_lt, views};
use vstd::prelude::*;

verus! {

/// The leases on an executor's resources, the resources that an operation is executing on, and
/// those on which an operation may still be executing since before a restart.
#[derive(Debug)]
pub struct Resources {
    pub table: LeaseTable,
    pub active: Vec<String>,
    pub quarantined: Vec<String>,
}

/// What a resource command answers.
#[derive(Debug)]
pub enum ResourceReply {
    /// The leases asked for, without their tokens.
    Leases(Vec<Lease>),
    /// The lease of a resource, without its token, and what is known of operations on it.
    Status { lease: Option<Lease>, active: bool, quarantined: bool },
    /// A resource on which an operation is known to have stopped.
    Recovered(String),
    Lease(Lease),
}

/// The error of a lease as an executor answers it.
pub open spec fn resource_rpc(e: LeaseError) -> RpcErrorView {
    rpc_error(
        match e {
            LeaseError::Active { .. } => "RESOURCE_BUSY"@,
            LeaseError::NotFound => "RESOURCE_LEASE_REQUIRED"@,
            _ => "RESOURCE_LEASE_INVALID"@,
        },
        lease_message(e),
    )
}

/// The error of a lease as an executor answers it.
pub fn lease_error(error: LeaseError) -> (r: RpcError)
    ensures
        r@ == resource_rpc(error),
{
    let code = match &error {
        LeaseError::Active { .. } => "RESOURCE_BUSY",
        LeaseError::NotFound => "RESOURCE_LEASE_REQUIRED",
        _ => "RESOURCE_LEASE_INVALID",
    };
    let message = error.message();
    RpcError::new(code, message.as_str())
}

/// A lease as others may see it.
pub open spec fn public_form(shown: Lease, lease: Lease) -> bool {
    shown.token@.len() == 0 && shown == (Lease { token: shown.token, ..lease })
}

/// The leases whose resource begins with a prefix, in their order.
pub open spec fn with_prefix(leases: Seq<Lease>, prefix: Seq<char>) -> Seq<Lease>
    decreases leases.len(),
{
    if leases.len() == 0 {
        leases
    } else {
        let rest = with_prefix(leases.drop_last(), prefix);
        if prefix.is_prefix_of(leases.last().resource@) {
            rest.push(leases.last())
        } else {
            rest
        }
    }
}

/// Whether leases are shown in their public form, one for one.
pub open spec fn all_public(shown: Seq<Lease>, leases: Seq<Lease>) -> bool {
    shown.len() == leases.len() && forall|i: int|
        0 <= i < shown.len() ==> public_form(#[trigger] shown[i], leases[i])
}

fn without_token(lease: &Lease) -> (r: Lease)
    ensures
        public_form(r, *lease),
{
    let mut copy = lease.clone();
    copy.token = String::new();
    copy
}

/// The names of a list in order, each once.
pub open spec fn insert_name(names: Seq<Seq<char>>, name: Seq<char>) -> Seq<Seq<char>>
    decreases names.len(),
{
    if names.len() == 0 {
        seq![name]
    } else if names[0] == name {
        names
    } else if text_lt(name, names[0]) {
        seq![name] + names
    } else {
        seq![names[0]] + insert_name(names.skip(1), name)
    }
}

/// The names of a list in order, each once.
pub open spec fn sorted_names(names: Seq<Seq<char>>) -> Seq<Seq<char>>
    decreases names.len(),
{
    if names.len() == 0 {
        names
    } else {
        insert_name(sorted_names(names.drop_last()), names.last())
    }
}

/// Sorting keeps the names.
pub proof fn sorted_names_are_the_names(names: Seq<Seq<char>>, name: Seq<char>)
    ensures
        sorted_names(names).contains(name) == names.contains(name),
    decreases names.len(),
{
    if names.len() > 0 {
        let head = names.drop_last();
        sorted_names_are_the_names(head, name);
        lemma_insert_name(sorted_names(head), names.last(), name);
        if head.contains(name) {
            let i = choose|i: int| 0 <= i < head.len() && head[i] == name;
            assert(names[i] == name);
        }
        if names.contains(name) {
            let i = choose|i: int| 0 <= i < names.len() && names[i] == name;
            if i < head.len() {
                assert(head[i] == name);
            }
        }
        assert(names[names.len() - 1] == names.last());
    }
}

proof fn lemma_insert_name(names: Seq<Seq<char>>, name: Seq<char>, other: Seq<char>)
    ensures
        insert_name(names, name).contains(other) == (names.contains(other) || other == name),
    decreases names.len(),
{
    let r = insert_name(names, name);
    if names.len() == 0 {
        assert(r[0] == name);
    } else if names[0] == name {
    } else if text_lt(name, names[0]) {
        assert(r[0] == name);
        assert forall|i: int| 0 <= i < names.len() implies r[i + 1] == names[i] by {}
        if names.contains(other) {
            let i = choose|i: int| 0 <= i < names.len() && names[i] == other;
            assert(r[i + 1] == other);
        }
        if r.contains(other) && other != name {
            let i = choose|i: int| 0 <= i < r.len() && r[i] == other;
            assert(names[i - 1] == other);
        }
    } else {
        let tail = names.skip(1);
        let rest = insert_name(tail, name);
        lemma_insert_name(tail, name, other);
        if names.contains(other) {
            let i = choose|i: int| 0 <= i < names.len() && names[i] == other;
            if i == 0 {
                assert(r[0] == other);
            } else {
                assert(tail[i - 1] == other);
                let k = choose|k: int| 0 <= k < rest.len() && rest[k] == other;
                assert(r[k + 1] == other);
            }
        } else if other == name {
            let k = choose|k: int| 0 <= k < rest.len() && rest[k] == other;
            assert(r[k + 1] == other);
        }
        if r.contains(other) {
            let i = choose|i: int| 0 <= i < r.len() && r[i] == other;
            if i == 0 {
                assert(names[0] == other);
            } else {
                assert(rest[i - 1] == other);
                if tail.contains(other) {
                    let k = choose|k: int| 0 <= k < tail.len() && tail[k] == other;
                    assert(names[k + 1] == other);
                }
            }
        }
    }
}

fn put_name(names: &mut Vec<String>, name: String)
    ensures
        views(final(names)@) == insert_name(views(old(names)@), name@),
{
    let ghost start = views(names@);
    let mut i: usize = 0;
    proof {
        assert(start.skip(0) =~= start);
        assert(start.take(0) + insert_name(start, name@) =~= insert_name(start, name@));
    }
    while i < names.len()
        invariant
            i <= names.len(),
            views(names@) == start,
            *names == *old(names),
            insert_name(start, name@) == start.take(i as int) + insert_name(start.skip(i as int), name@),
        decreases names.len() - i,
    {
        let ghost rest = start.skip(i as int);
        assert(rest[0] == names@[i as int]@);
        if str_eq(names[i].as_str(), name.as_str()) {
            proof {
                assert(start.take(i as int) + rest =~= start);
            }
            return;
        }
        if str_lt(name.as_str(), names[i].as_str()) {
            let ghost n = name@;
            names.insert(i, name);
            proof {
                assert(views(names@) =~= start.take(i as int) + (seq![n] + rest));
            }
            return;
        }
        proof {
            assert(rest.skip(1) =~= start.skip(i + 1));
            assert(start.take(i as int) + (seq![rest[0]] + insert_name(rest.skip(1), name@)) =~= start.take(i + 1)
                + insert_name(start.skip(i + 1), name@));
        }
        i += 1;
    }
    proof {
        assert(start.skip(i as int) =~= Seq::empty());
        assert(views(names@.push(name)) =~= start.take(i as int) + seq![name@]);
    }
    names.push(name);
}

/// Some names in order, each once.
pub fn sort_names(names: &Vec<String>) -> (r: Vec<String>)
    ensures
        views(r@) == sorted_names(views(names@)),
{
    let mut out: Vec<String> = Vec::new();
    let mut i: usize = 0;
    assert(views(out@) =~= sorted_names(views(names@).take(0)));
    while i < names.len()
        invariant
            i <= names.len(),
            views(out@) == sorted_names(views(names@).take(i as int)),
        decreases names.len() - i,
    {
        proof {
            let v = views(names@);
            assert(v.take(i + 1).drop_last() =~= v.take(i as int));
            assert(v.take(i + 1).last() == names@[i as int]@);
        }
        put_name(&mut out, names[i].clone());
        i += 1;
    }
    assert(views(names@).take(names@.len() as int) =~= views(names@));
    out
}

/// The first grant for a resource.
pub open spec fn grant_for(grants: Seq<JsonView>, resource: Seq<char>) -> Option<JsonView>
    decreases grants.len(),
{
    if grants.len() == 0 {
        None
    } else if grants[0].get_str("resource"@) == Some(resource) {
        Some(grants[0])
    } else {
        grant_for(grants.skip(1), resource)
    }
}

fn find_grant<'a>(grants: &'a Vec<Json>, resource: &str) -> (r: Option<&'a Json>)
    ensures
        match r {
            Some(g) => grant_for(json_views(grants@), resource@) == Some(g@),
            None => grant_for(json_views(grants@), resource@) is None,
        },
{
    let ghost all = json_views(grants@);
    let mut i: usize = 0;
    assert(all.skip(0) =~= all);
    while i < grants.len()
        invariant
            i <= grants.len(),
            all == json_views(grants@),
            grant_for(all, resource@) == grant_for(all.skip(i as int), resource@),
        decreases grants.len() - i,
    {
        assert(all.skip(i as int)[0] == grants@[i as int]@);
        assert(all.skip(i as int).skip(1) =~= all.skip(i + 1));
        if let Some(name) = grants[i].get_str("resource") {
            if str_eq(name, resource) {
                return Some(&grants[i]);
            }
        }
        i += 1;
    }
    None
}

/// Why an operation may not begin on a resource, if so.
pub open spec fn refuses(
    table: LeasesView,
    active: Seq<String>,
    quarantined: Seq<String>,
    resource: Seq<char>,
    grants: Seq<JsonView>,
    now: u64,
) -> Option<RpcErrorView> {
    match unavailable(active, quarantined, resource) {
        Some(e) => Some(e),
        None => match grant_for(grants, resource) {
            Some(g) => match need(g, "owner"@) {
                Err(e) => Some(e),
                Ok(owner) => match need(g, "token"@) {
                    Err(e) => Some(e),
                    Ok(token) => match table.check(resource, owner, token, now) {
                        Err(e) => Some(resource_rpc(e)),
                        Ok(_) => None,
                    },
                },
            },
            None => if table.busy(resource, now) {
                Some(rpc_error("RESOURCE_BUSY"@, resource + " has an outstanding lease"@))
            } else {
                None
            },
        },
    }
}

/// Why an operation may not begin on one of some resources, tried in their order.
pub open spec fn first_refusal(
    table: LeasesView,
    active: Seq<String>,
    quarantined: Seq<String>,
    resources: Seq<Seq<char>>,
    grants: Seq<JsonView>,
    now: u64,
) -> Option<RpcErrorView>
    decreases resources.len(),
{
    if resources.len() == 0 {
        None
    } else {
        match refuses(table, active, quarantined, resources[0], grants, now) {
            Some(e) => Some(e),
            None => first_refusal(table, active, quarantined, resources.skip(1), grants, now),
        }
    }
}

/// Whether every grant is for one of the resources.
pub open spec fn in_scope(grants: Seq<JsonView>, resources: Seq<Seq<char>>) -> bool {
    forall|i: int|
        0 <= i < grants.len() ==> ((#[trigger] grants[i]).get_str("resource"@) matches Some(n) && resources.contains(
            n,
        ))
}

/// Why no operation can begin on a resource, whoever asks.
pub open spec fn unavailable(active: Seq<String>, quarantined: Seq<String>, resource: Seq<char>) -> Option<
    RpcErrorView,
> {
    if has_name(quarantined, resource) {
        Some(
            rpc_error(
                "RESOURCE_RECOVERY_REQUIRED"@,
                "uncertain operation on "@ + resource + " survived Executor restart"@,
            ),
        )
    } else if has_name(active, resource) {
        Some(rpc_error("RESOURCE_BUSY"@, "operation is still executing on "@ + resource))
    } else {
        None
    }
}

/// The names after others were added to them.
pub open spec fn with_names(names: Seq<String>, more: Seq<String>) -> Seq<String>
    decreases more.len(),
{
    if more.len() == 0 {
        names
    } else {
        upserted(with_names(names, more.drop_last()), more.last())
    }
}

/// The names after others were taken away.
pub open spec fn without_names(names: Seq<String>, less: Seq<String>) -> Seq<String>
    decreases less.len(),
{
    if less.len() == 0 {
        names
    } else {
        without(without_names(names, less.drop_last()), less.last()@)
    }
}

proof fn lemma_with_names(names: Seq<String>, more: Seq<String>, other: Seq<char>)
    ensures
        has_name(with_names(names, more), other) == (has_name(names, other) || views(more).contains(other)),
    decreases more.len(),
{
    if more.len() > 0 {
        let head = more.drop_last();
        lemma_with_names(names, head, other);
        lemma_name_added(with_names(names, head), more.last(), other);
        if views(head).contains(other) {
            let i = choose|i: int| 0 <= i < views(head).len() && views(head)[i] == other;
            assert(views(more)[i] == other);
        }
        if views(more).contains(other) {
            let i = choose|i: int| 0 <= i < views(more).len() && views(more)[i] == other;
            if i < head.len() {
                assert(views(head)[i] == other);
            }
        }
        assert(views(more)[more.len() - 1] == more.last()@);
    }
}

impl Resources {
    /// Whether the leases are in order.
    pub open spec fn wf(self) -> bool {
        self.table@.wf()
    }

    /// An executor's resources before any use.
    pub fn new() -> (r: Resources)
        ensures
            r.wf(),
            r.active@.len() == 0,
            r.quarantined@.len() == 0,
            r.table@.leases.len() == 0,
    {
        Resources { table: LeaseTable::new(), active: Vec::new(), quarantined: Vec::new() }
    }

    /// The resources after a restart: the leases as they were, no operation executing, and in
    /// quarantine every resource on which one was.
    pub fn open(leases: Vec<Lease>, fences: Vec<Fence>, active: Vec<String>) -> (r: Resources)
        ensures
            r.wf(),
            r.active@.len() == 0,
            r.quarantined@ == active@,
            forall|resource: Seq<char>| #[trigger] r.table@.held(resource) == last_lease(leases@, resource),
            forall|resource: Seq<char>|
                #[trigger] r.table@.fence_of(resource) == greater(
                    top_fence(fences@, resource),
                    top_lease(leases@, resource),
                ),
            (LeasesView { leases: leases@, fences: fences@ }).wf() ==> r.table@ == (LeasesView {
                leases: leases@,
                fences: fences@,
            }),
    {
        Resources { table: LeaseTable::from_snapshot(leases, fences), active: Vec::new(), quarantined: active }
    }

    /// The resources to be quarantined if the executor restarted now: those on which an operation
    /// is executing, and those in quarantine already.
    pub fn uncertain(&self) -> (r: Vec<String>)
        ensures
            r@ == with_names(self.active@, self.quarantined@),
    {
        let mut names = crate::text::clone_list(&self.active);
        let mut i: usize = 0;
        assert(self.quarantined@.take(0) =~= Seq::empty());
        while i < self.quarantined.len()
            invariant
                i <= self.quarantined.len(),
                names@ == with_names(self.active@, self.quarantined@.take(i as int)),
            decreases self.quarantined.len() - i,
        {
            proof {
                let q = self.quarantined@;
                assert(q.take(i + 1).drop_last() =~= q.take(i as int));
                assert(q.take(i + 1).last() == q[i as int]);
            }
            upsert_by(&mut names, self.quarantined[i].clone());
            i += 1;
        }
        assert(self.quarantined@.take(self.quarantined@.len() as int) =~= self.quarantined@);
        names
    }

    /// Whether an operation could begin on `resource`.
    pub fn available(&self, resource: &str) -> (r: Result<(), RpcError>)
        ensures
            match unavailable(self.active@, self.quarantined@, resource@) {
                None => r is Ok,
                Some(e) => fails(r, e),
            },
    {
        if position(&self.quarantined, resource).is_some() {
            let message = concat3("uncertain operation on ", resource, " survived Executor restart");
            return Err(RpcError::new("RESOURCE_RECOVERY_REQUIRED", message.as_str()));
        }
        if position(&self.active, resource).is_some() {
            let message = concat2("operation is still executing on ", resource);
            return Err(RpcError::new("RESOURCE_BUSY", message.as_str()));
        }
        Ok(())
    }

    fn list(&self, prefix: &str) -> (r: Vec<Lease>)
        ensures
            all_public(r@, with_prefix(self.table@.leases, prefix@)),
    {
        let ghost all = self.table@.leases;
        let mut out: Vec<Lease> = Vec::new();
        let mut i: usize = 0;
        assert(all.take(0) =~= Seq::empty());
        while i < self.table.leases.len()
            invariant
                i <= self.table.leases.len(),
                all == self.table.leases@,
                all_public(out@, with_prefix(all.take(i as int), prefix@)),
            decreases self.table.leases.len() - i,
        {
            proof {
                assert(all.take(i + 1).drop_last() =~= all.take(i as int));
                assert(all.take(i + 1).last() == all[i as int]);
            }
            if starts_with(self.table.leases[i].resource.as_str(), prefix) {
                out.push(without_token(&self.table.leases[i]));
            }
            i += 1;
        }
        assert(all.take(all.len() as int) =~= all);
        out
    }

    /// Whether a command that needs no owner did what it says.
    pub open spec fn answers_for_anyone(
        before: Resources,
        after: Resources,
        r: Result<ResourceReply, RpcError>,
        action: Seq<char>,
        params: JsonView,
        resource: Seq<char>,
    ) -> bool {
        if action == "resource.lease.status"@ {
            &&& after == before
            &&& r matches Ok(ResourceReply::Status { lease, active, quarantined }) && active == has_name(
                before.active@,
                resource,
            ) && quarantined == has_name(before.quarantined@, resource) && (match (
                lease,
                before.table@.held(resource),
            ) {
                (Some(shown), Some(l)) => public_form(shown, l),
                (None, None) => true,
                _ => false,
            })
        } else if params.get_bool("confirmExecutionStopped"@) != Some(true) {
            after == before && fails(
                r,
                rpc_error(
                    "RESOURCE_RECOVERY_CONFIRMATION_REQUIRED"@,
                    "confirm the old operation and any child process have stopped"@,
                ),
            )
        } else if has_name(before.active@, resource) {
            after == before && fails(r, rpc_error("RESOURCE_BUSY"@, "operation is still executing"@))
        } else {
            &&& r matches Ok(ResourceReply::Recovered(name)) && name@ == resource
            &&& after.table == before.table
            &&& after.active == before.active
            &&& after.quarantined@ == without(before.quarantined@, resource)
        }
    }

    /// Whether a command of an owner did what it says.
    pub open spec fn answers_owner(
        before: Resources,
        after: Resources,
        r: Result<ResourceReply, RpcError>,
        action: Seq<char>,
        params: JsonView,
        resource: Seq<char>,
        owner: Seq<char>,
        now: u64,
        id: Seq<char>,
        fresh: Seq<char>,
    ) -> bool {
        let ttl = params.u64_or("ttlMs"@, 300_000);
        let blocked = unavailable(before.active@, before.quarantined@, resource);
        &&& after.active == before.active
        &&& after.quarantined == before.quarantined
        &&& if ttl == 0 || ttl > 86_400_000 {
            after == before && fails(r, rpc_error("INVALID_PARAMS"@, "TTL must be between 1 ms and 24 hours"@))
        } else if action == "resource.lease.acquire"@ {
            match blocked {
                Some(e) => after == before && fails(r, e),
                None => match r {
                    Ok(ResourceReply::Lease(lease)) => {
                        &&& !before.table@.busy(resource, now)
                        &&& begins(
                            lease,
                            LeaseKind::Resource,
                            resource,
                            owner,
                            id,
                            fresh,
                            before.table@.next_fence(resource),
                            now,
                            ttl,
                        )
                        &&& after.table@.held(resource) == Some(lease)
                        &&& exists|fence: Fence|
                            #![trigger before.table@.grant(lease, fence)]
                            fences_lease(fence, lease) && after.table@ == before.table@.grant(lease, fence)
                    },
                    Ok(_) => false,
                    Err(e) => after == before && (before.table@.held(resource) matches Some(l) && l.expires_at > now
                        && e@ == resource_rpc(LeaseError::Active { owner: l.owner, expires_at: l.expires_at })),
                },
            }
        } else if action == "resource.lease.release"@ && blocked is Some {
            after == before && fails(r, blocked->0)
        } else if action == "resource.lease.validate"@ || action == "resource.lease.renew"@ || action
            == "resource.lease.release"@ {
            match need(params, "token"@) {
                Err(e) => after == before && fails(r, e),
                Ok(token) => match before.table@.check(resource, owner, token, now) {
                    Err(e) => after == before && fails(r, resource_rpc(e)),
                    Ok(l) => if action == "resource.lease.validate"@ {
                        after == before && (r matches Ok(ResourceReply::Lease(lease)) && lease == l)
                    } else if action == "resource.lease.renew"@ {
                        r matches Ok(ResourceReply::Lease(lease)) && lease == (Lease {
                            updated_at: now,
                            expires_at: later(now, ttl),
                            ..l
                        }) && after.table@ == before.table@.put(lease)
                    } else {
                        r matches Ok(ResourceReply::Lease(lease)) && lease == l && after.table@
                            == before.table@.drop_lease(resource)
                    },
                },
            }
        } else {
            after == before && fails(r, rpc_error("UNKNOWN_ACTION"@, action))
        }
    }

    /// Whether a command did what it says.
    pub open spec fn answers(
        before: Resources,
        after: Resources,
        r: Result<ResourceReply, RpcError>,
        action: Seq<char>,
        params: JsonView,
        now: u64,
        id: Seq<char>,
        fresh: Seq<char>,
    ) -> bool {
        if action == "resource.lease.list"@ {
            &&& after == before
            &&& r matches Ok(ResourceReply::Leases(shown)) && all_public(
                shown@,
                with_prefix(
                    before.table@.leases,
                    match params.get_str("prefix"@) {
                        Some(s) => s,
                        None => ""@,
                    },
                ),
            )
        } else {
            match need(params, "resource"@) {
                Err(e) => after == before && fails(r, e),
                Ok(resource) => if action == "resource.lease.status"@ || action == "resource.lease.recover"@ {
                    Resources::answers_for_anyone(before, after, r, action, params, resource)
                } else {
                    match need(params, "owner"@) {
                        Err(e) => after == before && fails(r, e),
                        Ok(owner) => Resources::answers_owner(
                            before,
                            after,
                            r,
                            action,
                            params,
                            resource,
                            owner,
                            now,
                            id,
                            fresh,
                        ),
                    }
                },
            }
        }
    }

    /// Runs a command on the leases of the executor. `id` and `fresh_token` are those of the
    /// lease that it may have to make.
    pub fn command(
        &mut self,
        action: &str,
        params: &Json,
        now: u64,
        id: &str,
        fresh_token: &str,
    ) -> (r: Result<ResourceReply, RpcError>)
        requires
            old(self).wf(),
        ensures
            final(self).wf(),
            Resources::answers(*old(self), *final(self), r, action@, params@, now, id@, fresh_token@),
    {
        if str_eq(action, "resource.lease.list") {
            let prefix = match params.get_str("prefix") {
                Some(s) => s,
                None => "",
            };
            return Ok(ResourceReply::Leases(self.list(prefix)));
        }
        let resource = match required_str(params, "resource") {
            Ok(s) => s,
            Err(e) => return Err(e),
        };
        if str_eq(action, "resource.lease.status") {
            let lease = match self.table.get(resource) {
                Some(l) => Some(without_token(l)),
                None => None,
            };
            return Ok(
                ResourceReply::Status {
                    lease,
                    active: position(&self.active, resource).is_some(),
                    quarantined: position(&self.quarantined, resource).is_some(),
                },
            );
        }
        if str_eq(action, "resource.lease.recover") {
            proof {
                lemma_actions_differ();
            }
            if !params.is_true("confirmExecutionStopped") {
                return Err(
                    RpcError::new(
                        "RESOURCE_RECOVERY_CONFIRMATION_REQUIRED",
                        "confirm the old operation and any child process have stopped",
                    ),
                );
            }
            if position(&self.active, resource).is_some() {
                return Err(RpcError::new("RESOURCE_BUSY", "operation is still executing"));
            }
            remove_by(&mut self.quarantined, resource);
            return Ok(ResourceReply::Recovered(resource.to_owned()));
        }
        let owner = match required_str(params, "owner") {
            Ok(s) => s,
            Err(e) => return Err(e),
        };
        let ttl = params.u64_or("ttlMs", 300_000);
        if ttl == 0 || ttl > 86_400_000 {
            return Err(RpcError::new("INVALID_PARAMS", "TTL must be between 1 ms and 24 hours"));
        }
        proof {
            lemma_actions_differ();
        }
        if str_eq(action, "resource.lease.acquire") {
            if let Err(e) = self.available(resource) {
                return Err(e);
            }
            return match self.table.acquire(LeaseKind::Resource, resource, owner, ttl, now, id, fresh_token) {
                Ok(lease) => Ok(ResourceReply::Lease(lease)),
                Err(e) => Err(lease_error(e)),
            };
        }
        let release = str_eq(action, "resource.lease.release");
        if release {
            if let Err(e) = self.available(resource) {
                return Err(e);
            }
        }
        let validate = str_eq(action, "resource.lease.validate");
        let renew = str_eq(action, "resource.lease.renew");
        if !release && !validate && !renew {
            return Err(RpcError::new("UNKNOWN_ACTION", action));
        }
        let token = match required_str(params, "token") {
            Ok(s) => s,
            Err(e) => return Err(e),
        };
        if validate {
            return match self.table.validate(resource, owner, token, now) {
                Ok(l) => Ok(ResourceReply::Lease(l.clone())),
                Err(e) => Err(lease_error(e)),
            };
        }
        let outcome = if renew {
            self.table.renew(resource, owner, token, ttl, now)
        } else {
            self.table.release(resource, owner, token, now)
        };
        match outcome {
            Ok(lease) => Ok(ResourceReply::Lease(lease)),
            Err(e) => Err(lease_error(e)),
        }
    }

    /// Begins an operation on some resources, on the strength of some grants. No operation may be
    /// executing on any of them or be uncertain, a grant for one must be good, and where there is
    /// no grant nobody may hold it; and no grant may be for anything else. The resources are
    /// returned in order, each once, to be handed to `finish`.
    pub fn begin(&mut self, resources: &Vec<String>, grants: &Vec<Json>, now: u64) -> (r: Result<Vec<String>, RpcError>)
        requires
            old(self).wf(),
        ensures
            final(self).wf(),
            final(self).table == old(self).table,
            final(self).quarantined == old(self).quarantined,
            ({
                let names = sorted_names(views(resources@));
                let g = json_views(grants@);
                match first_refusal(old(self).table@, old(self).active@, old(self).quarantined@, names, g, now) {
                    Some(e) => *final(self) == *old(self) && fails(r, e),
                    None => if !in_scope(g, names) {
                        *final(self) == *old(self) && fails(
                            r,
                            rpc_error("RESOURCE_LEASE_SCOPE_MISMATCH"@, "lease does not authorize this operation"@),
                        )
                    } else {
                        r matches Ok(list) && views(list@) == names && final(self).active@ == with_names(
                            old(self).active@,
                            list@,
                        )
                    },
                }
            }),
    {
        let names = sort_names(resources);
        let ghost all = views(names@);
        let ghost g = json_views(grants@);
        let mut i: usize = 0;
        assert(all.skip(0) =~= all);
        while i < names.len()
            invariant
                i <= names.len(),
                *self == *old(self),
                self.wf(),
                all == views(names@),
                all == sorted_names(views(resources@)),
                g == json_views(grants@),
                first_refusal(self.table@, self.active@, self.quarantined@, all, g, now) == first_refusal(
                    self.table@,
                    self.active@,
                    self.quarantined@,
                    all.skip(i as int),
                    g,
                    now,
                ),
            decreases names.len() - i,
        {
            let resource = names[i].as_str();
            proof {
                assert(all.skip(i as int)[0] == resource@);
                assert(all.skip(i as int).skip(1) =~= all.skip(i + 1));
            }
            if let Err(e) = self.available(resource) {
                return Err(e);
            }
            match find_grant(grants, resource) {
                Some(grant) => {
                    let owner = match required_str(grant, "owner") {
                        Ok(s) => s,
                        Err(e) => return Err(e),
                    };
                    let token = match required_str(grant, "token") {
                        Ok(s) => s,
                        Err(e) => return Err(e),
                    };
                    if let Err(e) = self.table.validate(resource, owner, token, now) {
                        return Err(lease_error(e));
                    }
                },
                None => {
                    if let Some(l) = self.table.get(resource) {
                        if l.expires_at > now {
                            let message = concat2(resource, " has an outstanding lease");
                            return Err(RpcError::new("RESOURCE_BUSY", message.as_str()));
                        }
                    }
                },
            }
            i += 1;
        }
        let mut k: usize = 0;
        while k < grants.len()
            invariant
                k <= grants.len(),
                *self == *old(self),
                self.wf(),
                all == views(names@),
                all == sorted_names(views(resources@)),
                g == json_views(grants@),
                first_refusal(self.table@, self.active@, self.quarantined@, all, g, now) is None,
                forall|j: int|
                    0 <= j < k ==> ((#[trigger] g[j]).get_str("resource"@) matches Some(n) && all.contains(n)),
            decreases grants.len() - k,
        {
            assert(g[k as int] == grants@[k as int]@);
            let known = match grants[k].get_str("resource") {
                Some(n) => crate::text::list_has(&names, n),
                None => false,
            };
            if !known {
                return Err(
                    RpcError::new("RESOURCE_LEASE_SCOPE_MISMATCH", "lease does not authorize this operation"),
                );
            }
            k += 1;
        }
        let ghost before = self.active@;
        let mut m: usize = 0;
        assert(names@.take(0) =~= Seq::empty());
        while m < names.len()
            invariant
                m <= names.len(),
                self.table == old(self).table,
                self.quarantined == old(self).quarantined,
                self.active@ == with_names(before, names@.take(m as int)),
            decreases names.len() - m,
        {
            proof {
                assert(names@.take(m + 1).drop_last() =~= names@.take(m as int));
                assert(names@.take(m + 1).last() == names@[m as int]);
            }
            upsert_by(&mut self.active, names[m].clone());
            m += 1;
        }
        assert(names@.take(names@.len() as int) =~= names@);
        Ok(names)
    }

    /// Ends an operation on the resources that it began with.
    pub fn finish(&mut self, resources: &Vec<String>)
        requires
            old(self).wf(),
        ensures
            final(self).wf(),
            final(self).table == old(self).table,
            final(self).quarantined == old(self).quarantined,
            final(self).active@ == without_names(old(self).active@, resources@),
    {
        let ghost before = self.active@;
        let mut i: usize = 0;
        assert(resources@.take(0) =~= Seq::empty());
        while i < resources.len()
            invariant
                i <= resources.len(),
                self.table == old(self).table,
                self.quarantined == old(self).quarantined,
                self.active@ == without_names(before, resources@.take(i as int)),
            decreases resources.len() - i,
        {
            proof {
                assert(resources@.take(i + 1).drop_last() =~= resources@.take(i as int));
                assert(resources@.take(i + 1).last() == resources@[i as int]);
            }
            remove_by(&mut self.active, resources[i].as_str());
            i += 1;
        }
        assert(resources@.take(resources@.len() as int) =~= resources@);
    }
}

proof fn lemma_actions_differ()
    ensures
        "resource.lease.recover"@ != "resource.lease.status"@,
        "resource.lease.acquire"@ != "resource.lease.release"@,
        "resource.lease.acquire"@ != "resource.lease.validate"@,
        "resource.lease.acquire"@ != "resource.lease.renew"@,
        "resource.lease.release"@ != "resource.lease.validate"@,
        "resource.lease.release"@ != "resource.lease.renew"@,
        "resource.lease.validate"@ != "resource.lease.renew"@,
        "resource.lease.acquire"@ != "resource.lease.list"@,
        "resource.lease.acquire"@ != "resource.lease.status"@,
        "resource.lease.acquire"@ != "resource.lease.recover"@,
        "resource.lease.release"@ != "resource.lease.list"@,
        "resource.lease.release"@ != "resource.lease.status"@,
        "resource.lease.release"@ != "resource.lease.recover"@,
{
    reveal_strlit("resource.lease.list");
    reveal_strlit("resource.lease.recover");
    reveal_strlit("resource.lease.status");
    reveal_strlit("resource.lease.acquire");
    reveal_strlit("resource.lease.release");
    reveal_strlit("resource.lease.validate");
    reveal_strlit("resource.lease.renew");
    assert("resource.lease.recover"@.len() != "resource.lease.status"@.len());
    assert("resource.lease.acquire"@[15] != "resource.lease.release"@[15]);
    assert("resource.lease.acquire"@.len() != "resource.lease.validate"@.len());
    assert("resource.lease.acquire"@.len() != "resource.lease.renew"@.len());
    assert("resource.lease.release"@.len() != "resource.lease.validate"@.len());
    assert("resource.lease.release"@.len() != "resource.lease.renew"@.len());
    assert("resource.lease.validate"@.len() != "resource.lease.renew"@.len());
    assert("resource.lease.acquire"@.len() != "resource.lease.list"@.len());
    assert("resource.lease.acquire"@.len() != "resource.lease.status"@.len());
    assert("resource.lease.acquire"@[15] != "resource.lease.recover"@[15]);
    assert("resource.lease.release"@.len() != "resource.lease.list"@.len());
    assert("resource.lease.release"@.len() != "resource.lease.status"@.len());
    assert("resource.lease.release"@[17] != "resource.lease.recover"@[17]);
}

/// While an operation executes on a resource no other begins there, and its lease can be neither
/// taken nor given back, even after it has ended.
pub proof fn busy_resource_stays_busy(
    active: Seq<String>,
    quarantined: Seq<String>,
    started: Seq<String>,
    resource: Seq<char>,
    table: LeasesView,
    grants: Seq<JsonView>,
    now: u64,
)
    requires
        views(started).contains(resource),
    ensures
        unavailable(with_names(active, started), quarantined, resource) is Some,
        refuses(table, with_names(active, started), quarantined, resource, grants, now) is Some,
{
    lemma_with_names(active, started, resource);
}

/// After a restart every resource on which an operation was executing or uncertain needs
/// recovery before anything begins on it, whatever is granted.
pub proof fn restart_quarantines(
    active: Seq<String>,
    quarantined: Seq<String>,
    resource: Seq<char>,
    table: LeasesView,
    grants: Seq<JsonView>,
    now: u64,
)
    requires
        has_name(active, resource) || has_name(quarantined, resource),
    ensures
        refuses(table, Seq::empty(), with_names(active, quarantined), resource, grants, now) == Some(
            rpc_error(
                "RESOURCE_RECOVERY_REQUIRED"@,
                "uncertain operation on "@ + resource + " survived Executor restart"@,
            ),
        ),
{
    lemma_with_names(active, quarantined, resource);
    if has_name(quarantined, resource) {
        crate::table::lemma_position_from(quarantined, resource, 0);
        let i = position_of(quarantined, resource)->0;
        assert(views(quarantined)[i] == resource);
    }
}

/// A command that was run: the resources before and after it, what it answered, and what it was
/// given.
pub struct Ran {
    pub before: Resources,
    pub after: Resources,
    pub reply: Result<ResourceReply, RpcError>,
    pub params: JsonView,
    pub now: u64,
    pub id: Seq<char>,
    pub fresh: Seq<char>,
}

impl Ran {
    /// Whether the command was a given one, about a resource.
    pub open spec fn did(self, action: Seq<char>, resource: Seq<char>) -> bool {
        &&& self.before.wf()
        &&& need(self.params, "resource"@) == Ok::<Seq<char>, RpcErrorView>(resource)
        &&& Resources::answers(
            self.before,
            self.after,
            self.reply,
            action,
            self.params,
            self.now,
            self.id,
            self.fresh,
        )
    }
}

/// A resource that was acquired, released and acquired again has a lease with a greater fence, and
/// the token of the first lease does not release the second: it stays.
pub proof fn old_token_cannot_release_the_next_lease(
    acquire: Ran,
    release: Ran,
    again: Ran,
    late: Ran,
    resource: Seq<char>,
    first: Lease,
    second: Lease,
)
    requires
        acquire.did("resource.lease.acquire"@, resource),
        acquire.reply == Ok::<ResourceReply, RpcError>(ResourceReply::Lease(first)),
        release.did("resource.lease.release"@, resource),
        release.before == acquire.after,
        release.reply is Ok,
        again.did("resource.lease.acquire"@, resource),
        again.before == release.after,
        again.reply == Ok::<ResourceReply, RpcError>(ResourceReply::Lease(second)),
        again.fresh != acquire.fresh,
        late.did("resource.lease.release"@, resource),
        late.before == again.after,
        need(late.params, "token"@) == Ok::<Seq<char>, RpcErrorView>(first.token@),
    ensures
        first.fence < u64::MAX ==> second.fence > first.fence,
        late.reply is Err,
        late.after == late.before,
        late.after.table@.held(resource) == Some(second),
{
    lemma_actions_differ();
    let fence = choose|fence: Fence|
        #![trigger acquire.before.table@.grant(first, fence)]
        fences_lease(fence, first) && acquire.after.table@ == acquire.before.table@.grant(first, fence);
    lemma_grant(acquire.before.table@, first, fence, resource);
}

/// What is shown of leases never holds their tokens.
pub proof fn tokens_are_never_shown(
    before: Resources,
    after: Resources,
    r: Result<ResourceReply, RpcError>,
    action: Seq<char>,
    params: JsonView,
    now: u64,
    id: Seq<char>,
    fresh: Seq<char>,
)
    requires
        Resources::answers(before, after, r, action, params, now, id, fresh),
        action == "resource.lease.list"@ || action == "resource.lease.status"@,
    ensures
        after == before,
        r matches Ok(ResourceReply::Leases(shown)) ==> forall|i: int|
            0 <= i < shown@.len() ==> (#[trigger] shown@[i]).token@.len() == 0,
        r matches Ok(ResourceReply::Status { lease: Some(l), .. }) ==> l.token@.len() == 0,
        !(r matches Ok(ResourceReply::Lease(_))),
{
    lemma_actions_differ();
}

/// An operation begins on resources only where each of them is free: no operation is under way or
/// uncertain on it, and either its holder, who says so with the token, asks for it, or nobody holds
/// it.
pub proof fn operation_begins_only_on_what_is_free(
    table: LeasesView,
    active: Seq<String>,
    quarantined: Seq<String>,
    resources: Seq<Seq<char>>,
    grants: Seq<JsonView>,
    now: u64,
    i: int,
)
    requires
        first_refusal(table, active, quarantined, resources, grants, now) is None,
        0 <= i < resources.len(),
    ensures
        forall|k: int| 0 <= k < active.len() ==> (#[trigger] active[k])@ != resources[i],
        forall|k: int| 0 <= k < quarantined.len() ==> (#[trigger] quarantined[k])@ != resources[i],
        match grant_for(grants, resources[i]) {
            Some(g) => table.held(resources[i]) matches Some(l) && need(g, "owner"@) == Ok::<Seq<char>, RpcErrorView>(
                l.owner@,
            ) && need(g, "token"@) == Ok::<Seq<char>, RpcErrorView>(l.token@) && now < l.expires_at,
            None => table.held(resources[i]) matches Some(l) ==> l.expires_at <= now,
        },
    decreases resources.len(),
{
    if i == 0 {
        crate::table::lemma_position_from(active, resources[0], 0);
        crate::table::lemma_position_from(quarantined, resources[0], 0);
        assert forall|k: int| 0 <= k < active.len() implies (#[trigger] active[k])@ != resources[0] by {
            assert(crate::table::Keyed::key_view(&active[k]) == active[k]@);
        }
        assert forall|k: int| 0 <= k < quarantined.len() implies (#[trigger] quarantined[k])@ != resources[0] by {
            assert(crate::table::Keyed::key_view(&quarantined[k]) == quarantined[k]@);
        }
    } else {
        operation_begins_only_on_what_is_free(table, active, quarantined, resources.skip(1), grants, now, i - 1);
        assert(resources.skip(1)[i - 1] == resources[i]);
    }
}

/// The grant that speaks for a resource is the first that names it.
pub proof fn grant_names_its_resource(grants: Seq<JsonView>, resource: Seq<char>)
    ensures
        match grant_for(grants, resource) {
            Some(g) => g.get_str("resource"@) == Some(resource) && grants.contains(g),
            None => forall|i: int| 0 <= i < grants.len() ==> (#[trigger] grants[i]).get_str("resource"@) != Some(resource),
        },
    decreases grants.len(),
{
    if grants.len() > 0 && grants[0].get_str("resource"@) != Some(resource) {
        grant_names_its_resource(grants.skip(1), resource);
        match grant_for(grants.skip(1), resource) {
            Some(g) => {
                let i = choose|i: int| 0 <= i < grants.skip(1).len() && grants.skip(1)[i] == g;
                assert(grants[i + 1] == g);
            },
            None => {
                assert forall|i: int| 0 <= i < grants.len() implies (#[trigger] grants[i]).get_str("resource"@) != Some(
                    resource,
                ) by {
                    if i > 0 {
                        assert(grants.skip(1)[i - 1] == grants[i]);
                    }
                }
            },
        }
    }
}

} // verus!
