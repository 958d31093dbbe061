//! Relaying an artifact from one executor to another, through the controller: as one archive, or
//! file by file where the source knows no archives. The controller asks the executors step by
//! step; the functions here say what is asked next and what an answer means.

use crate::driver::{granted, held_error};
use crate::execution::{fence_item, fence_json};
use crate::json::{alike, json_views, Json, JsonView};
use crate::lease::{begins, end_of, later, lease_rpc, map_lease_error, LeaseTable, LeasesView};
use crate::observe::{transfer_details, transfer_error};
use crate::rpc::{fails, need, required_str, rpc_error, RpcError, RpcErrorView};
use crate::schema::{Lease, LeaseKind, WorkspaceSession};
use crate::session::{epoch_of, session_epoch};
use crate::task_requests::result_view;
use crate::text::{concat2, concat3, str_eq};
use vstd::prelude::*;

verus! {

/// How many bytes of an archive are relayed at a time.
pub const ARCHIVE_CHUNK: u64 = 8_388_608;

/// How many bytes of a file are relayed at a time.
pub const FILE_CHUNK: u64 = 1_048_576;

/// How long a relay may take, in milliseconds.
pub const RELAY_TTL_MS: u64 = 3_600_000;

/// What is relayed from where to where, and under which authority it is read.
#[derive(Debug)]
pub struct RelayRequest {
    pub source_executor: String,
    pub source_path: String,
    pub destination_executor: String,
    pub destination_path: String,
    pub session: String,
    pub authority: Json,
}

/// What a request to relay holds.
pub struct RelayView {
    pub source_executor: Seq<char>,
    pub source_path: Seq<char>,
    pub destination_executor: Seq<char>,
    pub destination_path: Seq<char>,
    pub session: Seq<char>,
    pub authority: JsonView,
}

impl View for RelayRequest {
    type V = RelayView;

    open spec fn view(&self) -> RelayView {
        RelayView {
            source_executor: self.source_executor@,
            source_path: self.source_path@,
            destination_executor: self.destination_executor@,
            destination_path: self.destination_path@,
            session: self.session@,
            authority: self.authority@,
        }
    }
}

/// The executor and the path of one end of a relay.
pub open spec fn relay_end(params: JsonView, key: Seq<char>) -> Result<(Seq<char>, Seq<char>), RpcErrorView> {
    match params.get(key) {
        None => Err(rpc_error("INVALID_PARAMS"@, key + " is required"@)),
        Some(j) => match (need(j, "executorId"@), need(j, "path"@)) {
            (Err(e), _) => Err(e),
            (Ok(_), Err(e)) => Err(e),
            (Ok(executor), Ok(path)) => Ok((executor, path)),
        },
    }
}

/// What a request to relay an artifact asks for, or why it is refused: it has to come from the
/// driver of the workspace. The source is told the fence of that driver, under the epoch of the
/// session's authority.
pub open spec fn relay_view(
    id: Seq<char>,
    sessions: Seq<WorkspaceSession>,
    t: LeasesView,
    params: JsonView,
    now: u64,
) -> Result<RelayView, RpcErrorView> {
    if params.get("source"@) is None {
        Err(rpc_error("INVALID_PARAMS"@, "source is required"@))
    } else if params.get("destination"@) is None {
        Err(rpc_error("INVALID_PARAMS"@, "destination is required"@))
    } else {
        match (relay_end(params, "source"@), relay_end(params, "destination"@)) {
            (Err(e), _) => Err(e),
            (Ok(_), Err(e)) => Err(e),
            (Ok(from), Ok(to)) => match (
                need(params, "workspaceSessionId"@),
                need(params, "owner"@),
                need(params, "driverToken"@),
            ) {
                (Err(e), _, _) => Err(e),
                (Ok(_), Err(e), _) => Err(e),
                (Ok(_), Ok(_), Err(e)) => Err(e),
                (Ok(session), Ok(owner), Ok(token)) => match t.check("workspace:"@ + session, owner, token, now) {
                    Err(e) => Err(lease_rpc(e)),
                    Ok(driver) => if crate::invoke::text_of(params, "mode"@, "mirror"@) != "mirror"@ {
                        Err(
                            rpc_error(
                                "INVALID_PARAMS"@,
                                "Controller artifact relay currently requires mode=mirror"@,
                            ),
                        )
                    } else {
                        Ok(
                            RelayView {
                                source_executor: from.0,
                                source_path: from.1,
                                destination_executor: to.0,
                                destination_path: to.1,
                                session,
                                authority: JsonView::Array(seq![fence_json(id, epoch_of(sessions, session), driver, now)]),
                            },
                        )
                    },
                },
            },
        }
    }
}

/// What a request to relay an artifact asks for.
pub fn relay_request(id: &str, sessions: &Vec<WorkspaceSession>, leases: &LeaseTable, params: &Json, now: u64) -> (r: Result<
    RelayRequest,
    RpcError,
>)
    ensures
        match relay_view(id@, sessions@, leases@, params@, now) {
            Ok(v) => r matches Ok(x) && x@ == v,
            Err(e) => fails(r, e),
        },
{
    let source = match params.get("source") {
        Some(j) => j,
        None => return Err(RpcError::new("INVALID_PARAMS", "source is required")),
    };
    let destination = match params.get("destination") {
        Some(j) => j,
        None => return Err(RpcError::new("INVALID_PARAMS", "destination is required")),
    };
    let source_executor = match required_str(source, "executorId") {
        Ok(s) => s,
        Err(e) => return Err(e),
    };
    let source_path = match required_str(source, "path") {
        Ok(s) => s,
        Err(e) => return Err(e),
    };
    let destination_executor = match required_str(destination, "executorId") {
        Ok(s) => s,
        Err(e) => return Err(e),
    };
    let destination_path = match required_str(destination, "path") {
        Ok(s) => s,
        Err(e) => return Err(e),
    };
    let session = match required_str(params, "workspaceSessionId") {
        Ok(s) => s,
        Err(e) => return Err(e),
    };
    let owner = match required_str(params, "owner") {
        Ok(s) => s,
        Err(e) => return Err(e),
    };
    let token = match required_str(params, "driverToken") {
        Ok(s) => s,
        Err(e) => return Err(e),
    };
    let resource = concat2("workspace:", session);
    let driver = match leases.validate(resource.as_str(), owner, token, now) {
        Ok(l) => l,
        Err(e) => return Err(map_lease_error(e)),
    };
    let mirrors = match params.get_str("mode") {
        Some(m) => str_eq(m, "mirror"),
        None => true,
    };
    if !mirrors {
        return Err(RpcError::new("INVALID_PARAMS", "Controller artifact relay currently requires mode=mirror"));
    }
    let mut items: Vec<Json> = Vec::new();
    let epoch = session_epoch(sessions, session);
    items.push(fence_item(id, epoch, driver, now));
    let authority = Json::array(items);
    assert(authority@->Array_0 =~= seq![fence_json(id@, epoch, *driver, now)]);
    Ok(
        RelayRequest {
            source_executor: source_executor.to_owned(),
            source_path: source_path.to_owned(),
            destination_executor: destination_executor.to_owned(),
            destination_path: destination_path.to_owned(),
            session: session.to_owned(),
            authority,
        },
    )
}

/// The parameters with which the source is asked to make an archive.
pub open spec fn create_view(r: RelayView) -> JsonView {
    JsonView::obj().plus("_authority"@, r.authority).plus("_workspaceSessionId"@, JsonView::Text(r.session)).plus(
        "path"@,
        JsonView::Text(r.source_path),
    )
}

/// The parameters with which the source is asked to remove an archive.
pub open spec fn remove_view(r: RelayView, token: Seq<char>) -> JsonView {
    JsonView::obj().plus("_authority"@, r.authority).plus("_workspaceSessionId"@, JsonView::Text(r.session)).plus(
        "token"@,
        JsonView::Text(token),
    )
}

impl RelayRequest {
    /// The parameters with which the source is asked to make an archive.
    pub fn create_params(&self) -> (r: Json)
        ensures
            r@ == create_view(self@),
    {
        Json::obj().plus("_authority", self.authority.copy()).plus(
            "_workspaceSessionId",
            Json::text(self.session.as_str()),
        ).plus("path", Json::text(self.source_path.as_str()))
    }

    /// The parameters with which the source is asked to remove an archive.
    pub fn remove_params(&self, token: &str) -> (r: Json)
        ensures
            r@ == remove_view(self@, token@),
    {
        Json::obj().plus("_authority", self.authority.copy()).plus(
            "_workspaceSessionId",
            Json::text(self.session.as_str()),
        ).plus("token", Json::text(token))
    }

    /// The parameters with which the source is asked for the list of its files.
    pub fn manifest_params(&self) -> (r: Json)
        ensures
            r@ == JsonView::obj().plus("path"@, JsonView::Text(self@.source_path)),
    {
        Json::obj().plus("path", Json::text(self.source_path.as_str()))
    }
}

/// What asking for an archive means: the archive, nothing where the source knows no archives, or
/// the error.
pub fn archive_created(result: Result<Json, RpcError>) -> (r: Result<Option<Json>, RpcError>)
    ensures
        match result_view(result) {
            Ok(j) => r matches Ok(Some(x)) && x@ == j,
            Err(e) => if e.code == "UNKNOWN_ACTION"@ {
                r matches Ok(None)
            } else {
                fails(r, e)
            },
        },
{
    match result {
        Ok(j) => Ok(Some(j)),
        Err(e) => {
            if str_eq(e.code.as_str(), "UNKNOWN_ACTION") {
                Ok(None)
            } else {
                Err(e)
            }
        },
    }
}

/// The resource that a relay to a path locks.
pub open spec fn relay_resource(path: Seq<char>) -> Seq<char> {
    "artifact-relay:"@ + path
}

/// The owner under which a controller relays.
pub open spec fn relay_owner(id: Seq<char>) -> Seq<char> {
    "controller:"@ + id
}

/// Where a relay to a path collects what arrives.
pub open spec fn staging_view(path: Seq<char>, unique: Seq<char>) -> Seq<char> {
    path + ".workbench-relay-"@ + unique
}

/// What the destination is told of the lease of a relay.
pub open spec fn relay_fence(id: Seq<char>, l: Lease) -> JsonView {
    JsonView::obj().plus("controllerId"@, JsonView::Text(id)).plus("fence"@, JsonView::Unsigned(l.fence)).plus(
        "resource"@,
        JsonView::Text(l.resource@),
    )
}

fn relay_fence_entry(id: &str, l: &Lease) -> (r: Json)
    ensures
        r@ == relay_fence(id@, *l),
{
    Json::obj().plus("controllerId", Json::text(id)).plus("fence", Json::Unsigned(l.fence)).plus(
        "resource",
        Json::text(l.resource.as_str()),
    )
}

/// What taking the lease of a relay gives.
pub open spec fn locks_relay(
    r: Result<Lease, RpcError>,
    after: LeasesView,
    before: LeasesView,
    id: Seq<char>,
    path: Seq<char>,
    now: u64,
    lease_id: Seq<char>,
    token: Seq<char>,
) -> bool {
    if before.busy(relay_resource(path), now) {
        fails(r, held_error(before.held(relay_resource(path))->0)) && after == before
    } else {
        r matches Ok(l) && begins(
            l,
            LeaseKind::Resource,
            relay_resource(path),
            relay_owner(id),
            lease_id,
            token,
            before.next_fence(relay_resource(path)),
            now,
            RELAY_TTL_MS,
        ) && granted(after, before, l)
    }
}

/// Takes the lease under which an artifact is relayed to a path: one relay at a time.
pub fn lock_relay(leases: &mut LeaseTable, id: &str, path: &str, now: u64, lease_id: &str, token: &str) -> (r: Result<
    Lease,
    RpcError,
>)
    requires
        old(leases)@.wf(),
    ensures
        final(leases)@.wf(),
        locks_relay(r, final(leases)@, old(leases)@, id@, path@, now, lease_id@, token@),
{
    let resource = concat2("artifact-relay:", path);
    let owner = concat2("controller:", id);
    match leases.acquire(
        LeaseKind::Resource,
        resource.as_str(),
        owner.as_str(),
        RELAY_TTL_MS,
        now,
        lease_id,
        token,
    ) {
        Ok(l) => Ok(l),
        Err(e) => Err(map_lease_error(e)),
    }
}

/// What the source says of an archive: its token, its digest, its size, the size and the number of
/// the files in it, and its kind.
pub open spec fn archive_facts(archive: JsonView) -> Result<(Seq<char>, Seq<char>, u64, u64, u64, Seq<char>), RpcErrorView> {
    match (need(archive, "token"@), need(archive, "digest"@)) {
        (Err(e), _) => Err(e),
        (Ok(_), Err(e)) => Err(e),
        (Ok(token), Ok(digest)) => match (
            archive.get_u64("archiveSize"@),
            archive.get_u64("size"@),
            archive.get_u64("files"@),
        ) {
            (None, _, _) => Err(rpc_error("INVALID_ARTIFACT"@, "archive size is required"@)),
            (Some(_), None, _) => Err(rpc_error("INVALID_ARTIFACT"@, "artifact size is required"@)),
            (Some(_), Some(_), None) => Err(rpc_error("INVALID_ARTIFACT"@, "artifact file count is required"@)),
            (Some(archive_size), Some(size), Some(files)) => Ok(
                (token, digest, archive_size, size, files, crate::invoke::text_of(archive, "kind"@, "directory"@)),
            ),
        },
    }
}

/// An archive on its way.
#[derive(Debug)]
pub struct ArchiveTransfer {
    pub request: RelayRequest,
    pub token: String,
    pub digest: String,
    pub archive_size: u64,
    pub size: u64,
    pub files: u64,
    pub kind: String,
    pub staging: String,
    /// What the destination is told of the leases under which it writes.
    pub authority: Json,
    pub offset: u64,
    pub chunks: u64,
    pub encoded_bytes: u64,
}

impl ArchiveTransfer {
    /// No more chunks arrived than bytes.
    pub open spec fn wf(self) -> bool {
        self.chunks <= self.offset
    }

    /// Whether nothing but how far the transfer is differs.
    pub open spec fn same_job(self, other: ArchiveTransfer) -> bool {
        self == (ArchiveTransfer {
            offset: self.offset,
            chunks: self.chunks,
            encoded_bytes: self.encoded_bytes,
            ..other
        })
    }
}

/// Begins to transfer an archive that the source made, under the lease of the relay.
pub fn begin_archive(
    id: &str,
    leases: &mut LeaseTable,
    request: RelayRequest,
    archive: &Json,
    now: u64,
    lease_id: &str,
    lease_token: &str,
    unique: &str,
) -> (r: Result<(ArchiveTransfer, Lease), RpcError>)
    requires
        old(leases)@.wf(),
        request.authority@ is Array,
    ensures
        final(leases)@.wf(),
        match archive_facts(archive@) {
            Err(e) => fails(r, e) && final(leases)@ == old(leases)@,
            Ok(f) => {
                let path = request@.destination_path;
                if old(leases)@.busy(relay_resource(path), now) {
                    fails(r, held_error(old(leases)@.held(relay_resource(path))->0)) && final(leases)@ == old(leases)@
                } else {
                    &&& r matches Ok(p)
                    &&& locks_relay(
                        Ok(p.1),
                        final(leases)@,
                        old(leases)@,
                        id@,
                        path,
                        now,
                        lease_id@,
                        lease_token@,
                    )
                    &&& p.0.request == request
                    &&& (p.0.token@, p.0.digest@, p.0.archive_size, p.0.size, p.0.files, p.0.kind@) == f
                    &&& p.0.staging@ == staging_view(path, unique@)
                    &&& p.0.authority@ == JsonView::Array(request@.authority->Array_0.push(relay_fence(id@, p.1)))
                    &&& p.0.offset == 0
                    &&& p.0.chunks == 0
                    &&& p.0.encoded_bytes == 0
                    &&& p.0.wf()
                }
            },
        },
{
    let token = match required_str(archive, "token") {
        Ok(s) => s.to_owned(),
        Err(e) => return Err(e),
    };
    let digest = match required_str(archive, "digest") {
        Ok(s) => s.to_owned(),
        Err(e) => return Err(e),
    };
    let archive_size = match archive.get_u64("archiveSize") {
        Some(n) => n,
        None => return Err(RpcError::new("INVALID_ARTIFACT", "archive size is required")),
    };
    let size = match archive.get_u64("size") {
        Some(n) => n,
        None => return Err(RpcError::new("INVALID_ARTIFACT", "artifact size is required")),
    };
    let files = match archive.get_u64("files") {
        Some(n) => n,
        None => return Err(RpcError::new("INVALID_ARTIFACT", "artifact file count is required")),
    };
    let kind = match archive.get_text("kind") {
        Some(k) => k,
        None => "directory".to_owned(),
    };
    let lease = match lock_relay(leases, id, request.destination_path.as_str(), now, lease_id, lease_token) {
        Ok(l) => l,
        Err(e) => return Err(e),
    };
    let staging = concat3(request.destination_path.as_str(), ".workbench-relay-", unique);
    let mut items: Vec<Json> = match request.authority.copy() {
        Json::Array(items) => items,
        _ => Vec::new(),
    };
    let ghost before = items@;
    items.push(relay_fence_entry(id, &lease));
    let authority = Json::array(items);
    proof {
        assert(json_views(before) =~= request@.authority->Array_0);
        assert(authority@->Array_0 =~= request@.authority->Array_0.push(relay_fence(id@, lease)));
    }
    Ok(
        (
            ArchiveTransfer {
                request,
                token,
                digest,
                archive_size,
                size,
                files,
                kind,
                staging,
                authority,
                offset: 0,
                chunks: 0,
                encoded_bytes: 0,
            },
            lease,
        ),
    )
}

/// How many bytes the data of a chunk take as text.
pub open spec fn data_bytes(chunk: JsonView) -> nat {
    match chunk.get_str("data"@) {
        Some(s) => vstd::utf8::encode_utf8(s).len(),
        None => 0,
    }
}

/// An error of a transfer, with where it failed in its details.
pub open spec fn failed_at(e: RpcErrorView, stage: Seq<char>, offset: u64, chunks: u64) -> RpcErrorView {
    RpcErrorView { details: transfer_details(stage, offset, chunks, e.details), ..e }
}

/// How fast an archive was relayed, in bytes a second.
pub open spec fn throughput(size: u64, ms: u64) -> u64 {
    let scaled = if size * 1000 <= u64::MAX {
        (size * 1000) as u64
    } else {
        u64::MAX
    };
    if ms == 0 {
        scaled
    } else {
        scaled / ms
    }
}

/// What a transfer that is done answers.
pub open spec fn archive_answer(t: ArchiveTransfer, committed: JsonView, relay_ms: u64, commit_ms: u64) -> JsonView {
    let r = t.request@;
    JsonView::obj().plus("archiveSize"@, JsonView::Unsigned(t.archive_size)).plus(
        "compression"@,
        JsonView::Text("gzip"@),
    ).plus(
        "destination"@,
        JsonView::obj().plus("executorId"@, JsonView::Text(r.destination_executor)).plus(
            "path"@,
            JsonView::Text(r.destination_path),
        ),
    ).plus("digest"@, committed.get_or_null("digest"@)).plus("files"@, committed.get_or_null("files"@)).plus(
        "mode"@,
        JsonView::Text("mirror"@),
    ).plus("size"@, committed.get_or_null("size"@)).plus(
        "source"@,
        JsonView::obj().plus("executorId"@, JsonView::Text(r.source_executor)),
    ).plus(
        "transfer"@,
        JsonView::obj().plus("archiveBytes"@, JsonView::Unsigned(t.archive_size)).plus(
            "chunkSize"@,
            JsonView::Unsigned(ARCHIVE_CHUNK),
        ).plus("chunks"@, JsonView::Unsigned(t.chunks)).plus("commitDurationMs"@, JsonView::Unsigned(commit_ms)).plus(
            "encodedBytes"@,
            JsonView::Unsigned(t.encoded_bytes),
        ).plus("rawBytes"@, JsonView::Unsigned(t.size)).plus("relayDurationMs"@, JsonView::Unsigned(relay_ms)).plus(
            "retryCount"@,
            JsonView::Unsigned(0),
        ).plus("throughputBytesPerSecond"@, JsonView::Unsigned(throughput(t.archive_size, relay_ms))).plus(
            "transferredBytes"@,
            JsonView::Unsigned(t.offset),
        ),
    ).plus("transport"@, JsonView::Text("archive"@))
}

/// The parameters of a call to the destination, before those of the step.
pub open spec fn destination_view(session: Seq<char>, authority: JsonView) -> JsonView {
    JsonView::obj().plus("_authority"@, authority).plus("_workspaceSessionId"@, JsonView::Text(session))
}

impl ArchiveTransfer {
    fn destination_params(&self) -> (r: Json)
        ensures
            r@ == destination_view(self.request@.session, self.authority@),
    {
        Json::obj().plus("_authority", self.authority.copy()).plus(
            "_workspaceSessionId",
            Json::text(self.request.session.as_str()),
        )
    }

    /// The parameters with which the destination is asked to make room.
    pub fn prepare_params(&self) -> (r: Json)
        ensures
            r@ == destination_view(self.request@.session, self.authority@).plus(
                "destination"@,
                JsonView::Text(self.request@.destination_path),
            ).plus("staging"@, JsonView::Text(self.staging@)),
    {
        self.destination_params().plus("destination", Json::text(self.request.destination_path.as_str())).plus(
            "staging",
            Json::text(self.staging.as_str()),
        )
    }

    /// What making room gave.
    pub fn prepared(&self, result: Result<Json, RpcError>) -> (r: Result<(), RpcError>)
        ensures
            match result_view(result) {
                Ok(_) => r is Ok,
                Err(e) => fails(r, failed_at(e, "preparing"@, 0, 0)),
            },
    {
        match result {
            Ok(_) => Ok(()),
            Err(e) => Err(transfer_error(e, "preparing", 0, 0)),
        }
    }

    /// The parameters with which the source is asked for the next chunk; none once all bytes have
    /// arrived.
    pub fn read_params(&self) -> (r: Option<Json>)
        ensures
            if self.offset >= self.archive_size {
                r is None
            } else {
                r matches Some(j) && j@ == destination_view(self.request@.session, self.request@.authority).plus(
                    "limit"@,
                    JsonView::Unsigned(ARCHIVE_CHUNK),
                ).plus("offset"@, JsonView::Unsigned(self.offset)).plus("token"@, JsonView::Text(self.token@))
            },
    {
        if self.offset >= self.archive_size {
            return None;
        }
        Some(
            Json::obj().plus("_authority", self.request.authority.copy()).plus(
                "_workspaceSessionId",
                Json::text(self.request.session.as_str()),
            ).plus("limit", Json::Unsigned(ARCHIVE_CHUNK)).plus("offset", Json::Unsigned(self.offset)).plus(
                "token",
                Json::text(self.token.as_str()),
            ),
        )
    }

    /// Takes the next chunk from the source. The result gives the parameters with which the
    /// destination is asked to write it, and its length.
    pub fn take_chunk(&mut self, result: Result<Json, RpcError>) -> (r: Result<(Json, u64), RpcError>)
        requires
            old(self).wf(),
            old(self).offset < old(self).archive_size,
            result matches Ok(chunk) ==> old(self).encoded_bytes + data_bytes(chunk@) <= u64::MAX,
        ensures
            final(self).same_job(*old(self)),
            match result_view(result) {
                Err(e) => fails(r, failed_at(e, "reading"@, old(self).offset, old(self).chunks)) && *final(self) == *old(
                    self,
                ),
                Ok(chunk) => match chunk.get_u64("bytes"@) {
                    None => fails(r, rpc_error("INVALID_ARTIFACT"@, "archive chunk has no byte count"@)) && *final(self)
                        == *old(self),
                    Some(bytes) => if bytes == 0 {
                        fails(
                            r,
                            failed_at(
                                rpc_error("ARTIFACT_TRANSFER_FAILED"@, "unexpected EOF while reading archive"@),
                                "reading"@,
                                old(self).offset,
                                old(self).chunks,
                            ),
                        ) && *final(self) == *old(self)
                    } else {
                        &&& r matches Ok(p) && p.1 == bytes && p.0@ == destination_view(
                            old(self).request@.session,
                            old(self).authority@,
                        ).plus("data"@, chunk.get_or_null("data"@)).plus(
                            "destination"@,
                            JsonView::Text(old(self).request@.destination_path),
                        ).plus("offset"@, JsonView::Unsigned(old(self).offset)).plus(
                            "staging"@,
                            JsonView::Text(old(self).staging@),
                        )
                        &&& final(self).offset == old(self).offset
                        &&& final(self).chunks == old(self).chunks + 1
                        &&& final(self).encoded_bytes == old(self).encoded_bytes + data_bytes(chunk)
                    },
                },
            },
    {
        let chunk = match result {
            Ok(j) => j,
            Err(e) => return Err(transfer_error(e, "reading", self.offset, self.chunks)),
        };
        let bytes = match chunk.get_u64("bytes") {
            Some(n) => n,
            None => return Err(RpcError::new("INVALID_ARTIFACT", "archive chunk has no byte count")),
        };
        if bytes == 0 {
            return Err(
                transfer_error(
                    RpcError::new("ARTIFACT_TRANSFER_FAILED", "unexpected EOF while reading archive"),
                    "reading",
                    self.offset,
                    self.chunks,
                ),
            );
        }
        self.chunks = self.chunks + 1;
        if let Some(data) = chunk.get_str("data") {
            let n = data.as_bytes().len() as u64;
            self.encoded_bytes = self.encoded_bytes + n;
        }
        let params = self.destination_params().plus("data", chunk.copy_or_null("data")).plus(
            "destination",
            Json::text(self.request.destination_path.as_str()),
        ).plus("offset", Json::Unsigned(self.offset)).plus("staging", Json::text(self.staging.as_str()));
        Ok((params, bytes))
    }

    /// Notes that the destination wrote a chunk.
    pub fn wrote(&mut self, result: Result<Json, RpcError>, bytes: u64) -> (r: Result<(), RpcError>)
        ensures
            final(self).same_job(*old(self)),
            final(self).chunks == old(self).chunks,
            final(self).encoded_bytes == old(self).encoded_bytes,
            match result_view(result) {
                Ok(_) => r is Ok && final(self).offset == later(old(self).offset, bytes),
                Err(e) => fails(r, failed_at(e, "writing"@, old(self).offset, old(self).chunks)) && final(self).offset
                    == old(self).offset,
            },
    {
        match result {
            Ok(_) => {
                self.offset = end_of(self.offset, bytes);
                Ok(())
            },
            Err(e) => Err(transfer_error(e, "writing", self.offset, self.chunks)),
        }
    }

    /// The parameters with which the destination is asked to check and to put in place what
    /// arrived.
    pub fn commit_params(&self) -> (r: Json)
        ensures
            r@ == destination_view(self.request@.session, self.authority@).plus(
                "archiveSize"@,
                JsonView::Unsigned(self.archive_size),
            ).plus("destination"@, JsonView::Text(self.request@.destination_path)).plus(
                "expectedDigest"@,
                JsonView::Text(self.digest@),
            ).plus("files"@, JsonView::Unsigned(self.files)).plus("kind"@, JsonView::Text(self.kind@)).plus(
                "size"@,
                JsonView::Unsigned(self.size),
            ).plus("staging"@, JsonView::Text(self.staging@)),
    {
        self.destination_params().plus("archiveSize", Json::Unsigned(self.archive_size)).plus(
            "destination",
            Json::text(self.request.destination_path.as_str()),
        ).plus("expectedDigest", Json::text(self.digest.as_str())).plus("files", Json::Unsigned(self.files)).plus(
            "kind",
            Json::text(self.kind.as_str()),
        ).plus("size", Json::Unsigned(self.size)).plus("staging", Json::text(self.staging.as_str()))
    }

    /// What a transfer answers after the destination put in place what arrived.
    pub fn committed(&self, result: Result<Json, RpcError>, relay_ms: u64, commit_ms: u64) -> (r: Result<Json, RpcError>)
        requires
            relay_ms == 0 ==> self.archive_size * 1000 <= u64::MAX,
        ensures
            match result_view(result) {
                Ok(committed) => r matches Ok(j) && j@ == archive_answer(*self, committed, relay_ms, commit_ms),
                Err(e) => fails(r, failed_at(e, "committing"@, self.offset, self.chunks)),
            },
    {
        let committed = match result {
            Ok(j) => j,
            Err(e) => return Err(transfer_error(e, "committing", self.offset, self.chunks)),
        };
        let scaled: u64 = if self.archive_size <= u64::MAX / 1000 {
            self.archive_size * 1000
        } else {
            u64::MAX
        };
        let speed: u64 = if relay_ms == 0 {
            scaled
        } else {
            scaled / relay_ms
        };
        let destination = Json::obj().plus(
            "executorId",
            Json::text(self.request.destination_executor.as_str()),
        ).plus("path", Json::text(self.request.destination_path.as_str()));
        let source = Json::obj().plus("executorId", Json::text(self.request.source_executor.as_str()));
        let transfer = Json::obj().plus("archiveBytes", Json::Unsigned(self.archive_size)).plus(
            "chunkSize",
            Json::Unsigned(ARCHIVE_CHUNK),
        ).plus("chunks", Json::Unsigned(self.chunks)).plus("commitDurationMs", Json::Unsigned(commit_ms)).plus(
            "encodedBytes",
            Json::Unsigned(self.encoded_bytes),
        ).plus("rawBytes", Json::Unsigned(self.size)).plus("relayDurationMs", Json::Unsigned(relay_ms)).plus(
            "retryCount",
            Json::Unsigned(0),
        ).plus("throughputBytesPerSecond", Json::Unsigned(speed)).plus(
            "transferredBytes",
            Json::Unsigned(self.offset),
        );
        Ok(
            Json::obj().plus("archiveSize", Json::Unsigned(self.archive_size)).plus("compression", Json::text("gzip")).plus(
                "destination",
                destination,
            ).plus("digest", committed.copy_or_null("digest")).plus("files", committed.copy_or_null("files")).plus(
                "mode",
                Json::text("mirror"),
            ).plus("size", committed.copy_or_null("size")).plus("source", source).plus("transfer", transfer).plus(
                "transport",
                Json::text("archive"),
            ),
        )
    }
}

/// Each chunk that was read and written brings a transfer nearer to its end, so that it ends after
/// at most as many chunks as the archive has bytes.
pub proof fn transfer_advances(t: ArchiveTransfer, bytes: u64)
    requires
        t.offset < t.archive_size,
        bytes > 0,
    ensures
        t.offset < later(t.offset, bytes),
        t.archive_size - later(t.offset, bytes) < t.archive_size - t.offset,
{
}

/// Whether a field of two documents is equal, or both do not have it.
pub open spec fn field_alike(a: JsonView, b: JsonView, key: Seq<char>) -> bool {
    match (a.get(key), b.get(key)) {
        (Some(x), Some(y)) => alike(x, y),
        (None, None) => true,
        _ => false,
    }
}

/// Whether two lists of the files of a source say the same.
pub open spec fn unchanged(a: JsonView, b: JsonView) -> bool {
    field_alike(a, b, "digest"@) && field_alike(a, b, "entries"@)
}

fn same_field(a: &Json, b: &Json, key: &str) -> (r: bool)
    ensures
        r == field_alike(a@, b@, key@),
{
    match (a.get(key), b.get(key)) {
        (Some(x), Some(y)) => x.equals(y),
        (None, None) => true,
        _ => false,
    }
}

/// Looks at two lists of the files of a source that were made one after the other: whether the
/// source is stable; where it is not when the time for that is over, it is refused.
pub fn manifest_stable(previous: &Json, next: &Json, late: bool) -> (r: Result<bool, RpcError>)
    ensures
        if unchanged(next@, previous@) {
            r == Ok::<bool, RpcError>(true)
        } else if late {
            fails(
                r,
                rpc_error("ARTIFACT_NOT_STABLE"@, "source artifact changed during the stability window"@),
            )
        } else {
            r == Ok::<bool, RpcError>(false)
        },
{
    if same_field(next, previous, "digest") && same_field(next, previous, "entries") {
        return Ok(true);
    }
    if late {
        return Err(
            RpcError::new("ARTIFACT_NOT_STABLE", "source artifact changed during the stability window"),
        );
    }
    Ok(false)
}

/// Whether an entry is a file without content.
pub open spec fn empty_file(e: JsonView) -> bool {
    e.get_str("kind"@) == Some("file"@) && e.get_u64("size"@) == Some(0u64)
}

/// Whether a list of entries has a file without content.
pub open spec fn has_empty_file(entries: Seq<JsonView>) -> bool {
    exists|i: int| 0 <= i < entries.len() && empty_file(#[trigger] entries[i])
}

/// The entries and the digest of a list of files, or why it cannot be relayed.
pub open spec fn manifest_facts(manifest: JsonView, reject_empty: bool) -> Result<(Seq<JsonView>, Seq<char>), RpcErrorView> {
    match manifest.get_array("entries"@) {
        None => Err(rpc_error("INVALID_ARTIFACT"@, "source manifest has no entries"@)),
        Some(entries) => if reject_empty && has_empty_file(entries) {
            Err(rpc_error("ARTIFACT_INCOMPLETE"@, "source artifact contains an empty file"@))
        } else {
            match need(manifest, "digest"@) {
                Err(e) => Err(e),
                Ok(digest) => Ok((entries, digest)),
            }
        },
    }
}

fn any_empty(entries: &Vec<Json>) -> (r: bool)
    ensures
        r == has_empty_file(json_views(entries@)),
{
    let ghost all = json_views(entries@);
    let mut i: usize = 0;
    while i < entries.len()
        invariant
            i <= entries.len(),
            all == json_views(entries@),
            forall|k: int| 0 <= k < i ==> !empty_file(#[trigger] all[k]),
        decreases entries.len() - i,
    {
        let file = match entries[i].get_str("kind") {
            Some(s) => str_eq(s, "file"),
            None => false,
        };
        if file && entries[i].get_u64("size") == Some(0) {
            assert(empty_file(all[i as int]));
            return true;
        }
        i += 1;
    }
    false
}

/// The files of an artifact on their way.
#[derive(Debug)]
pub struct FileTransfer {
    pub request: RelayRequest,
    pub entries: Vec<Json>,
    pub digest: String,
    pub staging: String,
    /// What the destination is told of the lease under which it writes.
    pub authority: Json,
    /// The entry that is being relayed, and how much of it was.
    pub index: usize,
    pub offset: u64,
}

/// Begins to relay the files of a list, under the lease of the relay.
pub fn begin_files(
    id: &str,
    leases: &mut LeaseTable,
    request: RelayRequest,
    manifest: &Json,
    reject_empty: bool,
    now: u64,
    lease_id: &str,
    lease_token: &str,
    unique: &str,
) -> (r: Result<(FileTransfer, Lease), RpcError>)
    requires
        old(leases)@.wf(),
    ensures
        final(leases)@.wf(),
        match manifest_facts(manifest@, reject_empty) {
            Err(e) => fails(r, e) && final(leases)@ == old(leases)@,
            Ok(f) => {
                let path = request@.destination_path;
                if old(leases)@.busy(relay_resource(path), now) {
                    fails(r, held_error(old(leases)@.held(relay_resource(path))->0)) && final(leases)@ == old(leases)@
                } else {
                    &&& r matches Ok(p)
                    &&& locks_relay(
                        Ok(p.1),
                        final(leases)@,
                        old(leases)@,
                        id@,
                        path,
                        now,
                        lease_id@,
                        lease_token@,
                    )
                    &&& p.0.request == request
                    &&& json_views(p.0.entries@) == f.0
                    &&& p.0.digest@ == f.1
                    &&& p.0.staging@ == staging_view(path, unique@)
                    &&& p.0.authority@ == JsonView::Array(seq![relay_fence(id@, p.1)])
                    &&& p.0.index == 0
                    &&& p.0.offset == 0
                }
            },
        },
{
    let entries = match manifest.get_array("entries") {
        Some(v) => v,
        None => return Err(RpcError::new("INVALID_ARTIFACT", "source manifest has no entries")),
    };
    if reject_empty && any_empty(entries) {
        return Err(RpcError::new("ARTIFACT_INCOMPLETE", "source artifact contains an empty file"));
    }
    let digest = match required_str(manifest, "digest") {
        Ok(s) => s,
        Err(e) => return Err(e),
    };
    let lease = match lock_relay(leases, id, request.destination_path.as_str(), now, lease_id, lease_token) {
        Ok(l) => l,
        Err(e) => return Err(e),
    };
    let staging = concat3(request.destination_path.as_str(), ".workbench-relay-", unique);
    let mut copies: Vec<Json> = Vec::new();
    let mut i: usize = 0;
    while i < entries.len()
        invariant
            i <= entries.len(),
            copies@.len() == i,
            forall|k: int| 0 <= k < i ==> (#[trigger] copies@[k])@ == entries@[k]@,
        decreases entries.len() - i,
    {
        copies.push(entries[i].copy());
        i += 1;
    }
    let mut items: Vec<Json> = Vec::new();
    items.push(relay_fence_entry(id, &lease));
    let authority = Json::array(items);
    proof {
        assert(json_views(copies@) =~= json_views(entries@));
        assert(authority@->Array_0 =~= seq![relay_fence(id@, lease)]);
    }
    Ok(
        (
            FileTransfer {
                request,
                entries: copies,
                digest: digest.to_owned(),
                staging,
                authority,
                index: 0,
                offset: 0,
            },
            lease,
        ),
    )
}

/// The next piece to relay, from an entry and how much of it was relayed: the entry, where the
/// piece begins, and the path of the file. Nothing is left where it is absent.
pub open spec fn next_piece(entries: Seq<JsonView>, index: int, offset: u64) -> Result<
    Option<(int, u64, Seq<char>)>,
    RpcErrorView,
>
    decreases entries.len() - index,
{
    if index < 0 || index >= entries.len() {
        Ok(None)
    } else {
        let e = entries[index];
        match need(e, "kind"@) {
            Err(x) => Err(x),
            Ok(kind) => if kind != "file"@ {
                next_piece(entries, index + 1, 0)
            } else {
                match need(e, "path"@) {
                    Err(x) => Err(x),
                    Ok(path) => match e.get_u64("size"@) {
                        None => Err(rpc_error("INVALID_ARTIFACT"@, "file size is required"@)),
                        Some(size) => if offset < size {
                            Ok(Some((index, offset, path)))
                        } else {
                            next_piece(entries, index + 1, 0)
                        },
                    },
                }
            },
        }
    }
}

impl FileTransfer {
    /// Whether nothing but how far the transfer is differs.
    pub open spec fn same_job(self, other: FileTransfer) -> bool {
        self == (FileTransfer { index: self.index, offset: self.offset, ..other })
    }

    /// The parameters with which the destination is asked to make room.
    pub fn prepare_params(&self) -> (r: Json)
        ensures
            r@ == JsonView::obj().plus("_authority"@, self.authority@).plus(
                "destination"@,
                JsonView::Text(self.request@.destination_path),
            ).plus("entries"@, JsonView::Array(json_views(self.entries@))).plus(
                "staging"@,
                JsonView::Text(self.staging@),
            ),
    {
        let mut copies: Vec<Json> = Vec::new();
        let mut i: usize = 0;
        while i < self.entries.len()
            invariant
                i <= self.entries.len(),
                copies@.len() == i,
                forall|k: int| 0 <= k < i ==> (#[trigger] copies@[k])@ == self.entries@[k]@,
            decreases self.entries.len() - i,
        {
            copies.push(self.entries[i].copy());
            i += 1;
        }
        assert(json_views(copies@) =~= json_views(self.entries@));
        Json::obj().plus("_authority", self.authority.copy()).plus(
            "destination",
            Json::text(self.request.destination_path.as_str()),
        ).plus("entries", Json::array(copies)).plus("staging", Json::text(self.staging.as_str()))
    }

    /// Moves to the next piece to relay, and gives the parameters with which the source is asked
    /// for it; none once all files are relayed.
    pub fn read_params(&mut self) -> (r: Result<Option<Json>, RpcError>)
        ensures
            final(self).same_job(*old(self)),
            next_piece(json_views(final(self).entries@), final(self).index as int, final(self).offset) == next_piece(
                json_views(old(self).entries@),
                old(self).index as int,
                old(self).offset,
            ),
            match next_piece(json_views(old(self).entries@), old(self).index as int, old(self).offset) {
                Err(e) => fails(r, e),
                Ok(None) => r matches Ok(None),
                Ok(Some(p)) => {
                    &&& r matches Ok(Some(j)) && j@ == JsonView::obj().plus(
                        "limit"@,
                        JsonView::Unsigned(FILE_CHUNK),
                    ).plus("offset"@, JsonView::Unsigned(p.1)).plus(
                        "path"@,
                        JsonView::Text(old(self).request@.source_path),
                    ).plus("relativePath"@, JsonView::Text(p.2))
                    &&& final(self).index == p.0
                    &&& final(self).offset == p.1
                },
            },
    {
        let ghost all = json_views(self.entries@);
        let ghost start = *self;
        while self.index < self.entries.len()
            invariant
                start == *old(self),
                self.same_job(start),
                all == json_views(self.entries@),
                next_piece(all, start.index as int, start.offset) == next_piece(all, self.index as int, self.offset),
            decreases self.entries.len() - self.index,
        {
            assert(all[self.index as int] == self.entries@[self.index as int]@);
            let file = match required_str(&self.entries[self.index], "kind") {
                Ok(kind) => str_eq(kind, "file"),
                Err(e) => return Err(e),
            };
            if file {
                let relative = match required_str(&self.entries[self.index], "path") {
                    Ok(s) => s.to_owned(),
                    Err(e) => return Err(e),
                };
                let size = match self.entries[self.index].get_u64("size") {
                    Some(n) => n,
                    None => return Err(RpcError::new("INVALID_ARTIFACT", "file size is required")),
                };
                if self.offset < size {
                    return Ok(
                        Some(
                            Json::obj().plus("limit", Json::Unsigned(FILE_CHUNK)).plus(
                                "offset",
                                Json::Unsigned(self.offset),
                            ).plus("path", Json::text(self.request.source_path.as_str())).plus(
                                "relativePath",
                                Json::text(relative.as_str()),
                            ),
                        ),
                    );
                }
            }
            self.index = self.index + 1;
            self.offset = 0;
        }
        Ok(None)
    }

    /// Takes a piece from the source. The result gives the parameters with which the destination
    /// is asked to write it, and its length.
    pub fn take_chunk(&self, relative: &str, chunk: &Json) -> (r: Result<(Json, u64), RpcError>)
        ensures
            match chunk@.get_u64("bytes"@) {
                None => fails(r, rpc_error("INVALID_ARTIFACT"@, "relay chunk has no byte count"@)),
                Some(bytes) => if bytes == 0 {
                    fails(
                        r,
                        rpc_error("ARTIFACT_TRANSFER_FAILED"@, "unexpected EOF while reading "@ + relative@),
                    )
                } else {
                    r matches Ok(p) && p.1 == bytes && p.0@ == JsonView::obj().plus("_authority"@, self.authority@).plus(
                        "data"@,
                        chunk@.get_or_null("data"@),
                    ).plus("destination"@, JsonView::Text(self.request@.destination_path)).plus(
                        "offset"@,
                        JsonView::Unsigned(self.offset),
                    ).plus("relativePath"@, JsonView::Text(relative@)).plus("staging"@, JsonView::Text(self.staging@))
                },
            },
    {
        let bytes = match chunk.get_u64("bytes") {
            Some(n) => n,
            None => return Err(RpcError::new("INVALID_ARTIFACT", "relay chunk has no byte count")),
        };
        if bytes == 0 {
            let m = concat2("unexpected EOF while reading ", relative);
            return Err(RpcError::new("ARTIFACT_TRANSFER_FAILED", m.as_str()));
        }
        Ok(
            (
                Json::obj().plus("_authority", self.authority.copy()).plus("data", chunk.copy_or_null("data")).plus(
                    "destination",
                    Json::text(self.request.destination_path.as_str()),
                ).plus("offset", Json::Unsigned(self.offset)).plus("relativePath", Json::text(relative)).plus(
                    "staging",
                    Json::text(self.staging.as_str()),
                ),
                bytes,
            ),
        )
    }

    /// Notes that the destination wrote a piece.
    pub fn wrote(&mut self, bytes: u64)
        ensures
            *final(self) == (FileTransfer { offset: later(old(self).offset, bytes), ..*old(self) }),
    {
        self.offset = end_of(self.offset, bytes);
    }

    /// The parameters with which the destination is asked to check and to put in place what
    /// arrived.
    pub fn commit_params(&self) -> (r: Json)
        ensures
            r@ == JsonView::obj().plus("_authority"@, self.authority@).plus(
                "destination"@,
                JsonView::Text(self.request@.destination_path),
            ).plus("expectedDigest"@, JsonView::Text(self.digest@)).plus("staging"@, JsonView::Text(self.staging@)),
    {
        Json::obj().plus("_authority", self.authority.copy()).plus(
            "destination",
            Json::text(self.request.destination_path.as_str()),
        ).plus("expectedDigest", Json::text(self.digest.as_str())).plus("staging", Json::text(self.staging.as_str()))
    }

    /// What a transfer answers after the destination put in place what arrived.
    pub fn committed(&self, committed: &Json) -> (r: Json)
        ensures
            r@ == JsonView::obj().plus(
                "destination"@,
                JsonView::obj().plus("executorId"@, JsonView::Text(self.request@.destination_executor)).plus(
                    "path"@,
                    JsonView::Text(self.request@.destination_path),
                ),
            ).plus("digest"@, committed@.get_or_null("digest"@)).plus("files"@, committed@.get_or_null("files"@)).plus(
                "mode"@,
                JsonView::Text("mirror"@),
            ).plus("size"@, committed@.get_or_null("size"@)).plus(
                "source"@,
                JsonView::obj().plus("executorId"@, JsonView::Text(self.request@.source_executor)).plus(
                    "path"@,
                    JsonView::Text(self.request@.source_path),
                ),
            ),
    {
        let destination = Json::obj().plus(
            "executorId",
            Json::text(self.request.destination_executor.as_str()),
        ).plus("path", Json::text(self.request.destination_path.as_str()));
        let source = Json::obj().plus("executorId", Json::text(self.request.source_executor.as_str())).plus(
            "path",
            Json::text(self.request.source_path.as_str()),
        );
        Json::obj().plus("destination", destination).plus("digest", committed.copy_or_null("digest")).plus(
            "files",
            committed.copy_or_null("files"),
        ).plus("mode", Json::text("mirror")).plus("size", committed.copy_or_null("size")).plus("source", source)
    }
}

/// An artifact is relayed only for the one who drives the session, between the ends that were named,
/// and the source is told the fence of that driver under the epoch of the session.
pub proof fn relay_needs_the_driver(
    id: Seq<char>,
    sessions: Seq<WorkspaceSession>,
    t: LeasesView,
    params: JsonView,
    now: u64,
)
    requires
        relay_view(id, sessions, t, params, now) is Ok,
    ensures
        ({
            let r = relay_view(id, sessions, t, params, now)->Ok_0;
            &&& need(params, "workspaceSessionId"@) == Ok::<Seq<char>, RpcErrorView>(r.session)
            &&& t.held("workspace:"@ + r.session) matches Some(l) && need(params, "owner"@) == Ok::<
                Seq<char>,
                RpcErrorView,
            >(l.owner@) && need(params, "driverToken"@) == Ok::<Seq<char>, RpcErrorView>(l.token@) && now < l.expires_at
                && r.authority == JsonView::Array(seq![fence_json(id, epoch_of(sessions, r.session), l, now)])
            &&& params.get("source"@) matches Some(j) && need(j, "executorId"@) == Ok::<Seq<char>, RpcErrorView>(
                r.source_executor,
            ) && need(j, "path"@) == Ok::<Seq<char>, RpcErrorView>(r.source_path)
            &&& params.get("destination"@) matches Some(j) && need(j, "executorId"@) == Ok::<Seq<char>, RpcErrorView>(
                r.destination_executor,
            ) && need(j, "path"@) == Ok::<Seq<char>, RpcErrorView>(r.destination_path)
            &&& params.get_str("mode"@) matches Some(m) ==> m == "mirror"@
        }),
{
}

/// Whether an entry of a manifest has nothing left to be read behind an offset.
pub open spec fn nothing_left(e: JsonView, offset: u64) -> bool {
    e.get_str("kind"@) != Some("file"@) || (e.get_u64("size"@) matches Some(size) && size <= offset)
}

/// Files are read in the order of their manifest, each to its end: what comes next is the first
/// file with something left, and nothing comes next only where nothing is left.
pub proof fn every_file_is_read_to_its_end(entries: Seq<JsonView>, index: int, offset: u64)
    requires
        0 <= index <= entries.len(),
    ensures
        match next_piece(entries, index, offset) {
            Ok(Some(p)) => {
                &&& index <= p.0 < entries.len()
                &&& entries[p.0].get_str("kind"@) == Some("file"@)
                &&& entries[p.0].get_str("path"@) == Some(p.2)
                &&& entries[p.0].get_u64("size"@) matches Some(size) && p.1 < size
                &&& p.1 == (if p.0 == index {
                    offset
                } else {
                    0
                })
                &&& forall|k: int|
                    index < k < p.0 ==> nothing_left(#[trigger] entries[k], 0)
                &&& p.0 > index ==> nothing_left(entries[index], offset)
            },
            Ok(None) => (index < entries.len() ==> nothing_left(entries[index], offset)) && forall|k: int|
                index < k < entries.len() ==> nothing_left(#[trigger] entries[k], 0),
            Err(_) => true,
        },
    decreases entries.len() - index,
{
    if index < entries.len() {
        every_file_is_read_to_its_end(entries, index + 1, 0);
        let e = entries[index];
        if need(e, "kind"@) is Ok {
            assert(e.get_str("kind"@) == Some(need(e, "kind"@)->Ok_0));
        }
        if need(e, "path"@) is Ok {
            assert(e.get_str("path"@) == Some(need(e, "path"@)->Ok_0));
        }
    }
}

/// A manifest is taken exactly where it lists its entries and has a digest, and, where empty files
/// are refused, where none of its files is empty.
pub proof fn incomplete_manifest_is_refused(manifest: JsonView, reject_empty: bool)
    ensures
        manifest_facts(manifest, reject_empty) is Ok == (manifest.get_array("entries"@) is Some && need(
            manifest,
            "digest"@,
        ) is Ok && (reject_empty ==> forall|i: int|
            0 <= i < manifest.get_array("entries"@)->0.len() ==> !((#[trigger] manifest.get_array("entries"@)->0[i]).get_str(
                "kind"@,
            ) == Some("file"@) && manifest.get_array("entries"@)->0[i].get_u64("size"@) == Some(0u64)))),
        manifest_facts(manifest, reject_empty) matches Ok(f) ==> manifest.get_array("entries"@) == Some(f.0) && need(
            manifest,
            "digest"@,
        ) == Ok::<Seq<char>, RpcErrorView>(f.1),
{
    if let Some(entries) = manifest.get_array("entries"@) {
        if has_empty_file(entries) {
            let i = choose|i: int| 0 <= i < entries.len() && empty_file(#[trigger] entries[i]);
            assert(entries[i].get_str("kind"@) == Some("file"@));
        } else {
            assert forall|i: int| 0 <= i < entries.len() implies !((#[trigger] entries[i]).get_str("kind"@) == Some("file"@)
                && entries[i].get_u64("size"@) == Some(0u64)) by {
                assert(!empty_file(entries[i]));
            }
        }
    }
}

/// The throughput is the number of bytes in a second, as far as it can be counted.
pub proof fn throughput_is_bytes_in_a_second(size: u64, ms: u64)
    requires
        size * 1000 <= u64::MAX,
    ensures
        ms == 0 ==> throughput(size, ms) == size * 1000,
        ms > 0 ==> throughput(size, ms) * ms <= size * 1000 && size * 1000 < (throughput(size, ms) + 1) * ms,
        ms == 1000 ==> throughput(size, ms) == size,
{
    if ms > 0 {
        let scaled = (size * 1000) as u64;
        let q = scaled / ms;
        assert(q * ms <= scaled && scaled < (q + 1) * ms) by (nonlinear_arith)
            requires
                ms > 0,
                q == scaled / ms,
        ;
    }
}

/// A destination is held by one transfer at a time, and the lease is on the destination and for the
/// time of a relay.
pub proof fn destination_is_held_by_one_transfer(
    r: Result<Lease, RpcError>,
    after: LeasesView,
    before: LeasesView,
    id: Seq<char>,
    path: Seq<char>,
    now: u64,
    lease_id: Seq<char>,
    token: Seq<char>,
)
    requires
        locks_relay(r, after, before, id, path, now, lease_id, token),
    ensures
        r is Ok == !(before.held(relay_resource(path)) matches Some(l) && l.expires_at > now),
        r is Err ==> after == before,
        r matches Ok(l) ==> l.resource@ == relay_resource(path) && l.owner@ == relay_owner(id) && l.token@ == token
            && l.acquired_at == now && l.kind == LeaseKind::Resource,
{
}

} // verus!
