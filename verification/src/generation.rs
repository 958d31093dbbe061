//! Generations: how a deployed tree is made from a baseline, what may be laid over it, and when
//! it may become the current one.

use crate::json::{text_or_null, Json, JsonView};
use crate::paths::{file_name, file_name_view, is_relative, join, join_view, relative_path};
use crate::rpc::{fails, rpc_error, RpcError, RpcErrorView};
use crate::schema::GenerationState;
use crate::text::{
    chars_of, concat2, concat3, contains_char, ends_with, find, find_from, has_char, is_alnum, is_alphanumeric, list_has,
    split, split_view, str_eq, take_chars, views,
};
use vstd::prelude::*;

verus! {

/// A generation that is there to be used.
#[derive(Debug, Clone, PartialEq, Eq)]
pub struct MaterializedGeneration {
    pub generation_id: String,
    pub root: String,
    pub application_path: String,
    pub marker_path: String,
    pub created_at: u64,
    pub derived_from: Option<String>,
    pub clone_hits: u64,
    pub link_hits: u64,
    pub copied_files: u64,
    pub copied_bytes: u64,
}

/// A tree to be laid over an application, and where.
#[derive(Debug, Clone, PartialEq, Eq)]
pub struct Overlay {
    pub source: String,
    pub target_relative_path: String,
    pub replace: bool,
}

/// A tree of files that goes into a resource pack, under a prefix and without some of its files.
#[derive(Debug, Clone, PartialEq, Eq)]
pub struct DataPackResourceTree {
    pub root_relative: String,
    pub prefix: String,
    pub exclude_source_maps: bool,
    pub exclude_root_files: Vec<String>,
}

/// How the files of a baseline came into a generation.
#[derive(Debug, Clone, Copy, PartialEq, Eq, Structural)]
pub struct MaterializeStats {
    pub clone_hits: u64,
    pub link_hits: u64,
    pub copied_files: u64,
    pub copied_bytes: u64,
}

/// How one file came into a generation.
#[derive(Debug, Clone, Copy, PartialEq, Eq, Structural)]
pub enum FileOutcome {
    Linked,
    Cloned,
    Copied { size: u64 },
}

impl MaterializeStats {
    /// No file yet.
    pub fn new() -> (r: MaterializeStats)
        ensures
            r == (MaterializeStats { clone_hits: 0, link_hits: 0, copied_files: 0, copied_bytes: 0 }),
    {
        MaterializeStats { clone_hits: 0, link_hits: 0, copied_files: 0, copied_bytes: 0 }
    }

    /// The counts with one file more.
    pub open spec fn counted(self, file: FileOutcome) -> MaterializeStats {
        match file {
            FileOutcome::Linked => MaterializeStats { link_hits: (self.link_hits + 1) as u64, ..self },
            FileOutcome::Cloned => MaterializeStats { clone_hits: (self.clone_hits + 1) as u64, ..self },
            FileOutcome::Copied { size } => MaterializeStats {
                copied_files: (self.copied_files + 1) as u64,
                copied_bytes: (self.copied_bytes + size) as u64,
                ..self
            },
        }
    }

    /// Counts one file. The counts have to leave room for it.
    pub fn count(&mut self, file: FileOutcome)
        requires
            old(self).clone_hits < u64::MAX,
            old(self).link_hits < u64::MAX,
            old(self).copied_files < u64::MAX,
            file matches FileOutcome::Copied { size } ==> old(self).copied_bytes + size <= u64::MAX,
        ensures
            *final(self) == old(self).counted(file),
    {
        match file {
            FileOutcome::Linked => {
                self.link_hits = self.link_hits + 1;
            },
            FileOutcome::Cloned => {
                self.clone_hits = self.clone_hits + 1;
            },
            FileOutcome::Copied { size } => {
                self.copied_files = self.copied_files + 1;
                self.copied_bytes = self.copied_bytes + size;
            },
        }
    }
}

/// Whether a character may stand in the name of a generation.
pub open spec fn id_char(c: char) -> bool {
    is_alnum(c) || c == '-' || c == '_' || c == '.'
}

/// Whether a name is one that a generation may have.
pub open spec fn good_id(id: Seq<char>) -> bool {
    0 < id.len() <= 128 && forall|i: int| 0 <= i < id.len() ==> id_char(#[trigger] id[i])
}

/// The error that a name is not one that a generation may have.
pub open spec fn bad_id() -> RpcErrorView {
    rpc_error("INVALID_GENERATION_ID"@, "generation ID must be a safe path component"@)
}

/// Accepts the name of a generation: one to 128 ASCII letters, digits, hyphens, underscores and dots.
pub fn validate_generation_id(value: &str) -> (r: Result<(), RpcError>)
    ensures
        if good_id(value@) {
            r is Ok
        } else {
            fails(r, bad_id())
        },
{
    let v = chars_of(value);
    let mut good = v.len() > 0 && v.len() <= 128;
    let mut i: usize = 0;
    while i < v.len()
        invariant
            i <= v.len(),
            v@ == value@,
            good == (0 < v@.len() <= 128 && forall|k: int| 0 <= k < i ==> id_char(#[trigger] v@[k])),
        decreases v.len() - i,
    {
        let c = v[i];
        if !(is_alphanumeric(c) || c == '-' || c == '_' || c == '.') {
            good = false;
        }
        i += 1;
    }
    if good {
        Ok(())
    } else {
        Err(RpcError::new("INVALID_GENERATION_ID", "generation ID must be a safe path component"))
    }
}

/// The error that an overlay would leave its application.
pub open spec fn bad_target(path: Seq<char>) -> RpcErrorView {
    rpc_error("INVALID_OVERLAY_PATH"@, "overlay target must be a safe relative path: "@ + path)
}

/// Accepts a path that is relative and goes down only.
pub fn validate_relative(path: &str) -> (r: Result<(), RpcError>)
    ensures
        if is_relative(path@) {
            r is Ok
        } else {
            fails(r, bad_target(path@))
        },
{
    if relative_path(path) {
        Ok(())
    } else {
        let message = concat2("overlay target must be a safe relative path: ", path);
        Err(RpcError::new("INVALID_OVERLAY_PATH", message.as_str()))
    }
}

/// Where overlays go, or why one of them goes nowhere.
pub open spec fn overlay_targets(application: Seq<char>, overlays: Seq<Overlay>, n: int) -> Result<
    Seq<Seq<char>>,
    RpcErrorView,
>
    decreases n,
{
    if n <= 0 {
        Ok(Seq::empty())
    } else {
        match overlay_targets(application, overlays, n - 1) {
            Err(e) => Err(e),
            Ok(done) => {
                let t = overlays[n - 1].target_relative_path@;
                if is_relative(t) {
                    Ok(done.push(join_view(application, t)))
                } else {
                    Err(bad_target(t))
                }
            },
        }
    }
}

proof fn lemma_targets_fail(application: Seq<char>, overlays: Seq<Overlay>, k: int, n: int, e: RpcErrorView)
    requires
        0 < k <= n,
        overlay_targets(application, overlays, k) == Err::<Seq<Seq<char>>, RpcErrorView>(e),
    ensures
        overlay_targets(application, overlays, n) == Err::<Seq<Seq<char>>, RpcErrorView>(e),
    decreases n,
{
    if k < n {
        lemma_targets_fail(application, overlays, k, n - 1, e);
    }
}

/// The targets of some overlays in an application, in their order. The first that would leave the
/// application is refused.
pub fn apply_overlays(application_path: &str, overlays: &Vec<Overlay>) -> (r: Result<Vec<String>, RpcError>)
    ensures
        match r {
            Ok(targets) => overlay_targets(application_path@, overlays@, overlays@.len() as int) == Ok::<
                Seq<Seq<char>>,
                RpcErrorView,
            >(views(targets@)),
            Err(e) => overlay_targets(application_path@, overlays@, overlays@.len() as int) == Err::<
                Seq<Seq<char>>,
                RpcErrorView,
            >(e@),
        },
{
    let mut out: Vec<String> = Vec::new();
    let mut i: usize = 0;
    assert(views(out@) =~= Seq::empty());
    while i < overlays.len()
        invariant
            i <= overlays.len(),
            overlay_targets(application_path@, overlays@, i as int) == Ok::<Seq<Seq<char>>, RpcErrorView>(
                views(out@),
            ),
        decreases overlays.len() - i,
    {
        if let Err(e) = validate_relative(overlays[i].target_relative_path.as_str()) {
            proof {
                assert(overlay_targets(application_path@, overlays@, i + 1) == Err::<
                    Seq<Seq<char>>,
                    RpcErrorView,
                >(e@));
                lemma_targets_fail(application_path@, overlays@, i + 1, overlays@.len() as int, e@);
            }
            return Err(e);
        }
        let target = join(application_path, overlays[i].target_relative_path.as_str());
        let ghost before = views(out@);
        out.push(target);
        assert(views(out@) =~= before.push(target@));
        i += 1;
    }
    Ok(out)
}

/// Whether the prefix of a resource tree is a safe path of the pack.
pub open spec fn good_prefix(prefix: Seq<char>) -> bool {
    prefix.len() == 0 || (prefix[0] != '/' && !has_char(prefix, '\\') && {
        let parts = split_view(prefix, '/');
        forall|i: int| 0 <= i < parts.len() ==> (#[trigger] parts[i]).len() > 0 && parts[i] != "."@ && parts[i] != ".."@
    })
}

/// Accepts the prefix of a resource tree: none, or names with single slashes between them.
pub fn validate_prefix(prefix: &str) -> (r: Result<(), RpcError>)
    ensures
        if good_prefix(prefix@) {
            r is Ok
        } else {
            fails(
                r,
                rpc_error(
                    "DATAPACK_PREFIX_INVALID"@,
                    "DataPack prefix is not a safe resource path: "@ + prefix@,
                ),
            )
        },
{
    if prefix.is_empty() {
        return Ok(());
    }
    let parts = split(prefix, '/');
    let ghost v = views(parts@);
    let mut good = prefix.get_char(0) != '/' && !contains_char(prefix, '\\');
    let ghost start = good;
    let mut i: usize = 0;
    while i < parts.len()
        invariant
            i <= parts.len(),
            v == views(parts@),
            good == (start && forall|k: int|
                0 <= k < i ==> (#[trigger] v[k]).len() > 0 && v[k] != "."@ && v[k] != ".."@),
        decreases parts.len() - i,
    {
        assert(v[i as int] == parts@[i as int]@);
        let p = parts[i].as_str();
        if p.is_empty() || str_eq(p, ".") || str_eq(p, "..") {
            good = false;
        }
        i += 1;
    }
    if good {
        Ok(())
    } else {
        let message = concat2("DataPack prefix is not a safe resource path: ", prefix);
        Err(RpcError::new("DATAPACK_PREFIX_INVALID", message.as_str()))
    }
}

/// Whether a file of a resource tree goes into the pack.
pub open spec fn goes_in(tree: DataPackResourceTree, relative: Seq<char>) -> bool {
    !(!has_char(relative, '/') && views(tree.exclude_root_files@).contains(relative)) && !(tree.exclude_source_maps
        && ".map"@.is_suffix_of(relative))
}

/// The path of a file of a resource tree in the pack.
pub open spec fn packed_path_view(tree: DataPackResourceTree, relative: Seq<char>) -> Seq<char> {
    if tree.prefix@.len() == 0 {
        relative
    } else {
        tree.prefix@ + "/"@ + relative
    }
}

/// The path under which a file of a resource tree is packed, where it is: files at the root can
/// be left out by name, and source maps altogether.
pub fn packed_path(tree: &DataPackResourceTree, relative: &str) -> (r: Option<String>)
    ensures
        match r {
            Some(p) => goes_in(*tree, relative@) && p@ == packed_path_view(*tree, relative@),
            None => !goes_in(*tree, relative@),
        },
{
    if !contains_char(relative, '/') && list_has(&tree.exclude_root_files, relative) {
        return None;
    }
    if tree.exclude_source_maps && ends_with(relative, ".map") {
        return None;
    }
    if tree.prefix.as_str().is_empty() {
        Some(relative.to_owned())
    } else {
        Some(concat3(tree.prefix.as_str(), "/", relative))
    }
}

/// The name of the application in a baseline: the name of the baseline up to the end of `.app`,
/// where it has that, so what was added to mark where the baseline came from is dropped.
pub open spec fn application_name_view(name: Seq<char>) -> Seq<char> {
    match find_from(name, ".app"@, 0) {
        Some(i) => name.take(i + 4),
        None => name,
    }
}

/// The name of the application in a baseline of this name.
pub fn application_name(baseline_name: &str) -> (r: String)
    ensures
        r@ == application_name_view(baseline_name@),
{
    proof {
        reveal_strlit(".app");
    }
    match find(baseline_name, ".app") {
        Some(i) => {
            let n = baseline_name.unicode_len();
            take_chars(baseline_name, i + 4)
        },
        None => baseline_name.to_owned(),
    }
}

/// What is to be done to have a generation.
#[derive(Debug)]
pub enum Materialization {
    /// It is there already.
    Reuse(MaterializedGeneration),
    /// It has to be made, with an application of this name.
    Create { application_name: String },
}

/// Whether a generation is what its marker describes.
pub open spec fn described(
    g: MaterializedGeneration,
    marker: JsonView,
    generation_root: Seq<char>,
    id: Seq<char>,
) -> bool {
    let root = join_view(join_view(generation_root, "generations"@), id);
    &&& g.generation_id@ == id
    &&& g.root@ == root
    &&& g.application_path@ == join_view(
        root,
        match marker.get_str("applicationName"@) {
            Some(n) => n,
            None => "application"@,
        },
    )
    &&& g.marker_path@ == join_view(root, "generation.json"@)
    &&& g.created_at == marker.u64_or("createdAt"@, 0)
    &&& crate::task::opt_text(g.derived_from) == marker.get_str("derivedFrom"@)
    &&& g.clone_hits == marker.u64_or("cloneHits"@, 0)
    &&& g.link_hits == marker.u64_or("linkHits"@, 0)
    &&& g.copied_files == marker.u64_or("copiedFiles"@, 0)
    &&& g.copied_bytes == marker.u64_or("copiedBytes"@, 0)
}

/// Decides how to have the generation `generation_id` below `generation_root`, made from
/// `baseline`. `existing` is the marker of the generation where it is there already: one that
/// was materialized is used as it is, any other is in the way.
pub fn materialize_derived(generation_root: &str, generation_id: &str, baseline: &str, existing: Option<&Json>) -> (r:
    Result<Materialization, RpcError>)
    ensures
        if !good_id(generation_id@) {
            fails(r, bad_id())
        } else if file_name_view(generation_root@) == Some("generations"@) {
            fails(
                r,
                rpc_error(
                    "INVALID_GENERATION_ROOT"@,
                    "generationRoot is the deployment root; do not include the trailing generations directory"@,
                ),
            )
        } else {
            match existing {
                Some(marker) => if marker@.get_str("state"@) == Some("materialized"@) {
                    r matches Ok(Materialization::Reuse(g)) && described(
                        g,
                        marker@,
                        generation_root@,
                        generation_id@,
                    )
                } else {
                    fails(
                        r,
                        rpc_error(
                            "GENERATION_EXISTS"@,
                            "generation already exists but is not reusable: "@ + generation_id@,
                        ),
                    )
                },
                None => match file_name_view(baseline@) {
                    Some(name) => r matches Ok(Materialization::Create { application_name }) && application_name@
                        == application_name_view(name),
                    None => fails(r, rpc_error("BASELINE_INVALID"@, "baseline has no UTF-8 name"@)),
                },
            }
        },
{
    if let Err(e) = validate_generation_id(generation_id) {
        return Err(e);
    }
    if let Some(name) = file_name(generation_root) {
        if str_eq(name.as_str(), "generations") {
            return Err(
                RpcError::new(
                    "INVALID_GENERATION_ROOT",
                    "generationRoot is the deployment root; do not include the trailing generations directory",
                ),
            );
        }
    }
    if let Some(marker) = existing {
        let done = match marker.get_str("state") {
            Some(s) => str_eq(s, "materialized"),
            None => false,
        };
        if !done {
            let message = concat2("generation already exists but is not reusable: ", generation_id);
            return Err(RpcError::new("GENERATION_EXISTS", message.as_str()));
        }
        let generations = join(generation_root, "generations");
        let root = join(generations.as_str(), generation_id);
        let name = match marker.get_str("applicationName") {
            Some(n) => n,
            None => "application",
        };
        return Ok(
            Materialization::Reuse(
                MaterializedGeneration {
                    generation_id: generation_id.to_owned(),
                    application_path: join(root.as_str(), name),
                    marker_path: join(root.as_str(), "generation.json"),
                    root,
                    created_at: marker.u64_or("createdAt", 0),
                    derived_from: marker.get_text("derivedFrom"),
                    clone_hits: marker.u64_or("cloneHits", 0),
                    link_hits: marker.u64_or("linkHits", 0),
                    copied_files: marker.u64_or("copiedFiles", 0),
                    copied_bytes: marker.u64_or("copiedBytes", 0),
                },
            ),
        );
    }
    match file_name(baseline) {
        Some(name) => Ok(Materialization::Create { application_name: application_name(name.as_str()) }),
        None => Err(RpcError::new("BASELINE_INVALID", "baseline has no UTF-8 name")),
    }
}

/// The marker of a generation that was made.
pub open spec fn marker_view(
    id: Seq<char>,
    application_name: Seq<char>,
    baseline: Seq<char>,
    derived_from: Option<Seq<char>>,
    stats: MaterializeStats,
    now: u64,
) -> JsonView {
    JsonView::obj()
        .plus("applicationName"@, JsonView::Text(application_name))
        .plus("baseline"@, JsonView::Text(baseline))
        .plus("cloneHits"@, JsonView::Unsigned(stats.clone_hits))
        .plus("copiedBytes"@, JsonView::Unsigned(stats.copied_bytes))
        .plus("copiedFiles"@, JsonView::Unsigned(stats.copied_files))
        .plus("createdAt"@, JsonView::Unsigned(now))
        .plus("derivedFrom"@, text_or_null(derived_from))
        .plus("generationId"@, JsonView::Text(id))
        .plus("linkHits"@, JsonView::Unsigned(stats.link_hits))
        .plus("state"@, JsonView::Text("materialized"@))
}

/// The marker of a generation that was made.
pub fn materialized_marker(
    generation_id: &str,
    application_name: &str,
    baseline: &str,
    derived_from: &Option<String>,
    stats: MaterializeStats,
    now: u64,
) -> (r: Json)
    ensures
        r@ == marker_view(
            generation_id@,
            application_name@,
            baseline@,
            crate::task::opt_text(*derived_from),
            stats,
            now,
        ),
{
    Json::obj()
        .plus("applicationName", Json::text(application_name))
        .plus("baseline", Json::text(baseline))
        .plus("cloneHits", Json::Unsigned(stats.clone_hits))
        .plus("copiedBytes", Json::Unsigned(stats.copied_bytes))
        .plus("copiedFiles", Json::Unsigned(stats.copied_files))
        .plus("createdAt", Json::Unsigned(now))
        .plus("derivedFrom", Json::opt_text(derived_from))
        .plus("generationId", Json::text(generation_id))
        .plus("linkHits", Json::Unsigned(stats.link_hits))
        .plus("state", Json::text("materialized"))
}

/// The marker of a generation that could not be made.
pub fn failed_marker(generation_id: &str, error: &str, now: u64) -> (r: Json)
    ensures
        r@ == JsonView::obj().plus("createdAt"@, JsonView::Unsigned(now)).plus("error"@, JsonView::Text(error@)).plus(
            "generationId"@,
            JsonView::Text(generation_id@),
        ).plus("state"@, JsonView::Text("failed"@)),
{
    Json::obj()
        .plus("createdAt", Json::Unsigned(now))
        .plus("error", Json::text(error))
        .plus("generationId", Json::text(generation_id))
        .plus("state", Json::text("failed"))
}

/// Whether a state may be recorded in the marker of a generation.
pub open spec fn recordable(state: Seq<char>) -> bool {
    state == "materialized"@ || state == "applied"@ || state == "validated"@ || state == "finalized"@ || state
        == "smoke-passed"@ || state == "ready"@ || state == "active"@ || state == "failed"@
}

/// The marker with a state recorded at `now` on the strength of some evidence.
pub fn record_state(marker: Json, generation_id: &str, state: &str, evidence: Json, now: u64) -> (r: Result<
    Json,
    RpcError,
>)
    requires
        marker@.settable(),
    ensures
        if !good_id(generation_id@) {
            fails(r, bad_id())
        } else if !recordable(state@) {
            fails(r, rpc_error("INVALID_GENERATION_STATE"@, "unsupported generation state: "@ + state@))
        } else {
            r matches Ok(m) && m@ == marker@.with("state"@, JsonView::Text(state@)).with(
                "updatedAt"@,
                JsonView::Unsigned(now),
            ).with("evidence"@, evidence@)
        },
{
    if let Err(e) = validate_generation_id(generation_id) {
        return Err(e);
    }
    if !(str_eq(state, "materialized") || str_eq(state, "applied") || str_eq(state, "validated") || str_eq(
        state,
        "finalized",
    ) || str_eq(state, "smoke-passed") || str_eq(state, "ready") || str_eq(state, "active") || str_eq(
        state,
        "failed",
    )) {
        let message = concat2("unsupported generation state: ", state);
        return Err(RpcError::new("INVALID_GENERATION_STATE", message.as_str()));
    }
    let mut m = marker;
    m.set("state", Json::text(state));
    m.set("updatedAt", Json::Unsigned(now));
    m.set("evidence", evidence);
    Ok(m)
}

/// What may be recorded is read back, and what else the marker says stays.
pub proof fn recorded_state_is_read_back(marker: JsonView, state: Seq<char>, evidence: JsonView, now: u64, other: Seq<char>)
    requires
        marker.settable(),
    ensures
        ({
            let m = marker.with("state"@, JsonView::Text(state)).with("updatedAt"@, JsonView::Unsigned(now)).with(
                "evidence"@,
                evidence,
            );
            &&& m.get_str("state"@) == Some(state)
            &&& m.get_u64("updatedAt"@) == Some(now)
            &&& m.get("evidence"@) == Some(evidence)
            &&& other != "state"@ && other != "updatedAt"@ && other != "evidence"@ ==> m.get(other) == marker.get(other)
        }),
{
    reveal_strlit("state");
    reveal_strlit("updatedAt");
    reveal_strlit("evidence");
    assert("state"@.len() != "updatedAt"@.len() && "state"@.len() != "evidence"@.len() && "updatedAt"@.len()
        != "evidence"@.len());
    let a = marker.with("state"@, JsonView::Text(state));
    let b = a.with("updatedAt"@, JsonView::Unsigned(now));
    crate::json::lemma_with(marker, "state"@, JsonView::Text(state), other);
    crate::json::lemma_with(a, "updatedAt"@, JsonView::Unsigned(now), "state"@);
    crate::json::lemma_with(a, "updatedAt"@, JsonView::Unsigned(now), other);
    crate::json::lemma_with(b, "evidence"@, evidence, "state"@);
    crate::json::lemma_with(b, "evidence"@, evidence, "updatedAt"@);
    crate::json::lemma_with(b, "evidence"@, evidence, other);
}

/// Accepts a generation that may become the current one: its marker has to say that it is ready.
pub fn activate(marker: &Json, generation_id: &str) -> (r: Result<(), RpcError>)
    ensures
        if !good_id(generation_id@) {
            fails(r, bad_id())
        } else if marker@.get_str("state"@) != Some("ready"@) {
            fails(
                r,
                rpc_error(
                    "GENERATION_NOT_READY"@,
                    "generation state is "@ + (match marker@.get_str("state"@) {
                        Some(s) => s,
                        None => "unknown"@,
                    }) + ", expected ready"@,
                ),
            )
        } else {
            r is Ok
        },
{
    if let Err(e) = validate_generation_id(generation_id) {
        return Err(e);
    }
    let state = match marker.get_str("state") {
        Some(s) => {
            if str_eq(s, "ready") {
                return Ok(());
            }
            s
        },
        None => "unknown",
    };
    let message = concat3("generation state is ", state, ", expected ready");
    Err(RpcError::new("GENERATION_NOT_READY", message.as_str()))
}

/// Whether a generation may go from one state to another.
pub open spec fn may_become(from: GenerationState, to: GenerationState) -> bool {
    from == to || match from {
        GenerationState::Reserved => to == GenerationState::Materializing || to == GenerationState::Failed,
        GenerationState::Materializing => to == GenerationState::Materialized || to == GenerationState::Failed,
        GenerationState::Materialized => to == GenerationState::Validated || to == GenerationState::Failed,
        GenerationState::Validated => to == GenerationState::Finalized || to == GenerationState::Failed,
        GenerationState::Finalized => to == GenerationState::SmokePassed || to == GenerationState::Failed,
        GenerationState::SmokePassed => to == GenerationState::Active || to == GenerationState::Failed,
        GenerationState::Active => to == GenerationState::Superseded,
        _ => false,
    }
}

/// Whether a generation may go from one state to another.
pub fn generation_transition_allowed(from: &GenerationState, to: &GenerationState) -> (r: bool)
    ensures
        r == may_become(*from, *to),
{
    *from == *to || match (*from, *to) {
        (GenerationState::Reserved, GenerationState::Materializing) => true,
        (GenerationState::Reserved, GenerationState::Failed) => true,
        (GenerationState::Materializing, GenerationState::Materialized) => true,
        (GenerationState::Materializing, GenerationState::Failed) => true,
        (GenerationState::Materialized, GenerationState::Validated) => true,
        (GenerationState::Materialized, GenerationState::Failed) => true,
        (GenerationState::Validated, GenerationState::Finalized) => true,
        (GenerationState::Validated, GenerationState::Failed) => true,
        (GenerationState::Finalized, GenerationState::SmokePassed) => true,
        (GenerationState::Finalized, GenerationState::Failed) => true,
        (GenerationState::SmokePassed, GenerationState::Active) => true,
        (GenerationState::SmokePassed, GenerationState::Failed) => true,
        (GenerationState::Active, GenerationState::Superseded) => true,
        _ => false,
    }
}

/// How far a generation has come.
pub open spec fn progress(s: GenerationState) -> int {
    match s {
        GenerationState::Reserved => 0,
        GenerationState::Materializing => 1,
        GenerationState::Materialized => 2,
        GenerationState::Validated => 3,
        GenerationState::Finalized => 4,
        GenerationState::SmokePassed => 5,
        GenerationState::Active => 6,
        GenerationState::Superseded => 7,
        GenerationState::Failed => 8,
    }
}

/// A generation never goes back, and one that failed or was superseded stays so. It becomes
/// active only from the state in which its smoke test has passed, and does not fail after.
pub proof fn generations_only_go_forward(from: GenerationState, to: GenerationState)
    requires
        may_become(from, to),
    ensures
        progress(from) <= progress(to),
        from == GenerationState::Failed || from == GenerationState::Superseded ==> to == from,
        to == GenerationState::Active && from != to ==> from == GenerationState::SmokePassed,
        from == GenerationState::Active ==> to != GenerationState::Failed,
{
}

/// What a generation may come from, for each state that it goes to: it takes one step at a time, and
/// fails from any of them until it is active.
pub proof fn generation_takes_one_step_at_a_time(from: GenerationState, to: GenerationState)
    requires
        from != to,
    ensures
        may_become(from, to) == (match to {
            GenerationState::Reserved => false,
            GenerationState::Materializing => from == GenerationState::Reserved,
            GenerationState::Materialized => from == GenerationState::Materializing,
            GenerationState::Validated => from == GenerationState::Materialized,
            GenerationState::Finalized => from == GenerationState::Validated,
            GenerationState::SmokePassed => from == GenerationState::Finalized,
            GenerationState::Active => from == GenerationState::SmokePassed,
            GenerationState::Superseded => from == GenerationState::Active,
            GenerationState::Failed => from != GenerationState::Active && from != GenerationState::Superseded,
        }),
{
}

/// A name of a generation holds no separator of paths, and is neither empty nor long.
pub proof fn generation_names_are_safe(id: Seq<char>, i: int)
    requires
        good_id(id),
        0 <= i < id.len(),
    ensures
        id.len() <= 128,
        id[i] != '/' && id[i] != '\\' && id[i] != ' ' && id[i] != ':',
{
    assert(id_char(id[i]));
}

/// The targets of overlays are as many as the overlays, each inside the application.
pub proof fn overlays_stay_inside(application: Seq<char>, overlays: Seq<Overlay>, n: int)
    requires
        0 <= n <= overlays.len(),
    ensures
        match overlay_targets(application, overlays, n) {
            Ok(targets) => targets.len() == n && forall|i: int|
                0 <= i < n ==> is_relative((#[trigger] overlays[i]).target_relative_path@) && targets[i] == join_view(
                    application,
                    overlays[i].target_relative_path@,
                ),
            Err(e) => e.code == "INVALID_OVERLAY_PATH"@ && exists|i: int|
                0 <= i < n && !is_relative((#[trigger] overlays[i]).target_relative_path@),
        },
    decreases n,
{
    if n > 0 {
        overlays_stay_inside(application, overlays, n - 1);
        assert(overlays[n - 1] == overlays[n - 1]);
    }
}

/// A file of a tree is packed unless it is one of the root files that are left out, or a source map
/// where those are left out.
pub proof fn files_are_packed_unless_left_out(tree: DataPackResourceTree, relative: Seq<char>)
    ensures
        has_char(relative, '/') && !".map"@.is_suffix_of(relative) ==> goes_in(tree, relative),
        has_char(relative, '/') && !tree.exclude_source_maps ==> goes_in(tree, relative),
        tree.exclude_source_maps && ".map"@.is_suffix_of(relative) ==> !goes_in(tree, relative),
        !has_char(relative, '/') && views(tree.exclude_root_files@).contains(relative) ==> !goes_in(tree, relative),
        !views(tree.exclude_root_files@).contains(relative) && !tree.exclude_source_maps ==> goes_in(tree, relative),
{
}

} // verus!
