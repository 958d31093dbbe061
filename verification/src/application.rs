//! Applications on a desktop: which processes are theirs, how they are signed, and how a launch
//! goes on until it is ready.

use crate::codec::{decode, json_parse};
use crate::json::{insert_field, json_or_null, json_views, lookup, Json, JsonView};
use crate::lines::{lines, lines_view};
use crate::paths::{path_within, within};
use crate::rpc::{fails, rpc_error, RpcError, RpcErrorView};
use crate::table::{find_in, Keyed};
use crate::task::opt_text;
use crate::text::{
    concat2, concat4, contains, find, find_from, has_text, is_white, is_whitespace, lemma_find_from, parse_u64,
    parse_u64_view, str_eq, trim, trim_view, views,
};
use vstd::prelude::*;

verus! {

/// Merges the first `n` fields of a patch into the fields of an object.
pub open spec fn merge_fields(
    target: Seq<(Seq<char>, JsonView)>,
    patch: Seq<(Seq<char>, JsonView)>,
    n: int,
) -> Seq<(Seq<char>, JsonView)>
    decreases patch, n,
{
    if n <= 0 || n > patch.len() {
        target
    } else {
        let before = merge_fields(target, patch, n - 1);
        let field = patch[n - 1];
        proof {
            assert(decreases_to!(patch => patch[n - 1]));
            assert(decreases_to!(patch => patch[n - 1].1));
        }
        insert_field(before, field.0, merged(json_or_null(lookup(before, field.0)), field.1))
    }
}

/// A document with a patch merged into it: objects are merged field by field, and anything else in
/// the patch replaces what was there.
pub open spec fn merged(target: JsonView, patch: JsonView) -> JsonView
    decreases patch, 0int,
{
    match (target, patch) {
        (JsonView::Object(t), JsonView::Object(p)) => {
            proof {
                assert(decreases_to!(patch => patch->Object_0));
            }
            JsonView::Object(merge_fields(t, p, p.len() as int))
        },
        _ => patch,
    }
}

/// Merges a patch into a document.
pub fn merge_json(target: &mut Json, patch: &Json)
    ensures
        final(target)@ == merged(old(target)@, patch@),
    decreases patch@,
{
    let both = match (&*target, patch) {
        (Json::Object(_), Json::Object(_)) => true,
        _ => false,
    };
    if !both {
        *target = patch.copy();
        return;
    }
    if let Json::Object(fields) = patch {
        let ghost p = patch@->Object_0;
        let ghost t = target@->Object_0;
        let mut i: usize = 0;
        while i < fields.len()
            invariant
                i <= fields@.len(),
                patch@ == JsonView::Object(p),
                p.len() == fields@.len(),
                forall|k: int| 0 <= k < p.len() ==> #[trigger] p[k] == (fields@[k].0@, fields@[k].1@),
                target@ == JsonView::Object(merge_fields(t, p, i as int)),
            decreases fields@.len() - i,
        {
            let key = fields[i].0.as_str();
            let mut inner = target.copy_or_null(key);
            proof {
                assert(p[i as int] == (fields@[i as int].0@, fields@[i as int].1@));
                assert(decreases_to!(patch@ => patch@->Object_0));
                assert(decreases_to!(p => p[i as int]));
                assert(decreases_to!(p => p[i as int].1));
            }
            merge_json(&mut inner, &fields[i].1);
            target.set(key, inner);
            i += 1;
        }
    }
}

/// Whether a patch names a field.
pub open spec fn names(patch: Seq<(Seq<char>, JsonView)>, n: int, key: Seq<char>) -> bool {
    exists|i: int| 0 <= i < n && (#[trigger] patch[i]).0 == key
}

proof fn lemma_merge_keeps(target: Seq<(Seq<char>, JsonView)>, patch: Seq<(Seq<char>, JsonView)>, n: int, key: Seq<char>)
    requires
        0 <= n <= patch.len(),
        !names(patch, n, key),
    ensures
        lookup(merge_fields(target, patch, n), key) == lookup(target, key),
    decreases n,
{
    if n > 0 {
        assert(!names(patch, n - 1, key)) by {
            if names(patch, n - 1, key) {
                let i = choose|i: int| 0 <= i < n - 1 && (#[trigger] patch[i]).0 == key;
                assert(patch[i].0 == key);
            }
        }
        lemma_merge_keeps(target, patch, n - 1, key);
        let before = merge_fields(target, patch, n - 1);
        let field = patch[n - 1];
        crate::json::set_field_is_read_back(
            before,
            field.0,
            merged(json_or_null(lookup(before, field.0)), field.1),
            key,
        );
    }
}

/// A merge keeps the fields that the patch does not name.
pub proof fn merge_keeps_other_fields(
    target: Seq<(Seq<char>, JsonView)>,
    patch: Seq<(Seq<char>, JsonView)>,
    key: Seq<char>,
)
    requires
        !names(patch, patch.len() as int, key),
    ensures
        merged(JsonView::Object(target), JsonView::Object(patch)).get(key) == JsonView::Object(target).get(key),
{
    lemma_merge_keeps(target, patch, patch.len() as int, key);
}

proof fn lemma_merge_applies(
    target: Seq<(Seq<char>, JsonView)>,
    patch: Seq<(Seq<char>, JsonView)>,
    at: int,
    n: int,
)
    requires
        0 <= at < n <= patch.len(),
        forall|i: int| 0 <= i < n && i != at ==> (#[trigger] patch[i]).0 != patch[at].0,
    ensures
        lookup(merge_fields(target, patch, n), patch[at].0) == Some(
            merged(json_or_null(lookup(target, patch[at].0)), patch[at].1),
        ),
    decreases n,
{
    let key = patch[at].0;
    let before = merge_fields(target, patch, n - 1);
    let field = patch[n - 1];
    if at == n - 1 {
        lemma_merge_keeps(target, patch, at, key);
    } else {
        lemma_merge_applies(target, patch, at, n - 1);
    }
    crate::json::set_field_is_read_back(before, field.0, merged(json_or_null(lookup(before, field.0)), field.1), key);
}

/// A merge puts every field of a patch in, merged into what is there, where the patch names each
/// field once.
pub proof fn merge_applies_the_patch(target: Seq<(Seq<char>, JsonView)>, patch: Seq<(Seq<char>, JsonView)>, at: int)
    requires
        0 <= at < patch.len(),
        forall|i: int| 0 <= i < patch.len() && i != at ==> (#[trigger] patch[i]).0 != patch[at].0,
    ensures
        merged(JsonView::Object(target), JsonView::Object(patch)).get(patch[at].0) == Some(
            merged(json_or_null(lookup(target, patch[at].0)), patch[at].1),
        ),
{
    lemma_merge_applies(target, patch, at, patch.len() as int);
}

/// Why a browser's state cannot be patched, if it cannot.
pub open spec fn patch_refusal(state: JsonView, patch: JsonView, path: Seq<char>) -> Option<RpcErrorView> {
    if !(patch is Object) {
        Some(rpc_error("INVALID_PARAMS"@, "chromiumLocalStatePatch must be an object"@))
    } else if !(state is Object) {
        Some(rpc_error("PROFILE_INVALID"@, path + " must contain a JSON object"@))
    } else {
        None
    }
}

fn is_object(j: &Json) -> (r: bool)
    ensures
        r == (j@ is Object),
{
    match j {
        Json::Object(_) => true,
        _ => false,
    }
}

/// Patches the state of a browser's profile.
pub fn patch_state(state: Json, patch: &Json, path: &str) -> (r: Result<Json, RpcError>)
    ensures
        match patch_refusal(state@, patch@, path@) {
            Some(e) => fails(r, e),
            None => r matches Ok(j) && j@ == merged(state@, patch@),
        },
{
    if !is_object(patch) {
        return Err(RpcError::new("INVALID_PARAMS", "chromiumLocalStatePatch must be an object"));
    }
    if !is_object(&state) {
        return Err(RpcError::new("PROFILE_INVALID", concat2(path, " must contain a JSON object").as_str()));
    }
    let mut s = state;
    merge_json(&mut s, patch);
    Ok(s)
}

/// Patches the state in a browser's profile: the bytes of its file, where there is one.
pub fn patch_chromium_local_state(existing: &Option<Vec<u8>>, patch: &Json, path: &str) -> (r: Result<Json, RpcError>)
    ensures
        match *existing {
            None => match patch_refusal(JsonView::obj(), patch@, path@) {
                Some(e) => fails(r, e),
                None => r matches Ok(j) && j@ == merged(JsonView::obj(), patch@),
            },
            Some(bytes) => if !(patch@ is Object) {
                fails(r, rpc_error("INVALID_PARAMS"@, "chromiumLocalStatePatch must be an object"@))
            } else {
                match json_parse(bytes@) {
                    Ok(state) => match patch_refusal(state, patch@, path@) {
                        Some(e) => fails(r, e),
                        None => r matches Ok(j) && j@ == merged(state, patch@),
                    },
                    Err(m) => fails(r, rpc_error("PROFILE_INVALID"@, "cannot parse "@ + path@ + ": "@ + m)),
                }
            },
        },
{
    if !is_object(patch) {
        return Err(RpcError::new("INVALID_PARAMS", "chromiumLocalStatePatch must be an object"));
    }
    let state = match existing {
        Some(bytes) => match decode(bytes.as_slice()) {
            Ok(j) => j,
            Err(m) => {
                return Err(
                    RpcError::new("PROFILE_INVALID", concat4("cannot parse ", path, ": ", m.as_str()).as_str()),
                );
            },
        },
        None => Json::obj(),
    };
    patch_state(state, patch, path)
}

/// The application that an executable belongs to: the outermost bundle around it.
pub open spec fn outer_root(path: Seq<char>) -> Option<Seq<char>> {
    match find_from(path, ".app/"@, 0) {
        Some(i) => Some(path.take(i + 4)),
        None => None,
    }
}

/// The application that an executable belongs to: the outermost bundle around it.
pub fn outer_application_root(executable: &str) -> (r: Option<String>)
    ensures
        opt_text(r) == outer_root(executable@),
{
    proof {
        reveal_strlit(".app/");
        lemma_find_from(executable@, ".app/"@, 0);
    }
    match find(executable, ".app/") {
        Some(i) => {
            let n = executable.unicode_len();
            let s = executable.substring_char(0, i + 4).to_owned();
            assert(s@ =~= executable@.take(i + 4));
            Some(s)
        },
        None => None,
    }
}

/// What is known of a path: the file it leads to, or the identifier of the application it is.
#[derive(Debug)]
pub struct PathFact {
    pub path: String,
    pub value: String,
}

impl Keyed for PathFact {
    open spec fn key_view(&self) -> Seq<char> {
        self.path@
    }

    fn key(&self) -> (r: &str) {
        self.path.as_str()
    }
}

/// What is known of a path.
pub open spec fn fact(facts: Seq<PathFact>, path: Seq<char>) -> Option<Seq<char>> {
    match find_in(facts, path) {
        Some(f) => Some(f.value@),
        None => None,
    }
}

fn known<'a>(facts: &'a Vec<PathFact>, path: &str) -> (r: Option<&'a str>)
    ensures
        (match r {
            Some(s) => Some(s@),
            None => None,
        }) == fact(facts@, path@),
{
    match crate::table::lookup(facts, path) {
        Some(f) => Some(f.value.as_str()),
        None => None,
    }
}

/// Whether two paths are the same, part by part.
pub open spec fn same_path(a: Seq<char>, b: Seq<char>) -> bool {
    within(a, b) && within(b, a)
}

/// Whether two paths are the same application: the same path, or two that lead to the same file.
pub open spec fn same_root(canonical: Seq<PathFact>, a: Seq<char>, b: Seq<char>) -> bool {
    same_path(a, b) || (fact(canonical, a) is Some && fact(canonical, b) is Some && same_path(
        fact(canonical, a)->0,
        fact(canonical, b)->0,
    ))
}

/// Whether two paths are the same application, `canonical` holding where paths lead to: a bundle may
/// be launched through a link to it, and addressed by its own path later.
pub fn same_application_root(canonical: &Vec<PathFact>, left: &str, right: &str) -> (r: bool)
    ensures
        r == same_root(canonical@, left@, right@),
{
    if path_within(left, right) && path_within(right, left) {
        return true;
    }
    match (known(canonical, left), known(canonical, right)) {
        (Some(a), Some(b)) => path_within(a, b) && path_within(b, a),
        _ => false,
    }
}

/// Whether an application is one of some.
pub open spec fn is_selected(canonical: Seq<PathFact>, roots: Seq<Seq<char>>, root: Seq<char>) -> bool {
    exists|i: int| 0 <= i < roots.len() && same_root(canonical, #[trigger] roots[i], root)
}

fn selected(canonical: &Vec<PathFact>, roots: &Vec<String>, root: &str) -> (r: bool)
    ensures
        r == is_selected(canonical@, views(roots@), root@),
{
    let ghost all = views(roots@);
    let mut i: usize = 0;
    while i < roots.len()
        invariant
            i <= roots@.len(),
            all == views(roots@),
            forall|k: int| 0 <= k < i ==> !same_root(canonical@, #[trigger] all[k], root@),
        decreases roots@.len() - i,
    {
        assert(all[i as int] == roots@[i as int]@);
        if same_application_root(canonical, roots[i].as_str(), root) {
            assert(all.len() == roots@.len());
            return true;
        }
        i += 1;
    }
    false
}

/// The text of a field, or the empty text.
pub open spec fn text_field(j: JsonView, key: Seq<char>) -> Seq<char> {
    match j.get_str(key) {
        Some(s) => s,
        None => Seq::empty(),
    }
}

fn field_text<'a>(j: &'a Json, key: &str) -> (r: &'a str)
    ensures
        r@ == text_field(j@, key@),
{
    proof {
        reveal_strlit("");
        assert(""@ =~= Seq::<char>::empty());
    }
    match j.get_str(key) {
        Some(s) => s,
        None => "",
    }
}

/// How processes are chosen: those of some applications, and where it is asked for those of a
/// repair helper of any application with the same identifier.
#[derive(Debug)]
pub struct Choice {
    pub roots: Vec<String>,
    pub canonical: Vec<PathFact>,
    pub identifiers: Vec<PathFact>,
    pub include_orphan_repair: bool,
    pub bundle_identifier: String,
}

/// Whether a process is chosen.
pub open spec fn is_chosen(c: Choice, command: Seq<char>) -> bool {
    outer_root(command) matches Some(root) && (is_selected(c.canonical@, views(c.roots@), root) || (
    c.include_orphan_repair && has_text(command, "Browser Helper (Repair).app/Contents/MacOS/"@) && fact(
        c.identifiers@,
        root,
    ) == Some(c.bundle_identifier@)))
}

/// What is told of a process that is chosen.
pub open spec fn chosen_view(c: Choice, p: JsonView) -> JsonView {
    let command = text_field(p, "command"@);
    JsonView::obj().plus("applicationRoot"@, JsonView::Text(outer_root(command)->0)).plus(
        "bundleIdentifier"@,
        JsonView::Text(c.bundle_identifier@),
    ).plus("command"@, JsonView::Text(command)).plus("pid"@, JsonView::Unsigned(p.u64_or("pid"@, 0)))
}

/// What is told of those of the first `n` processes that are chosen.
pub open spec fn chosen_rows(c: Choice, processes: Seq<JsonView>, n: int) -> Seq<JsonView>
    decreases n,
{
    if n <= 0 {
        Seq::empty()
    } else if is_chosen(c, text_field(processes[n - 1], "command"@)) {
        chosen_rows(c, processes, n - 1).push(chosen_view(c, processes[n - 1]))
    } else {
        chosen_rows(c, processes, n - 1)
    }
}

/// Chooses processes from a list of all.
pub fn processes_for_snapshot_roots(processes: &Vec<Json>, c: &Choice) -> (r: Vec<Json>)
    ensures
        json_views(r@) == chosen_rows(*c, json_views(processes@), processes@.len() as int),
{
    let ghost all = json_views(processes@);
    let mut out: Vec<Json> = Vec::new();
    let mut i: usize = 0;
    proof {
        assert(json_views(out@) =~= Seq::empty());
    }
    while i < processes.len()
        invariant
            i <= processes@.len(),
            all == json_views(processes@),
            json_views(out@) == chosen_rows(*c, all, i as int),
        decreases processes@.len() - i,
    {
        let p = &processes[i];
        assert(all[i as int] == p@);
        let command = field_text(p, "command");
        if let Some(root) = outer_application_root(command) {
            let orphan = c.include_orphan_repair && contains(command, "Browser Helper (Repair).app/Contents/MacOS/")
                && match known(&c.identifiers, root.as_str()) {
                Some(id) => str_eq(id, c.bundle_identifier.as_str()),
                None => false,
            };
            if selected(&c.canonical, &c.roots, root.as_str()) || orphan {
                let ghost before = out@;
                let row = Json::obj().plus("applicationRoot", Json::Text(root)).plus(
                    "bundleIdentifier",
                    Json::text(c.bundle_identifier.as_str()),
                ).plus("command", Json::text(command)).plus("pid", Json::Unsigned(p.u64_or("pid", 0)));
                out.push(row);
                proof {
                    assert(json_views(out@) =~= json_views(before).push(row@));
                }
            }
        }
        i += 1;
    }
    out
}

/// A process that belongs to no chosen application is not touched: every process that comes out
/// is one of those that were chosen from.
pub proof fn only_chosen_processes_come_out(c: Choice, processes: Seq<JsonView>, n: int, k: int)
    requires
        0 <= n <= processes.len(),
        0 <= k < chosen_rows(c, processes, n).len(),
    ensures
        exists|i: int|
            0 <= i < n && is_chosen(c, text_field(#[trigger] processes[i], "command"@)) && chosen_rows(
                c,
                processes,
                n,
            )[k] == chosen_view(c, processes[i]),
    decreases n,
{
    if n > 0 {
        let before = chosen_rows(c, processes, n - 1);
        if k < before.len() {
            only_chosen_processes_come_out(c, processes, n - 1, k);
            let i = choose|i: int|
                0 <= i < n - 1 && is_chosen(c, text_field(#[trigger] processes[i], "command"@)) && before[k]
                    == chosen_view(c, processes[i]);
            assert(is_chosen(c, text_field(processes[i], "command"@)));
        } else {
            assert(is_chosen(c, text_field(processes[n - 1], "command"@)));
        }
    }
}

/// Whether a path is among some, part by part.
pub open spec fn has_path(paths: Seq<Seq<char>>, path: Seq<char>) -> bool {
    exists|i: int| 0 <= i < paths.len() && same_path(#[trigger] paths[i], path)
}

fn list_has_path(paths: &Vec<String>, path: &str) -> (r: bool)
    ensures
        r == has_path(views(paths@), path@),
{
    let ghost all = views(paths@);
    let mut i: usize = 0;
    while i < paths.len()
        invariant
            i <= paths@.len(),
            all == views(paths@),
            forall|k: int| 0 <= k < i ==> !same_path(#[trigger] all[k], path@),
        decreases paths@.len() - i,
    {
        assert(all[i as int] == paths@[i as int]@);
        if path_within(paths[i].as_str(), path) && path_within(path, paths[i].as_str()) {
            assert(all.len() == paths@.len());
            return true;
        }
        i += 1;
    }
    false
}

/// The applications whose processes stand in the way of a launch, by the first `n` processes: the
/// one that is launched, and any other with its identifier that has a process left.
pub open spec fn conflict_roots_view(
    processes: Seq<JsonView>,
    n: int,
    target: Seq<char>,
    identifiers: Seq<PathFact>,
    identifier: Seq<char>,
) -> Seq<Seq<char>>
    decreases n,
{
    if n <= 0 {
        seq![target]
    } else {
        let before = conflict_roots_view(processes, n - 1, target, identifiers, identifier);
        match outer_root(text_field(processes[n - 1], "command"@)) {
            Some(root) => if fact(identifiers, root) == Some(identifier) && !has_path(before, root) {
                before.push(root)
            } else {
                before
            },
            None => before,
        }
    }
}

/// The applications whose processes stand in the way of a launch. An application may leave its work
/// to a helper and end; any helper that is left counts.
pub fn conflict_roots(processes: &Vec<Json>, expected: &str, identifiers: &Vec<PathFact>, identifier: &str) -> (r: Result<
    Vec<String>,
    RpcError,
>)
    ensures
        match outer_root(expected@) {
            None => fails(r, rpc_error("APPLICATION_INVALID"@, "executable is outside an app"@)),
            Some(target) => r matches Ok(roots) && views(roots@) == conflict_roots_view(
                json_views(processes@),
                processes@.len() as int,
                target,
                identifiers@,
                identifier@,
            ),
        },
{
    let target = match outer_application_root(expected) {
        Some(t) => t,
        None => return Err(RpcError::new("APPLICATION_INVALID", "executable is outside an app")),
    };
    let ghost all = json_views(processes@);
    let ghost first = target@;
    let mut roots: Vec<String> = Vec::new();
    roots.push(target);
    proof {
        assert(views(roots@) =~= seq![first]);
    }
    let mut i: usize = 0;
    while i < processes.len()
        invariant
            i <= processes@.len(),
            all == json_views(processes@),
            views(roots@) == conflict_roots_view(all, i as int, first, identifiers@, identifier@),
        decreases processes@.len() - i,
    {
        assert(all[i as int] == processes@[i as int]@);
        if let Some(root) = outer_application_root(field_text(&processes[i], "command")) {
            let same = match known(identifiers, root.as_str()) {
                Some(id) => str_eq(id, identifier),
                None => false,
            };
            if same && !list_has_path(&roots, root.as_str()) {
                let ghost before = roots@;
                let ghost added = root@;
                roots.push(root);
                proof {
                    assert(views(roots@) =~= views(before).push(added));
                }
            }
        }
        i += 1;
    }
    Ok(roots)
}

/// The position of the first white space from a position, or the end.
pub open spec fn white_from(s: Seq<char>, from: int) -> int
    decreases s.len() - from,
{
    if from < 0 || from >= s.len() || is_white(s[from]) {
        from
    } else {
        white_from(s, from + 1)
    }
}

/// The process that a line of `ps` tells of: its number and its command.
pub open spec fn process_line(line: Seq<char>) -> Option<JsonView> {
    let t = trim_view(line);
    let i = white_from(t, 0);
    if i >= t.len() {
        None
    } else {
        match parse_u64_view(t.take(i)) {
            Some(pid) => Some(
                JsonView::obj().plus("command"@, JsonView::Text(trim_view(t.skip(i + 1)))).plus(
                    "pid"@,
                    JsonView::Unsigned(pid),
                ),
            ),
            None => None,
        }
    }
}

/// The processes that the first `n` lines tell of.
pub open spec fn process_lines(lines: Seq<Seq<char>>, n: int) -> Seq<JsonView>
    decreases n,
{
    if n <= 0 {
        Seq::empty()
    } else {
        match process_line(lines[n - 1]) {
            Some(p) => process_lines(lines, n - 1).push(p),
            None => process_lines(lines, n - 1),
        }
    }
}

fn read_process_line(line: &str) -> (r: Option<Json>)
    ensures
        (match r {
            Some(j) => Some(j@),
            None => None,
        }) == process_line(line@),
{
    let t = trim(line);
    let n = t.as_str().unicode_len();
    let mut i: usize = 0;
    while i < n && !is_whitespace(t.as_str().get_char(i))
        invariant
            i <= n,
            n == t@.len(),
            white_from(t@, 0) == white_from(t@, i as int),
        decreases n - i,
    {
        i += 1;
    }
    if i >= n {
        return None;
    }
    let head = t.as_str().substring_char(0, i);
    let rest = t.as_str().substring_char(i + 1, n);
    proof {
        assert(head@ =~= t@.take(i as int));
        assert(rest@ =~= t@.skip(i + 1));
    }
    match parse_u64(head) {
        Some(pid) => Some(Json::obj().plus("command", Json::Text(trim(rest))).plus("pid", Json::Unsigned(pid))),
        None => None,
    }
}

/// The processes that the output of `ps` tells of, each with its number and its command. Lines that
/// tell of none are passed over.
pub fn process_snapshot(output: &str) -> (r: Vec<Json>)
    ensures
        json_views(r@) == process_lines(lines_view(output@), lines_view(output@).len() as int),
{
    let all = lines(output);
    let ghost texts = views(all@);
    let mut out: Vec<Json> = Vec::new();
    let mut i: usize = 0;
    proof {
        assert(json_views(out@) =~= Seq::empty());
        assert(texts.len() == all@.len());
    }
    while i < all.len()
        invariant
            i <= all@.len(),
            texts == views(all@),
            texts == lines_view(output@),
            json_views(out@) == process_lines(texts, i as int),
        decreases all@.len() - i,
    {
        assert(texts[i as int] == all@[i as int]@);
        if let Some(p) = read_process_line(all[i].as_str()) {
            let ghost before = out@;
            let ghost added = p@;
            out.push(p);
            proof {
                assert(json_views(out@) =~= json_views(before).push(added));
            }
        }
        i += 1;
    }
    out
}

/// Whether a process is that of an executable itself.
pub open spec fn runs(p: JsonView, executable: Seq<char>) -> bool {
    p.get_str("command"@) == Some(executable) && p.get_u64("pid"@) is Some
}

/// The number of the first process of an executable, from a position.
pub open spec fn pid_from(processes: Seq<JsonView>, executable: Seq<char>, from: int) -> Option<u64>
    decreases processes.len() - from,
{
    if from < 0 || from >= processes.len() {
        None
    } else if runs(processes[from], executable) {
        processes[from].get_u64("pid"@)
    } else {
        pid_from(processes, executable, from + 1)
    }
}

/// The number of the first process of an executable; its helpers do not count.
pub fn select_application_pid(processes: &Vec<Json>, executable: &str) -> (r: Option<u64>)
    ensures
        r == pid_from(json_views(processes@), executable@, 0),
{
    let ghost all = json_views(processes@);
    let mut i: usize = 0;
    while i < processes.len()
        invariant
            i <= processes@.len(),
            all == json_views(processes@),
            pid_from(all, executable@, 0) == pid_from(all, executable@, i as int),
        decreases processes@.len() - i,
    {
        assert(all[i as int] == processes@[i as int]@);
        let same = match processes[i].get_str("command") {
            Some(c) => str_eq(c, executable),
            None => false,
        };
        if same {
            if let Some(pid) = processes[i].get_u64("pid") {
                return Some(pid);
            }
        }
        i += 1;
    }
    None
}

/// The applications that may stand in the way are the target and those among the running ones that
/// have its identifier, and none is named twice.
pub proof fn conflicts_are_the_target_and_its_likes(
    processes: Seq<JsonView>,
    n: int,
    target: Seq<char>,
    identifiers: Seq<PathFact>,
    identifier: Seq<char>,
    i: int,
    k: int,
)
    requires
        0 <= n <= processes.len(),
        0 <= i < conflict_roots_view(processes, n, target, identifiers, identifier).len(),
    ensures
        ({
            let roots = conflict_roots_view(processes, n, target, identifiers, identifier);
            &&& roots[0] == target
            &&& i > 0 ==> fact(identifiers, roots[i]) == Some(identifier)
            &&& 0 <= k < i ==> !same_path(roots[k], roots[i])
        }),
    decreases n,
{
    if n > 0 {
        let before = conflict_roots_view(processes, n - 1, target, identifiers, identifier);
        lemma_roots_hold_the_target(processes, n - 1, target, identifiers, identifier);
        if i < before.len() {
            conflicts_are_the_target_and_its_likes(processes, n - 1, target, identifiers, identifier, i, k);
        } else if 0 <= k < i {
            assert(same_path(before[k], outer_root(text_field(processes[n - 1], "command"@))->0) == same_path(
                conflict_roots_view(processes, n, target, identifiers, identifier)[k],
                conflict_roots_view(processes, n, target, identifiers, identifier)[i],
            ));
        }
    }
}

/// The target comes first among what may stand in the way.
proof fn lemma_roots_hold_the_target(
    processes: Seq<JsonView>,
    n: int,
    target: Seq<char>,
    identifiers: Seq<PathFact>,
    identifier: Seq<char>,
)
    ensures
        conflict_roots_view(processes, n, target, identifiers, identifier).len() > 0,
        conflict_roots_view(processes, n, target, identifiers, identifier)[0] == target,
    decreases n,
{
    if n > 0 {
        lemma_roots_hold_the_target(processes, n - 1, target, identifiers, identifier);
    }
}

/// The process of an executable is the first one that runs it.
pub proof fn first_process_is_found(processes: Seq<JsonView>, executable: Seq<char>, from: int)
    requires
        0 <= from <= processes.len(),
    ensures
        pid_from(processes, executable, from) matches Some(pid) ==> exists|i: int|
            from <= i < processes.len() && (#[trigger] processes[i]).get_u64("pid"@) == Some(pid) && processes[i].get_str(
                "command"@,
            ) == Some(executable),
        pid_from(processes, executable, from) is None ==> forall|i: int|
            from <= i < processes.len() && (#[trigger] processes[i]).get_u64("pid"@) is Some ==> processes[i].get_str(
                "command"@,
            ) != Some(executable),
    decreases processes.len() - from,
{
    if from < processes.len() && !runs(processes[from], executable) {
        first_process_is_found(processes, executable, from + 1);
    } else if from < processes.len() {
        assert(processes[from].get_u64("pid"@) is Some);
    }
}

} // verus!
