//! Applications on Windows: where their executables and packages are, and how they are started.

use crate::json::{json_or_null, json_views, text_or_null, Json, JsonView};
use crate::launch::texts;
use crate::paths::{join, join_view};
use crate::rpc::{fails, rpc_error, RpcError};
use crate::table::has_name;
use crate::task::opt_text;
use crate::text::{
    clone_list, concat2, concat3, decimal, eq_ignore_case, lower_view, replace, replace_view, str_eq, u64_text, views,
};
use vstd::prelude::*;

verus! {

/// Something in a directory.
#[derive(Debug)]
pub struct Entry {
    pub path: String,
    pub name: String,
    pub is_dir: bool,
}

/// A search for a directory of a name, anywhere below another.
#[derive(Debug)]
pub struct DirectorySearch {
    pub name: String,
    pub pending: Vec<String>,
}

/// The first directory of a name in a list, from a position.
pub open spec fn named_dir(entries: Seq<Entry>, name: Seq<char>, from: int) -> Option<int>
    decreases entries.len() - from,
{
    if from < 0 || from >= entries.len() {
        None
    } else if entries[from].is_dir && entries[from].name@ == name {
        Some(from)
    } else {
        named_dir(entries, name, from + 1)
    }
}

/// The paths of the directories among the first `n` of a list.
pub open spec fn dirs(entries: Seq<Entry>, n: int) -> Seq<Seq<char>>
    decreases n,
{
    if n <= 0 {
        Seq::empty()
    } else if entries[n - 1].is_dir {
        dirs(entries, n - 1).push(entries[n - 1].path@)
    } else {
        dirs(entries, n - 1)
    }
}

impl DirectorySearch {
    /// A search for a directory of a name below a root.
    pub fn new(root: &str, name: &str) -> (r: DirectorySearch)
        ensures
            r.name@ == name@,
            views(r.pending@) == seq![root@],
    {
        let mut pending: Vec<String> = Vec::new();
        pending.push(root.to_owned());
        assert(views(pending@) =~= seq![root@]);
        DirectorySearch { name: name.to_owned(), pending }
    }

    /// The directory that is looked into next.
    pub fn next(&mut self) -> (r: Option<String>)
        ensures
            final(self).name == old(self).name,
            if old(self).pending@.len() == 0 {
                r is None && final(self).pending@ == old(self).pending@
            } else {
                r == Some(old(self).pending@.last()) && final(self).pending@ == old(self).pending@.drop_last()
            },
    {
        let next = self.pending.pop();
        next
    }

    /// Takes note of what a directory holds: the directory that is searched for, or else more
    /// directories to look into.
    pub fn take(&mut self, entries: &Vec<Entry>) -> (r: Option<String>)
        ensures
            final(self).name == old(self).name,
            match named_dir(entries@, old(self).name@, 0) {
                Some(i) => r matches Some(p) && p@ == entries@[i].path@,
                None => r is None && views(final(self).pending@) == views(old(self).pending@) + dirs(
                    entries@,
                    entries@.len() as int,
                ),
            },
    {
        let ghost before = views(self.pending@);
        let ghost name = self.name@;
        let mut i: usize = 0;
        proof {
            assert(views(self.pending@) =~= before + dirs(entries@, 0));
        }
        while i < entries.len()
            invariant
                i <= entries@.len(),
                self.name@ == name,
                self.name == old(self).name,
                name == old(self).name@,
                named_dir(entries@, name, 0) == named_dir(entries@, name, i as int),
                views(self.pending@) == before + dirs(entries@, i as int),
            decreases entries@.len() - i,
        {
            if entries[i].is_dir {
                if str_eq(entries[i].name.as_str(), self.name.as_str()) {
                    return Some(entries[i].path.clone());
                }
                let ghost held = self.pending@;
                let path = entries[i].path.clone();
                self.pending.push(path);
                proof {
                    assert(views(self.pending@) =~= views(held).push(path@));
                    assert(views(self.pending@) =~= before + dirs(entries@, i + 1));
                }
            }
            i += 1;
        }
        None
    }
}

/// The position of the last dot of a text before a position.
pub open spec fn last_dot(s: Seq<char>, to: int) -> Option<int>
    decreases to,
{
    if to <= 0 {
        None
    } else if s[to - 1] == '.' {
        Some(to - 1)
    } else {
        last_dot(s, to - 1)
    }
}

/// Whether a file is an executable, by its name.
pub open spec fn is_exe(name: Seq<char>) -> bool {
    match last_dot(name, name.len() as int) {
        Some(i) => i > 0 && lower_view(name.skip(i + 1)) == lower_view("exe"@),
        None => false,
    }
}

/// Whether a file is an executable, by the letters behind the last dot of its name.
pub fn has_exe_extension(name: &str) -> (r: bool)
    ensures
        r == is_exe(name@),
{
    let n = name.unicode_len();
    let mut i: usize = n;
    while i > 0
        invariant
            i <= n,
            n == name@.len(),
            last_dot(name@, n as int) == last_dot(name@, i as int),
        decreases i,
    {
        if name.get_char(i - 1) == '.' {
            let rest = name.substring_char(i, n);
            assert(rest@ =~= name@.skip(i as int));
            return i > 1 && eq_ignore_case(rest, "exe");
        }
        i -= 1;
    }
    false
}

/// Whether a search for an executable looks into a directory, so many levels below its root.
pub fn looks_into(depth: u8) -> (r: bool)
    ensures
        r == (depth <= 3),
{
    depth <= 3
}

/// Whether a character parts the names of a path.
pub open spec fn is_slash(c: char) -> bool {
    c == '/' || c == '\\'
}

/// How many names the first `n` characters of a path hold.
pub open spec fn name_count(path: Seq<char>, n: int) -> nat
    decreases n,
{
    if n <= 0 {
        0
    } else if !is_slash(path[n - 1]) && (n == 1 || is_slash(path[n - 2])) {
        name_count(path, n - 1) + 1
    } else {
        name_count(path, n - 1)
    }
}

fn count_names(path: &str) -> (r: usize)
    ensures
        r == name_count(path@, path@.len() as int),
{
    let n = path.unicode_len();
    let mut count: usize = 0;
    let mut inside = false;
    let mut i: usize = 0;
    while i < n
        invariant
            i <= n,
            n == path@.len(),
            count <= i,
            count == name_count(path@, i as int),
            inside == (i > 0 && !is_slash(path@[i - 1])),
        decreases n - i,
    {
        let c = path.get_char(i);
        if c == '/' || c == '\\' {
            inside = false;
        } else {
            if !inside {
                count += 1;
            }
            inside = true;
        }
        i += 1;
    }
    count
}

/// Whether an executable is preferred to another: it lies higher up, or as high under a shorter path.
pub open spec fn preferred(a: Seq<char>, b: Seq<char>) -> bool {
    let x = name_count(a, a.len() as int);
    let y = name_count(b, b.len() as int);
    x < y || (x == y && vstd::utf8::encode_utf8(a).len() < vstd::utf8::encode_utf8(b).len())
}

/// The first of the first `n` candidates that no other is preferred to.
pub open spec fn best_of(candidates: Seq<Seq<char>>, n: int) -> Option<int>
    decreases n,
{
    if n <= 0 {
        None
    } else {
        match best_of(candidates, n - 1) {
            Some(k) => if preferred(candidates[n - 1], candidates[k]) {
                Some(n - 1)
            } else {
                Some(k)
            },
            None => Some(n - 1),
        }
    }
}

/// The executable of an application, among those that were found: the one that lies highest, under
/// the shortest path.
pub fn choose_executable(candidates: &Vec<String>) -> (r: Option<usize>)
    ensures
        match r {
            Some(k) => k < candidates@.len() && best_of(views(candidates@), candidates@.len() as int) == Some(k as int),
            None => candidates@.len() == 0,
        },
{
    let ghost all = views(candidates@);
    let mut best: Option<usize> = None;
    let mut i: usize = 0;
    while i < candidates.len()
        invariant
            i <= candidates@.len(),
            all == views(candidates@),
            match best {
                Some(k) => k < i && best_of(all, i as int) == Some(k as int),
                None => i == 0,
            },
        decreases candidates@.len() - i,
    {
        assert(all[i as int] == candidates@[i as int]@);
        match best {
            Some(k) => {
                assert(all[k as int] == candidates@[k as int]@);
                let x = count_names(candidates[i].as_str());
                let y = count_names(candidates[k].as_str());
                if x < y || (x == y && candidates[i].as_str().as_bytes().len() < candidates[k].as_str().as_bytes().len()) {
                    best = Some(i);
                }
            },
            None => {
                best = Some(i);
            },
        }
        i += 1;
    }
    best
}

/// No executable is preferred to the one that is chosen.
pub proof fn chosen_executable_is_best(candidates: Seq<Seq<char>>, n: int, i: int)
    requires
        0 <= i < n <= candidates.len(),
    ensures
        best_of(candidates, n) matches Some(k) && 0 <= k < n && !preferred(candidates[i], candidates[k]),
    decreases n,
{
    reveal_with_fuel(best_of, 2);
    if n > 1 {
        chosen_executable_is_best(
            candidates,
            n - 1,
            if i < n - 1 {
                i
            } else {
                0
            },
        );
    }
}

/// The package of an application: the first of the places for it that is a file.
pub open spec fn package_view(root: Seq<char>, files: Seq<String>) -> Option<Seq<char>> {
    if has_name(files, join_view(root, "resources/app/package.json"@)) {
        Some(join_view(root, "resources/app/package.json"@))
    } else if has_name(files, join_view(root, "resources/package.json"@)) {
        Some(join_view(root, "resources/package.json"@))
    } else if has_name(files, join_view(root, "package.json"@)) {
        Some(join_view(root, "package.json"@))
    } else {
        None
    }
}

/// The places where an application's package may be.
pub fn package_candidates(root: &str) -> (r: Vec<String>)
    ensures
        views(r@) == seq![
            join_view(root@, "resources/app/package.json"@),
            join_view(root@, "resources/package.json"@),
            join_view(root@, "package.json"@),
        ],
{
    let mut out: Vec<String> = Vec::new();
    out.push(join(root, "resources/app/package.json"));
    out.push(join(root, "resources/package.json"));
    out.push(join(root, "package.json"));
    assert(views(out@) =~= seq![
        join_view(root@, "resources/app/package.json"@),
        join_view(root@, "resources/package.json"@),
        join_view(root@, "package.json"@),
    ]);
    out
}

/// The package of an application: the first of the places for it that is among the files.
pub fn find_package(root: &str, files: &Vec<String>) -> (r: Option<String>)
    ensures
        opt_text(r) == package_view(root@, files@),
{
    let a = join(root, "resources/app/package.json");
    if crate::table::position(files, a.as_str()).is_some() {
        return Some(a);
    }
    let b = join(root, "resources/package.json");
    if crate::table::position(files, b.as_str()).is_some() {
        return Some(b);
    }
    let c = join(root, "package.json");
    if crate::table::position(files, c.as_str()).is_some() {
        return Some(c);
    }
    None
}

/// The identifier that a package gives.
pub open spec fn identifier_view(package: JsonView) -> Option<JsonView> {
    match package.get("build"@) {
        Some(b) => match b.get("appId"@) {
            Some(v) => Some(v),
            None => package.get("appId"@),
        },
        None => package.get("appId"@),
    }
}

/// The identifier that a package gives, for its build or else for itself.
pub fn package_identifier(package: &Json) -> (r: Option<Json>)
    ensures
        crate::json::opt_json(r) == identifier_view(package@),
{
    if let Some(b) = package.get("build") {
        if let Some(v) = b.get("appId") {
            return Some(v.copy());
        }
    }
    package.copy_field("appId")
}

/// A text without the dots at its start.
pub open spec fn undotted(s: Seq<char>) -> Seq<char>
    decreases s.len(),
{
    if s.len() > 0 && s[0] == '.' {
        undotted(s.skip(1))
    } else {
        s
    }
}

fn strip_dots(s: &str) -> (r: String)
    ensures
        r@ == undotted(s@),
{
    let n = s.unicode_len();
    let mut i: usize = 0;
    proof {
        assert(s@.skip(0) =~= s@);
    }
    while i < n && s.get_char(i) == '.'
        invariant
            i <= n,
            n == s@.len(),
            undotted(s@) == undotted(s@.skip(i as int)),
        decreases n - i,
    {
        assert(s@.skip(i as int).skip(1) =~= s@.skip(i + 1));
        i += 1;
    }
    let r = s.substring_char(i, n).to_owned();
    assert(r@ =~= s@.skip(i as int));
    r
}

/// The extensions among the first `n` documents.
pub open spec fn extensions_of(items: Seq<JsonView>, n: int) -> Seq<JsonView>
    decreases n,
{
    if n <= 0 {
        Seq::empty()
    } else {
        match items[n - 1].as_str() {
            Some(s) => extensions_of(items, n - 1).push(JsonView::Text(undotted(s))),
            None => extensions_of(items, n - 1),
        }
    }
}

/// The extensions that an association names: one, or a list of them.
pub open spec fn extensions_view(ext: JsonView) -> Seq<JsonView> {
    match ext {
        JsonView::Text(s) => seq![JsonView::Text(undotted(s))],
        JsonView::Array(items) => extensions_of(items, items.len() as int),
        _ => Seq::empty(),
    }
}

/// The kind of document that an association stands for.
pub open spec fn document_type(ext: JsonView) -> JsonView {
    JsonView::obj().plus("CFBundleTypeExtensions"@, JsonView::Array(extensions_view(ext))).plus(
        "LSItemContentTypes"@,
        JsonView::Array(Seq::empty()),
    )
}

/// The kinds of documents that the first `n` associations stand for.
pub open spec fn document_types_of(items: Seq<JsonView>, n: int) -> Seq<JsonView>
    decreases n,
{
    if n <= 0 {
        Seq::empty()
    } else {
        match items[n - 1].get("ext"@) {
            Some(ext) => document_types_of(items, n - 1).push(document_type(ext)),
            None => document_types_of(items, n - 1),
        }
    }
}

/// The kinds of documents that a package is for.
pub open spec fn document_types_view(package: JsonView) -> Seq<JsonView> {
    match package.get("build"@) {
        Some(b) => match b.get_array("fileAssociations"@) {
            Some(items) => document_types_of(items, items.len() as int),
            None => Seq::empty(),
        },
        None => Seq::empty(),
    }
}

fn extensions(ext: &Json) -> (r: Vec<Json>)
    ensures
        json_views(r@) == extensions_view(ext@),
{
    let mut out: Vec<Json> = Vec::new();
    proof {
        assert(json_views(out@) =~= Seq::empty());
    }
    if let Some(s) = ext.as_str() {
        out.push(Json::Text(strip_dots(s)));
        assert(json_views(out@) =~= extensions_view(ext@));
        return out;
    }
    if let Some(items) = ext.as_array() {
        let ghost all = json_views(items@);
        let mut i: usize = 0;
        while i < items.len()
            invariant
                i <= items@.len(),
                all == json_views(items@),
                json_views(out@) == extensions_of(all, i as int),
            decreases items@.len() - i,
        {
            assert(all[i as int] == items@[i as int]@);
            if let Some(s) = items[i].as_str() {
                let ghost before = out@;
                let t = Json::Text(strip_dots(s));
                out.push(t);
                proof {
                    assert(json_views(out@) =~= json_views(before).push(t@));
                }
            }
            i += 1;
        }
    }
    out
}

/// The kinds of documents that a package is for, by the extensions of their files.
pub fn package_document_types(package: &Json) -> (r: Vec<Json>)
    ensures
        json_views(r@) == document_types_view(package@),
{
    let mut out: Vec<Json> = Vec::new();
    proof {
        assert(json_views(out@) =~= Seq::empty());
    }
    if let Some(b) = package.get("build") {
        if let Some(items) = b.get_array("fileAssociations") {
            let ghost all = json_views(items@);
            let mut i: usize = 0;
            while i < items.len()
                invariant
                    i <= items@.len(),
                    all == json_views(items@),
                    json_views(out@) == document_types_of(all, i as int),
                decreases items@.len() - i,
            {
                assert(all[i as int] == items@[i as int]@);
                if let Some(ext) = items[i].get("ext") {
                    let ghost before = out@;
                    let none: Vec<Json> = Vec::new();
                    assert(json_views(none@) =~= Seq::empty());
                    let row = Json::obj().plus("CFBundleTypeExtensions", Json::array(extensions(ext))).plus(
                        "LSItemContentTypes",
                        Json::array(none),
                    );
                    out.push(row);
                    proof {
                        assert(json_views(out@) =~= json_views(before).push(row@));
                    }
                }
                i += 1;
            }
        }
    }
    out
}

/// The version of an application: that of its package, or else that of its executable.
pub open spec fn version_view(package: Option<JsonView>, native: JsonView) -> JsonView {
    match json_or_null(package).get("version"@) {
        Some(v) => v,
        None => native.get_or_null("productVersion"@),
    }
}

/// What is told of an application, by its package and by what its executable says.
pub fn inspection(path: &str, executable: &str, package: &Option<Json>, native: &Json, local: &Option<String>) -> (r: Json)
    ensures
        ({
            let p = crate::json::opt_json(*package);
            r@ == JsonView::obj().plus("build"@, native@.get_or_null("fileVersion"@)).plus(
                "bundleIdentifier"@,
                json_or_null(identifier_view(json_or_null(p))),
            ).plus("documentTypes"@, JsonView::Array(document_types_view(json_or_null(p)))).plus(
                "executablePath"@,
                JsonView::Text(executable@),
            ).plus("localWebcontents"@, text_or_null(opt_text(*local))).plus("path"@, JsonView::Text(path@)).plus(
                "signature"@,
                JsonView::obj().plus("valid"@, JsonView::Bool(native@.get_bool("signatureValid"@) == Some(true))),
            ).plus("version"@, version_view(p, native@))
        }),
{
    let none = Json::Null;
    let p = match package {
        Some(p) => p,
        None => &none,
    };
    let identifier = match package_identifier(p) {
        Some(v) => v,
        None => Json::Null,
    };
    let version = match p.copy_field("version") {
        Some(v) => v,
        None => native.copy_or_null("productVersion"),
    };
    let valid = native.is_true("signatureValid");
    Json::obj().plus("build", native.copy_or_null("fileVersion")).plus("bundleIdentifier", identifier).plus(
        "documentTypes",
        Json::array(package_document_types(p)),
    ).plus("executablePath", Json::text(executable)).plus("localWebcontents", Json::opt_text(local)).plus(
        "path",
        Json::text(path),
    ).plus("signature", Json::obj().plus("valid", Json::Bool(valid))).plus("version", version)
}

/// The arguments with which an application is launched.
pub open spec fn launch_args(args: Seq<Seq<char>>, profile: Option<Seq<char>>, port: Option<u16>, file: Option<Seq<char>>) -> Seq<
    Seq<char>,
> {
    args + (match profile {
        Some(p) => seq!["--user-data-dir="@ + p],
        None => Seq::empty(),
    }) + (match port {
        Some(p) => seq!["--remote-debugging-port="@ + decimal(p as nat)],
        None => Seq::empty(),
    }) + (match file {
        Some(f) => seq![f],
        None => Seq::empty(),
    })
}

fn push_string(args: &mut Vec<String>, s: String)
    ensures
        views(final(args)@) == views(old(args)@) + seq![s@],
{
    let ghost before = args@;
    args.push(s);
    proof {
        assert(views(args@) =~= views(before) + seq![s@]);
    }
}

/// The arguments with which an application is launched: its profile, its port and the file to open
/// come behind the given ones. A profile that is to be patched must be given.
pub fn launch_arguments(
    args: &Vec<String>,
    profile: &Option<String>,
    patched: bool,
    port: Option<u16>,
    file: &Option<String>,
) -> (r: Result<Vec<String>, RpcError>)
    ensures
        if patched && profile is None {
            fails(r, rpc_error("INVALID_PARAMS"@, "chromiumLocalStatePatch requires userDataDir"@))
        } else {
            r matches Ok(a) && views(a@) == launch_args(views(args@), opt_text(*profile), port, opt_text(*file))
        },
{
    if patched && profile.is_none() {
        return Err(RpcError::new("INVALID_PARAMS", "chromiumLocalStatePatch requires userDataDir"));
    }
    let mut out = clone_list(args);
    let ghost start = views(args@);
    if let Some(p) = profile {
        push_string(&mut out, concat2("--user-data-dir=", p.as_str()));
    } else {
        assert(start + Seq::<Seq<char>>::empty() =~= start);
    }
    let ghost second = views(out@);
    if let Some(p) = port {
        push_string(&mut out, concat2("--remote-debugging-port=", u64_text(p as u64).as_str()));
    } else {
        assert(second + Seq::<Seq<char>>::empty() =~= second);
    }
    let ghost third = views(out@);
    if let Some(f) = file {
        push_string(&mut out, f.clone());
    } else {
        assert(third + Seq::<Seq<char>>::empty() =~= third);
    }
    Ok(out)
}

/// A word of a command line, in quotes.
pub open spec fn quoted(s: Seq<char>) -> Seq<char> {
    "\""@ + replace_view(s, "\""@, "\\\""@) + "\""@
}

/// The first `n` words of a command line, in quotes, with a space between each two.
pub open spec fn command_line_view(words: Seq<Seq<char>>, n: int) -> Seq<char>
    decreases n,
{
    if n <= 0 {
        Seq::empty()
    } else if n == 1 {
        quoted(words[0])
    } else {
        command_line_view(words, n - 1) + " "@ + quoted(words[n - 1])
    }
}

fn quote(s: &str) -> (r: String)
    ensures
        r@ == quoted(s@),
{
    proof {
        reveal_strlit("\"");
    }
    concat3("\"", replace(s, "\"", "\\\"").as_str(), "\"")
}

/// The command line that runs an executable with arguments: each in quotes, with the quotes inside
/// it escaped.
pub fn command_line(executable: &str, args: &Vec<String>) -> (r: String)
    ensures
        r@ == command_line_view(seq![executable@] + views(args@), args@.len() as int + 1),
{
    let ghost all = seq![executable@] + views(args@);
    let mut out = quote(executable);
    let mut i: usize = 0;
    assert(all[0] == executable@);
    while i < args.len()
        invariant
            i <= args@.len(),
            all == seq![executable@] + views(args@),
            out@ == command_line_view(all, i as int + 1),
        decreases args@.len() - i,
    {
        assert(views(args@)[i as int] == args@[i as int]@);
        assert(all[i + 1] == args@[i as int]@);
        let next = quote(args[i].as_str());
        out = concat3(out.as_str(), " ", next.as_str());
        i += 1;
    }
    out
}

/// What is told of an application that was launched.
#[derive(Debug)]
pub struct Launched {
    pub application: String,
    pub executable: String,
    pub args: Vec<String>,
    pub file: Option<String>,
    pub pid: u32,
    pub terminated: u64,
    pub local_state: Option<Json>,
}

impl Launched {
    /// What is told of an application that was launched.
    pub fn result(&self, now: u64) -> (r: Json)
        ensures
            r@ == JsonView::obj().plus("applicationPath"@, JsonView::Text(self.application@)).plus(
                "args"@,
                texts(views(self.args@)),
            ).plus("cdp"@, JsonView::Null).plus(
                "chromiumLocalState"@,
                json_or_null(crate::json::opt_json(self.local_state)),
            ).plus("executable"@, JsonView::Text(self.executable@)).plus(
                "file"@,
                text_or_null(opt_text(self.file)),
            ).plus("launcherPid"@, JsonView::Unsigned(self.pid as u64)).plus(
                "pid"@,
                JsonView::Unsigned(self.pid as u64),
            ).plus("readyAt"@, JsonView::Unsigned(now)).plus(
                "terminatedConflictingInstances"@,
                JsonView::Unsigned(self.terminated),
            ),
    {
        let state = match &self.local_state {
            Some(j) => j.copy(),
            None => Json::Null,
        };
        Json::obj().plus("applicationPath", Json::text(self.application.as_str())).plus(
            "args",
            crate::launch::texts_json(&self.args),
        ).plus("cdp", Json::Null).plus("chromiumLocalState", state).plus(
            "executable",
            Json::text(self.executable.as_str()),
        ).plus("file", Json::opt_text(&self.file)).plus("launcherPid", Json::Unsigned(self.pid as u64)).plus(
            "pid",
            Json::Unsigned(self.pid as u64),
        ).plus("readyAt", Json::Unsigned(now)).plus("terminatedConflictingInstances", Json::Unsigned(self.terminated))
    }
}

/// The script that ends every process of an executable's name, and all that they started.
pub fn terminate_script(name: &str) -> (r: String)
    ensures
        r@ == "$name='"@ + replace_view(name@, "'"@, "''"@)
            + "'; $items=@(Get-CimInstance Win32_Process | Where-Object { $_.Name -ieq $name }); foreach($item in $items) { & taskkill.exe /PID $item.ProcessId /T /F | Out-Null }; $deadline=(Get-Date).AddSeconds(15); do { $remaining=@(Get-CimInstance Win32_Process | Where-Object { $_.Name -ieq $name }); if($remaining.Count -eq 0) { break }; Start-Sleep -Milliseconds 200 } while((Get-Date) -lt $deadline); if($remaining.Count -ne 0) { throw \"conflicting $name process tree did not exit\" }; $items.Count"@,
{
    proof {
        reveal_strlit("'");
    }
    concat3(
        "$name='",
        replace(name, "'", "''").as_str(),
        "'; $items=@(Get-CimInstance Win32_Process | Where-Object { $_.Name -ieq $name }); foreach($item in $items) { & taskkill.exe /PID $item.ProcessId /T /F | Out-Null }; $deadline=(Get-Date).AddSeconds(15); do { $remaining=@(Get-CimInstance Win32_Process | Where-Object { $_.Name -ieq $name }); if($remaining.Count -eq 0) { break }; Start-Sleep -Milliseconds 200 } while((Get-Date) -lt $deadline); if($remaining.Count -ne 0) { throw \"conflicting $name process tree did not exit\" }; $items.Count",
    )
}

/// The script that reads the version and the signature of an executable, which the environment
/// names.
pub const IDENTITY_SCRIPT: &'static str = "$item=Get-Item -LiteralPath $env:WORKBENCH_APPLICATION_EXE; $signature=Get-AuthenticodeSignature -LiteralPath $item.FullName; @{fileVersion=$item.VersionInfo.FileVersion;productVersion=$item.VersionInfo.ProductVersion;signatureValid=($signature.Status -eq 'Valid')} | ConvertTo-Json -Compress";

/// The script that lists every top-level element of the processes of an executable, with the names
/// below each. A Chromium window may belong to another process of the same executable, and may
/// show its title only on an element below it.
pub const INSPECT_TEMPLATE: &'static str = r#"
Add-Type -AssemblyName UIAutomationClient
$target=[IO.Path]::GetFullPath('@TARGET@')
$expected='@EXPECTED@'
$processes=@(Get-CimInstance Win32_Process | Where-Object { $_.ExecutablePath -and ([IO.Path]::GetFullPath($_.ExecutablePath) -eq $target) })
$roots=[Windows.Automation.AutomationElement]::RootElement.FindAll([Windows.Automation.TreeScope]::Children,[Windows.Automation.Condition]::TrueCondition)
$items=@()
foreach($process in $processes) {
  $windows=@()
  foreach($root in $roots) {
    if($root.Current.ProcessId -ne $process.ProcessId) { continue }
    $names=@()
    try {
      $descendants=$root.FindAll([Windows.Automation.TreeScope]::Descendants,[Windows.Automation.Condition]::TrueCondition)
      $limit=[Math]::Min($descendants.Count,500)
      for($index=0;$index -lt $limit;$index++) {
        $name=$descendants.Item($index).Current.Name
        if(-not [string]::IsNullOrWhiteSpace($name) -and $names.Count -lt 80 -and $names -notcontains $name) { $names += $name }
      }
    } catch {}
    $windows += @{
      title=$root.Current.Name
      role=$root.Current.ControlType.ProgrammaticName
      className=$root.Current.ClassName
      handle=$root.Current.NativeWindowHandle
      enabled=$root.Current.IsEnabled
      offscreen=$root.Current.IsOffscreen
      accessibleNames=$names
      expectedTitleObserved=((-not [string]::IsNullOrWhiteSpace($expected)) -and (@($root.Current.Name)+$names | Where-Object { $_ -and $_.IndexOf($expected,[StringComparison]::OrdinalIgnoreCase) -ge 0 }).Count -gt 0)
    }
  }
  $items += @{pid=$process.ProcessId;windows=$windows}
}
$json=@{accessibilityTrusted=$true;processes=$items} | ConvertTo-Json -Depth 8 -Compress
[IO.File]::WriteAllText('@OUTPUT@',$json,(New-Object Text.UTF8Encoding($false)))
"#;

/// The script that looks at an application's windows: a template with the executable, the title
/// that is looked for and the file for the result filled in.
pub fn inspect_script(template: &str, executable: &str, expected: &str, output: &str) -> (r: String)
    ensures
        r@ == replace_view(
            replace_view(
                replace_view(template@, "@TARGET@"@, replace_view(executable@, "'"@, "''"@)),
                "@EXPECTED@"@,
                replace_view(expected@, "'"@, "''"@),
            ),
            "@OUTPUT@"@,
            replace_view(output@, "'"@, "''"@),
        ),
{
    proof {
        reveal_strlit("'");
        reveal_strlit("@TARGET@");
        reveal_strlit("@EXPECTED@");
        reveal_strlit("@OUTPUT@");
    }
    let target = replace(executable, "'", "''");
    let title = replace(expected, "'", "''");
    let file = replace(output, "'", "''");
    let a = replace(template, "@TARGET@", target.as_str());
    let b = replace(a.as_str(), "@EXPECTED@", title.as_str());
    replace(b.as_str(), "@OUTPUT@", file.as_str())
}

/// The process numbers among the first `n` processes.
pub open spec fn pids_of(items: Seq<JsonView>, n: int) -> Seq<JsonView>
    decreases n,
{
    if n <= 0 {
        Seq::empty()
    } else {
        match items[n - 1].get("pid"@) {
            Some(p) => pids_of(items, n - 1).push(p),
            None => pids_of(items, n - 1),
        }
    }
}

/// What is told of a look at an application's windows.
pub fn window_inspection(application: &str, executable: &str, inspection: Json, now: u64) -> (r: Json)
    ensures
        ({
            let items = match inspection@.get_array("processes"@) {
                Some(a) => a,
                None => Seq::empty(),
            };
            r@ == JsonView::obj().plus("applicationPath"@, JsonView::Text(application@)).plus(
                "executable"@,
                JsonView::Text(executable@),
            ).plus("inspectedAt"@, JsonView::Unsigned(now)).plus("inspection"@, inspection@).plus(
                "pids"@,
                JsonView::Array(pids_of(items, items.len() as int)),
            )
        }),
{
    let mut pids: Vec<Json> = Vec::new();
    proof {
        assert(json_views(pids@) =~= Seq::empty());
    }
    if let Some(items) = inspection.get_array("processes") {
        let ghost all = json_views(items@);
        let mut i: usize = 0;
        while i < items.len()
            invariant
                i <= items@.len(),
                all == json_views(items@),
                json_views(pids@) == pids_of(all, i as int),
            decreases items@.len() - i,
        {
            assert(all[i as int] == items@[i as int]@);
            if let Some(p) = items[i].get("pid") {
                let ghost before = pids@;
                pids.push(p.copy());
                proof {
                    assert(json_views(pids@) =~= json_views(before).push(p@));
                }
            }
            i += 1;
        }
    }
    Json::obj().plus("applicationPath", Json::text(application)).plus("executable", Json::text(executable)).plus(
        "inspectedAt",
        Json::Unsigned(now),
    ).plus("inspection", inspection).plus("pids", Json::array(pids))
}

} // verus!
