//! The resources that a capability locks: templates with fields of its input, and the resources
//! that a command names.

use crate::codec::{display_view, encode, sha256_bytes, sha256_hex};
use crate::json::{Json, JsonView};
use crate::paths::{file_name, file_name_view};
use crate::rpc::{fails, rpc_error, RpcError, RpcErrorView};
use crate::text::{
    chars_of, concat2, concat3, find, find_char, find_char_from, find_from, replace, replace_view, str_eq, views,
};
use vstd::prelude::*;

verus! {

/// What the first placeholder of a text comes to.
pub enum Placeholder {
    /// There is none.
    Absent,
    /// It has no end.
    Endless,
    /// It names a field that the input does not have.
    Missing(Seq<char>),
    /// The text with it replaced.
    Filled(Seq<char>),
}

/// What the first placeholder of a text comes to, with the fields of an input.
pub open spec fn fill(s: Seq<char>, input: JsonView) -> Placeholder {
    match find_from(s, "${"@, 0) {
        None => Placeholder::Absent,
        Some(start) => match find_char(s, '}', start + 2) {
            None => Placeholder::Endless,
            Some(end) => {
                let key = s.subrange(start + 2, end);
                match input.get(key) {
                    None => Placeholder::Missing(key),
                    Some(v) => Placeholder::Filled(s.take(start) + display_view(v) + s.skip(end + 1)),
                }
            },
        },
    }
}

/// What a text becomes when its placeholders are replaced one after the other, also those that a
/// replacement brings, or why it cannot be; nothing if that takes more than `n` replacements.
pub open spec fn rendered(s: Seq<char>, template: Seq<char>, input: JsonView, n: nat) -> Option<
    Result<Seq<char>, RpcErrorView>,
>
    decreases n,
{
    match fill(s, input) {
        Placeholder::Absent => Some(Ok(s)),
        Placeholder::Endless => Some(Err(rpc_error("INVALID_LOCK_TEMPLATE"@, template))),
        Placeholder::Missing(key) => Some(
            Err(rpc_error("INVALID_LOCK_INPUT"@, "lock requires input field "@ + key)),
        ),
        Placeholder::Filled(t) => if n == 0 {
            None
        } else {
            rendered(t, template, input, (n - 1) as nat)
        },
    }
}

fn display(v: &Json) -> (r: String)
    ensures
        r@ == display_view(v@),
{
    match v {
        Json::Text(s) => s.clone(),
        other => encode(other),
    }
}

/// The resource of a template with the fields of an input, or why there is none. A replacement
/// may bring new placeholders, so that some templates never come to an end: those have no
/// resource either. As many replacements as can be counted stand for all of them.
pub open spec fn lock_view(template: Seq<char>, input: JsonView) -> Result<Seq<char>, RpcErrorView> {
    match rendered(template, template, input, u64::MAX as nat) {
        None => Err(rpc_error("INVALID_LOCK_TEMPLATE"@, template)),
        Some(r) => r,
    }
}

/// A template that comes to an end gives what it comes to, however many replacements that takes,
/// as far as they can be counted.
pub proof fn rendered_templates_are_locks(template: Seq<char>, input: JsonView, n: nat)
    requires
        rendered(template, template, input, n) is Some,
        n <= u64::MAX,
    ensures
        rendered(template, template, input, n) == Some(lock_view(template, input)),
{
    rendering_is_stable(template, template, input, n, u64::MAX as nat);
}

/// Replaces the placeholders of a template by fields of an input.
pub fn render_lock(template: &str, input: &Json) -> (r: Result<String, RpcError>)
    ensures
        match lock_view(template@, input@) {
            Ok(s) => r matches Ok(x) && x@ == s,
            Err(e) => fails(r, e),
        },
{
    let mut text = template.to_owned();
    let mut left: u64 = u64::MAX;
    proof {
        reveal_strlit("${");
    }
    loop
        invariant
            "${"@.len() == 2,
            rendered(template@, template@, input@, u64::MAX as nat) == rendered(text@, template@, input@, left as nat),
        decreases left,
    {
        let start = match find(text.as_str(), "${") {
            Some(i) => i,
            None => return Ok(text),
        };
        let v = chars_of(text.as_str());
        let n = v.len();
        let end = match find_char_from(&v, '}', start + 2) {
            Some(i) => i,
            None => return Err(RpcError::new("INVALID_LOCK_TEMPLATE", template)),
        };
        let key = text.as_str().substring_char(start + 2, end);
        let value = match input.get(key) {
            Some(x) => display(x),
            None => {
                let m = concat2("lock requires input field ", key);
                return Err(RpcError::new("INVALID_LOCK_INPUT", m.as_str()));
            },
        };
        if left == 0 {
            return Err(RpcError::new("INVALID_LOCK_TEMPLATE", template));
        }
        let head = text.as_str().substring_char(0, start);
        let tail = text.as_str().substring_char(end + 1, n);
        let next = concat3(head, value.as_str(), tail);
        proof {
            assert(head@ =~= text@.take(start as int));
            assert(tail@ =~= text@.skip(end + 1));
            assert(fill(text@, input@) == Placeholder::Filled(next@));
        }
        text = next;
        left -= 1;
    }
}

/// What a template comes to does not depend on how many replacements are allowed, once they are
/// enough.
pub proof fn rendering_is_stable(s: Seq<char>, template: Seq<char>, input: JsonView, n: nat, m: nat)
    requires
        rendered(s, template, input, n) is Some,
        n <= m,
    ensures
        rendered(s, template, input, m) == rendered(s, template, input, n),
    decreases n,
{
    if let Placeholder::Filled(t) = fill(s, input) {
        rendering_is_stable(t, template, input, (n - 1) as nat, (m - 1) as nat);
    }
}

/// The template of the resource that authorizes a capability, with the executor put in.
pub open spec fn authority_template(template: Seq<char>, executor: Seq<char>) -> Seq<char> {
    replace_view(template, "${executorId}"@, executor)
}

/// The resource whose lease authorizes a capability on an executor with an input.
pub fn render_capability_authority_resource(template: &str, executor_id: &str, input: &Json) -> (r: Result<
    String,
    RpcError,
>)
    ensures
        match lock_view(authority_template(template@, executor_id@), input@) {
            Ok(s) => r matches Ok(x) && x@ == s,
            Err(e) => fails(r, e),
        },
{
    proof {
        reveal_strlit("${executorId}");
    }
    let expanded = replace(template, "${executorId}", executor_id);
    render_lock(expanded.as_str(), input)
}

/// Whether a character is a control character.
pub open spec fn is_control(c: char) -> bool {
    c <= '\u{1f}' || ('\u{7f}' <= c && c <= '\u{9f}')
}

/// Whether a text can be a resource of a command.
pub open spec fn resource_fits(s: Seq<char>) -> bool {
    s.len() > 0 && vstd::utf8::encode_utf8(s).len() <= 512 && forall|i: int|
        0 <= i < s.len() ==> !is_control(#[trigger] s[i])
}

fn fits(s: &str) -> (r: bool)
    ensures
        r == resource_fits(s@),
{
    if s.is_empty() || s.as_bytes().len() > 512 {
        return false;
    }
    let v = chars_of(s);
    let mut i: usize = 0;
    while i < v.len()
        invariant
            i <= v.len(),
            v@ == s@,
            forall|k: int| 0 <= k < i ==> !is_control(#[trigger] s@[k]),
        decreases v.len() - i,
    {
        let c = v[i];
        if c <= '\u{1f}' || ('\u{7f}' <= c && c <= '\u{9f}') {
            assert(is_control(s@[i as int]));
            return false;
        }
        i += 1;
    }
    true
}

/// The resource of a value of the list that a command names.
pub open spec fn one_resource(v: JsonView) -> Result<Seq<char>, RpcErrorView> {
    match v {
        JsonView::Text(s) => if resource_fits(s) {
            Ok("command:"@ + s)
        } else {
            Err(
                rpc_error(
                    "INVALID_PARAMS"@,
                    "command resource is empty, too long, or contains control characters"@,
                ),
            )
        },
        _ => Err(rpc_error("INVALID_PARAMS"@, "command resources must be strings"@)),
    }
}

/// The resources of the first `n` values of the list that a command names.
pub open spec fn resources_upto(values: Seq<JsonView>, n: int) -> Result<Seq<Seq<char>>, RpcErrorView>
    decreases n,
{
    if n <= 0 {
        Ok(Seq::empty())
    } else {
        match resources_upto(values, n - 1) {
            Err(e) => Err(e),
            Ok(before) => match one_resource(values[n - 1]) {
                Err(e) => Err(e),
                Ok(s) => Ok(before.push(s)),
            },
        }
    }
}

/// The resources that the input of a command names.
pub open spec fn command_resources_view(input: JsonView) -> Result<Seq<Seq<char>>, RpcErrorView> {
    match input.get("resources"@) {
        None => Ok(Seq::empty()),
        Some(JsonView::Array(values)) => if values.len() > 32 {
            Err(rpc_error("INVALID_PARAMS"@, "command resources may contain at most 32 entries"@))
        } else {
            resources_upto(values, values.len() as int)
        },
        Some(_) => Err(rpc_error("INVALID_PARAMS"@, "command resources must be an array"@)),
    }
}

proof fn lemma_resources_stop(values: Seq<JsonView>, i: int, n: int)
    requires
        0 <= i <= n,
        resources_upto(values, i) is Err,
    ensures
        resources_upto(values, n) == resources_upto(values, i),
    decreases n - i,
{
    if i < n {
        lemma_resources_stop(values, i, n - 1);
    }
}

/// The resources that the input of a command names.
pub fn command_resources(input: &Json) -> (r: Result<Vec<String>, RpcError>)
    ensures
        match command_resources_view(input@) {
            Ok(s) => r matches Ok(x) && views(x@) == s,
            Err(e) => fails(r, e),
        },
{
    let mut out: Vec<String> = Vec::new();
    assert(views(out@) =~= Seq::empty());
    let listed = match input.get("resources") {
        None => return Ok(out),
        Some(v) => v,
    };
    match listed {
        Json::Array(values) => {
            let ghost all = listed@->Array_0;
            if values.len() > 32 {
                return Err(RpcError::new("INVALID_PARAMS", "command resources may contain at most 32 entries"));
            }
            let mut i: usize = 0;
            while i < values.len()
                invariant
                    i <= values.len(),
                    values.len() <= 32,
                    listed@ == JsonView::Array(all),
                    *listed == Json::Array(*values),
                    all.len() == values@.len(),
                    input@.get("resources"@) == Some(listed@),
                    forall|k: int| 0 <= k < all.len() ==> #[trigger] all[k] == values@[k]@,
                    resources_upto(all, i as int) == Ok::<Seq<Seq<char>>, RpcErrorView>(views(out@)),
                decreases values.len() - i,
            {
                assert(all[i as int] == values@[i as int]@);
                let next = match &values[i] {
                    Json::Text(s) => {
                        if fits(s.as_str()) {
                            concat2("command:", s.as_str())
                        } else {
                            proof {
                                lemma_resources_stop(all, i + 1, all.len() as int);
                            }
                            return Err(
                                RpcError::new(
                                    "INVALID_PARAMS",
                                    "command resource is empty, too long, or contains control characters",
                                ),
                            );
                        }
                    },
                    _ => {
                        proof {
                            lemma_resources_stop(all, i + 1, all.len() as int);
                        }
                        return Err(RpcError::new("INVALID_PARAMS", "command resources must be strings"));
                    },
                };
                let ghost before = out@;
                out.push(next);
                assert(views(out@) =~= views(before).push(next@));
                i += 1;
            }
            Ok(out)
        },
        _ => Err(RpcError::new("INVALID_PARAMS", "command resources must be an array")),
    }
}

/// The program that a command runs.
pub open spec fn program(input: JsonView) -> Option<Seq<char>> {
    match input.get_array("argv"@) {
        Some(argv) => if argv.len() > 0 {
            argv[0].as_str()
        } else {
            None
        },
        None => None,
    }
}

/// Whether a command needs an approval: those that remove, take rights or write to devices do.
pub open spec fn risky(input: JsonView) -> bool {
    match program(input) {
        Some(path) => match file_name_view(path) {
            Some(n) => n == "rm"@ || n == "sudo"@ || n == "su"@ || n == "dd"@ || n == "mkfs"@,
            None => false,
        },
        None => false,
    }
}

/// Whether a command needs an approval.
pub fn command_requires_approval(input: &Json) -> (r: bool)
    ensures
        r == risky(input@),
{
    let argv = match input.get_array("argv") {
        Some(a) => a,
        None => return false,
    };
    if argv.len() == 0 {
        return false;
    }
    let path = match argv[0].as_str() {
        Some(p) => p,
        None => return false,
    };
    match file_name(path) {
        Some(n) => {
            let n = n.as_str();
            str_eq(n, "rm") || str_eq(n, "sudo") || str_eq(n, "su") || str_eq(n, "dd") || str_eq(n, "mkfs")
        },
        None => false,
    }
}

/// What identifies a command: its directory and its arguments.
pub open spec fn command_identity(cwd: JsonView, argv: JsonView) -> JsonView {
    JsonView::obj().plus("argv"@, argv).plus("cwd"@, cwd)
}

/// The digest of a command.
pub open spec fn command_digest_view(input: JsonView) -> Result<Seq<char>, RpcErrorView> {
    match (input.get("cwd"@), input.get("argv"@)) {
        (None, _) => Err(rpc_error("INVALID_PARAMS"@, "cwd is required"@)),
        (Some(_), None) => Err(rpc_error("INVALID_PARAMS"@, "argv is required"@)),
        (Some(cwd), Some(argv)) => Ok(
            sha256_hex(vstd::utf8::encode_utf8(crate::codec::json_text(command_identity(cwd, argv)))),
        ),
    }
}

/// The digest of a command: of its directory and its arguments.
pub fn command_digest(input: &Json) -> (r: Result<String, RpcError>)
    ensures
        match command_digest_view(input@) {
            Ok(d) => r matches Ok(x) && x@ == d,
            Err(e) => fails(r, e),
        },
{
    let cwd = match input.get("cwd") {
        Some(v) => v,
        None => return Err(RpcError::new("INVALID_PARAMS", "cwd is required")),
    };
    let argv = match input.get("argv") {
        Some(v) => v,
        None => return Err(RpcError::new("INVALID_PARAMS", "argv is required")),
    };
    let identity = Json::obj().plus("argv", argv.copy()).plus("cwd", cwd.copy());
    let text = encode(&identity);
    Ok(sha256_bytes(text.as_str().as_bytes()))
}

/// A command is held back for an approval exactly where the program that it runs, in whatever
/// directory, is one of those that destroy.
pub proof fn only_destroying_programs_are_held_back(input: JsonView)
    ensures
        risky(input) ==> (input.get_array("argv"@) matches Some(argv) && argv.len() > 0 && argv[0] is Text),
        (input.get_array("argv"@) matches Some(argv) && argv.len() > 0 && (argv[0] matches JsonView::Text(path)
            && file_name_view(path) is Some)) ==> risky(input) == ({
            let name = file_name_view(input.get_array("argv"@)->0[0]->Text_0)->0;
            name == "rm"@ || name == "sudo"@ || name == "su"@ || name == "dd"@ || name == "mkfs"@
        }),
{
}

/// What a command asks for is taken as named, each resource once per mention and in order, and
/// nothing is taken where one of the names does not fit.
pub proof fn resources_are_those_named(values: Seq<JsonView>, n: int)
    requires
        0 <= n <= values.len(),
    ensures
        match resources_upto(values, n) {
            Ok(names) => names.len() == n && forall|i: int|
                0 <= i < n ==> (#[trigger] values[i] matches JsonView::Text(s) && names[i] == "command:"@ + s && s.len()
                    > 0),
            Err(e) => e.code == "INVALID_PARAMS"@ && exists|i: int|
                0 <= i < n && ((#[trigger] values[i]) matches JsonView::Text(s) ==> !resource_fits(s)),
        },
    decreases n,
{
    if n > 0 {
        resources_are_those_named(values, n - 1);
        assert(values[n - 1] == values[n - 1]);
    }
}

/// A lock that was rendered holds no placeholder.
pub proof fn rendered_lock_is_filled(s: Seq<char>, template: Seq<char>, input: JsonView, n: nat)
    ensures
        rendered(s, template, input, n) matches Some(Ok(lock)) ==> find_from(lock, "${"@, 0) is None,
        find_from(s, "${"@, 0) is None ==> rendered(s, template, input, n) == Some(Ok::<Seq<char>, RpcErrorView>(s)),
    decreases n,
{
    match fill(s, input) {
        Placeholder::Filled(t) => {
            if n > 0 {
                rendered_lock_is_filled(t, template, input, (n - 1) as nat);
            }
        },
        _ => {},
    }
}

} // verus!
