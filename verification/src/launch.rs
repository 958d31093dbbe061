//! The launch and the signing of applications: what may be done, with which commands, and when a
//! launch is over.

use crate::codec::{lossy_text, utf8_lossy};
use crate::json::{json_views, text_or_null, u64_or_null, Json, JsonView};
use crate::paths::{path_within, within};
use crate::rpc::{fails, rpc_error, RpcError, RpcErrorView};
use crate::table::{has_name, Keyed};
use crate::task::opt_text;
use crate::text::{clone_list, concat2, concat3, concat4, decimal, str_eq, trim, trim_view, u64_text, views};
use vstd::prelude::*;

verus! {

/// The error of a command that could not be run.
pub fn command_error(code: &str, command: &str, error: &str) -> (r: RpcError)
    ensures
        r@ == rpc_error(code@, "cannot execute "@ + command@ + ": "@ + error@),
{
    RpcError::new(code, concat4("cannot execute ", command, ": ", error).as_str())
}

/// The error of a command that failed: what it printed as its errors, or else what it printed.
pub fn failed_output(code: &str, stdout: &Vec<u8>, stderr: &Vec<u8>) -> (r: RpcError)
    ensures
        r@ == rpc_error(
            code@,
            trim_view(
                lossy_text(
                    if stderr@.len() == 0 {
                        stdout@
                    } else {
                        stderr@
                    },
                ),
            ),
        ),
{
    let text = if stderr.len() == 0 {
        utf8_lossy(stdout.as_slice())
    } else {
        utf8_lossy(stderr.as_slice())
    };
    RpcError::new(code, trim(text.as_str()).as_str())
}

/// A part of an application that is signed by itself.
#[derive(Debug)]
pub struct SigningUnit {
    pub path: String,
    pub identifier: Option<String>,
    pub entitlements: Option<String>,
    pub options_runtime: bool,
    pub requirements: Option<String>,
}

/// Decides whether an application may be signed with an identity: any but the one that names nobody
/// needs a keychain and the file with its password.
pub fn check_signing(identity: &str, keychain: bool, password_file: bool) -> (r: Result<(), RpcError>)
    ensures
        if identity@ != "-"@ && (!keychain || !password_file) {
            fails(
                r,
                rpc_error(
                    "SIGNING_IDENTITY_NOT_ALLOWED"@,
                    "non-ad-hoc signing requires an explicit keychain and password file"@,
                ),
            )
        } else {
            r is Ok
        },
{
    if !str_eq(identity, "-") && (!keychain || !password_file) {
        return Err(
            RpcError::new(
                "SIGNING_IDENTITY_NOT_ALLOWED",
                "non-ad-hoc signing requires an explicit keychain and password file",
            ),
        );
    }
    Ok(())
}

/// A flag and its value, where it has one.
pub open spec fn flag(name: Seq<char>, value: Option<Seq<char>>) -> Seq<Seq<char>> {
    match value {
        Some(v) => seq![name, v],
        None => Seq::empty(),
    }
}

/// The arguments with which a part of an application is signed.
pub open spec fn signing_args(unit: SigningUnit, identity: Seq<char>, keychain: Option<Seq<char>>) -> Seq<Seq<char>> {
    seq!["--force"@, "--sign"@, identity] + flag("--keychain"@, keychain) + flag(
        "--options"@,
        if unit.options_runtime {
            Some("runtime"@)
        } else {
            None
        },
    ) + flag("--identifier"@, opt_text(unit.identifier)) + flag("--requirements"@, opt_text(unit.requirements)) + flag(
        "--entitlements"@,
        opt_text(unit.entitlements),
    ) + seq![unit.path@]
}

fn push_text(args: &mut Vec<String>, s: &str)
    ensures
        views(final(args)@) == views(old(args)@).push(s@),
{
    let ghost before = args@;
    args.push(s.to_owned());
    proof {
        assert(views(args@) =~= views(before).push(s@));
    }
}

fn push_flag(args: &mut Vec<String>, name: &str, value: &Option<String>)
    ensures
        views(final(args)@) == views(old(args)@) + flag(name@, opt_text(*value)),
{
    let ghost before = views(args@);
    if let Some(v) = value {
        push_text(args, name);
        push_text(args, v.as_str());
    }
    proof {
        assert(views(args@) =~= before + flag(name@, opt_text(*value)));
    }
}

/// The arguments with which a part of an application is signed. It must lie inside the application.
pub fn sign_command(unit: &SigningUnit, application: &str, identity: &str, keychain: &Option<String>) -> (r: Result<
    Vec<String>,
    RpcError,
>)
    ensures
        if within(unit.path@, application@) {
            r matches Ok(args) && views(args@) == signing_args(*unit, identity@, opt_text(*keychain))
        } else {
            fails(
                r,
                rpc_error("SIGNING_PATH_OUTSIDE_APPLICATION"@, unit.path@ + " is outside "@ + application@),
            )
        },
{
    if !path_within(unit.path.as_str(), application) {
        return Err(
            RpcError::new(
                "SIGNING_PATH_OUTSIDE_APPLICATION",
                concat3(unit.path.as_str(), " is outside ", application).as_str(),
            ),
        );
    }
    let mut args: Vec<String> = Vec::new();
    push_text(&mut args, "--force");
    push_text(&mut args, "--sign");
    push_text(&mut args, identity);
    proof {
        assert(views(args@) =~= seq!["--force"@, "--sign"@, identity@]);
    }
    push_flag(&mut args, "--keychain", keychain);
    let runtime = if unit.options_runtime {
        Some("runtime".to_owned())
    } else {
        None
    };
    push_flag(&mut args, "--options", &runtime);
    push_flag(&mut args, "--identifier", &unit.identifier);
    push_flag(&mut args, "--requirements", &unit.requirements);
    push_flag(&mut args, "--entitlements", &unit.entitlements);
    let ghost before = views(args@);
    push_text(&mut args, unit.path.as_str());
    proof {
        assert(views(args@) =~= before + seq![unit.path@]);
    }
    Ok(args)
}

/// Texts as documents.
pub open spec fn texts(items: Seq<Seq<char>>) -> JsonView {
    JsonView::Array(Seq::new(items.len(), |i: int| JsonView::Text(items[i])))
}

/// Texts as a document.
pub fn texts_json(items: &Vec<String>) -> (r: Json)
    ensures
        r@ == texts(views(items@)),
{
    let mut out: Vec<Json> = Vec::new();
    let mut i: usize = 0;
    while i < items.len()
        invariant
            i <= items@.len(),
            out@.len() == i,
            forall|k: int| 0 <= k < i ==> (#[trigger] out@[k])@ == JsonView::Text(items@[k]@),
        decreases items@.len() - i,
    {
        out.push(Json::text(items[i].as_str()));
        i += 1;
    }
    assert(json_views(out@) =~= texts(views(items@))->Array_0);
    Json::array(out)
}

/// What is told of an application that was signed and verified.
pub fn signed_result(application: &str, signed: &Vec<String>, identity: &str, now: u64) -> (r: Json)
    ensures
        r@ == JsonView::obj().plus("applicationPath"@, JsonView::Text(application@)).plus(
            "identity"@,
            JsonView::Text(
                if identity@ == "-"@ {
                    "ad-hoc"@
                } else {
                    identity@
                },
            ),
        ).plus("signed"@, texts(views(signed@))).plus("verified"@, JsonView::Bool(true)).plus(
            "verifiedAt"@,
            JsonView::Unsigned(now),
        ),
{
    let who = if str_eq(identity, "-") {
        "ad-hoc"
    } else {
        identity
    };
    Json::obj().plus("applicationPath", Json::text(application)).plus("identity", Json::text(who)).plus(
        "signed",
        texts_json(signed),
    ).plus("verified", Json::Bool(true)).plus("verifiedAt", Json::Unsigned(now))
}

/// What is told of an application, by the document of its properties.
pub fn inspection(path: &str, info: &Json, valid: bool, local_webcontents: &Option<String>) -> (r: Json)
    ensures
        r@ == JsonView::obj().plus("build"@, info@.get_or_null("CFBundleVersion"@)).plus(
            "bundleIdentifier"@,
            info@.get_or_null("CFBundleIdentifier"@),
        ).plus("documentTypes"@, info@.get_or_null("CFBundleDocumentTypes"@)).plus(
            "localWebcontents"@,
            text_or_null(opt_text(*local_webcontents)),
        ).plus("path"@, JsonView::Text(path@)).plus(
            "signature"@,
            JsonView::obj().plus("valid"@, JsonView::Bool(valid)),
        ).plus("version"@, info@.get_or_null("CFBundleShortVersionString"@)),
{
    Json::obj().plus("build", info.copy_or_null("CFBundleVersion")).plus(
        "bundleIdentifier",
        info.copy_or_null("CFBundleIdentifier"),
    ).plus("documentTypes", info.copy_or_null("CFBundleDocumentTypes")).plus(
        "localWebcontents",
        Json::opt_text(local_webcontents),
    ).plus("path", Json::text(path)).plus("signature", Json::obj().plus("valid", Json::Bool(valid))).plus(
        "version",
        info.copy_or_null("CFBundleShortVersionString"),
    )
}

/// Decides whether an application may be launched with arguments: where it is to be followed as a
/// browser, it may not use the credentials of the user.
pub fn check_launch(args: &Vec<String>, port: Option<u16>, patched: bool) -> (r: Result<(), RpcError>)
    ensures
        if (port is Some || patched) && !has_name(args@, "--use-mock-keychain"@) {
            fails(
                r,
                rpc_error(
                    "UNSAFE_CREDENTIAL_MODE"@,
                    "Chromium-aware macOS application launch requires --use-mock-keychain"@,
                ),
            )
        } else {
            r is Ok
        },
{
    if port.is_some() || patched {
        let mut found = false;
        let mut i: usize = 0;
        while i < args.len()
            invariant
                i <= args@.len(),
                found == exists|k: int| 0 <= k < i && (#[trigger] args@[k])@ == "--use-mock-keychain"@,
            decreases args@.len() - i,
        {
            if str_eq(args[i].as_str(), "--use-mock-keychain") {
                assert(args@[i as int]@ == "--use-mock-keychain"@);
                found = true;
            }
            i += 1;
        }
        proof {
            lemma_has_name(args@, "--use-mock-keychain"@);
        }
        if !found {
            return Err(
                RpcError::new(
                    "UNSAFE_CREDENTIAL_MODE",
                    "Chromium-aware macOS application launch requires --use-mock-keychain",
                ),
            );
        }
    }
    Ok(())
}

proof fn lemma_has_name(names: Seq<String>, name: Seq<char>)
    ensures
        has_name(names, name) == exists|k: int| 0 <= k < names.len() && (#[trigger] names[k])@ == name,
{
    crate::table::lemma_position_from(names, name, 0);
    if exists|k: int| 0 <= k < names.len() && (#[trigger] names[k])@ == name {
        let k = choose|k: int| 0 <= k < names.len() && (#[trigger] names[k])@ == name;
        assert(names[k].key_view() == name);
    }
}

/// Whether one of the first `n` documents has the same text in a field as a later one.
pub open spec fn seen_before(items: Seq<JsonView>, n: int, key: Seq<char>, text: Seq<char>) -> bool {
    exists|i: int| 0 <= i < n && (#[trigger] items[i]).get_str(key) == Some(text)
}

/// How many different texts the first `n` documents have in a field.
pub open spec fn distinct(items: Seq<JsonView>, n: int, key: Seq<char>) -> nat
    decreases n,
{
    if n <= 0 {
        0
    } else {
        match items[n - 1].get_str(key) {
            Some(t) => if seen_before(items, n - 1, key, t) {
                distinct(items, n - 1, key)
            } else {
                distinct(items, n - 1, key) + 1
            },
            None => distinct(items, n - 1, key),
        }
    }
}

fn count_distinct(items: &Vec<Json>, key: &str) -> (r: usize)
    ensures
        r == distinct(json_views(items@), items@.len() as int, key@),
        r <= items@.len(),
{
    let ghost all = json_views(items@);
    let mut count: usize = 0;
    let mut i: usize = 0;
    while i < items.len()
        invariant
            i <= items@.len(),
            all == json_views(items@),
            count <= i,
            count == distinct(all, i as int, key@),
        decreases items@.len() - i,
    {
        assert(all[i as int] == items@[i as int]@);
        if let Some(t) = items[i].get_str(key) {
            let mut seen = false;
            let mut k: usize = 0;
            while k < i
                invariant
                    k <= i < items@.len(),
                    all == json_views(items@),
                    seen == seen_before(all, k as int, key@, t@),
                decreases i - k,
            {
                assert(all[k as int] == items@[k as int]@);
                let same = match items[k].get_str(key) {
                    Some(u) => str_eq(u, t),
                    None => false,
                };
                if same {
                    assert(all[k as int].get_str(key@) == Some(t@));
                    seen = true;
                }
                k += 1;
            }
            if !seen {
                count += 1;
            }
        }
        i += 1;
    }
    count
}

/// The refusal of a launch that other processes stand in the way of.
pub open spec fn conflict_error(conflicts: Seq<JsonView>) -> RpcErrorView {
    let applications = distinct(conflicts, conflicts.len() as int, "applicationRoot"@);
    RpcErrorView {
        code: "CONFLICTING_APPLICATION_INSTANCE"@,
        message: decimal(conflicts.len()) + " conflicting process(es) across "@ + decimal(applications)
            + " application bundle(s) are running"@,
        retryable: false,
        details: JsonView::obj().plus("applicationCount"@, JsonView::Unsigned(applications as u64)).plus(
            "processCount"@,
            JsonView::Unsigned(conflicts.len() as u64),
        ).plus("processes"@, JsonView::Array(conflicts)),
    }
}

fn copies(items: &Vec<Json>) -> (r: Json)
    ensures
        r@ == JsonView::Array(json_views(items@)),
{
    let mut out: Vec<Json> = Vec::new();
    let mut i: usize = 0;
    while i < items.len()
        invariant
            i <= items@.len(),
            out@.len() == i,
            forall|k: int| 0 <= k < i ==> (#[trigger] out@[k])@ == items@[k]@,
        decreases items@.len() - i,
    {
        out.push(items[i].copy());
        i += 1;
    }
    assert(json_views(out@) =~= json_views(items@));
    Json::array(out)
}

/// Decides whether a launch may go on past the processes that stand in its way: they are told to
/// end only where that was asked for.
pub fn check_conflicts(conflicts: &Vec<Json>, terminate: bool) -> (r: Result<(), RpcError>)
    ensures
        if conflicts@.len() > 0 && !terminate {
            fails(r, conflict_error(json_views(conflicts@)))
        } else {
            r is Ok
        },
{
    if conflicts.len() > 0 && !terminate {
        let applications = count_distinct(conflicts, "applicationRoot");
        let count = u64_text(conflicts.len() as u64);
        let message = concat4(
            count.as_str(),
            " conflicting process(es) across ",
            u64_text(applications as u64).as_str(),
            " application bundle(s) are running",
        );
        let details = Json::obj().plus("applicationCount", Json::Unsigned(applications as u64)).plus(
            "processCount",
            Json::Unsigned(conflicts.len() as u64),
        ).plus("processes", copies(conflicts));
        let mut e = RpcError::new("CONFLICTING_APPLICATION_INSTANCE", message.as_str());
        e.details = details;
        return Err(e);
    }
    Ok(())
}

/// The number under which a process can be told to end, where a document gives one.
pub open spec fn signal_view(p: JsonView) -> Option<u32> {
    let n = p.u64_or("pid"@, 0) % 0x1_0000_0000;
    if 0 < n && n < 0x8000_0000 {
        Some(n as u32)
    } else {
        None
    }
}

/// The number under which the process of a document can be told to end. Numbers are taken as the
/// operating system takes them, by their lower half; those that would name a group are not used.
pub fn signal_target(process: &Json) -> (r: Option<u32>)
    ensures
        r == signal_view(process@),
{
    let n: u64 = process.u64_or("pid", 0) % 0x1_0000_0000;
    if 0 < n && n < 0x8000_0000 {
        Some(n as u32)
    } else {
        None
    }
}

/// The program that launches an application, and its arguments.
pub open spec fn launch_args(application: Seq<char>, file: Option<Seq<char>>, args: Seq<Seq<char>>) -> Seq<Seq<char>> {
    match file {
        Some(f) => if args.len() == 0 {
            seq!["-n"@, "-a"@, application, f]
        } else {
            seq!["-n"@, "-a"@, application, f, "--args"@] + args
        },
        None => args,
    }
}

/// The program that launches an application, and its arguments. With a file the application is
/// opened as its user would open it, otherwise its executable is run.
pub fn launch_command(application: &str, executable: &str, file: &Option<String>, args: &Vec<String>) -> (r: (
    String,
    Vec<String>,
))
    ensures
        r.0@ == (if file is Some {
            "/usr/bin/open"@
        } else {
            executable@
        }),
        views(r.1@) == launch_args(application@, opt_text(*file), views(args@)),
{
    match file {
        Some(f) => {
            let mut out: Vec<String> = Vec::new();
            push_text(&mut out, "-n");
            push_text(&mut out, "-a");
            push_text(&mut out, application);
            push_text(&mut out, f.as_str());
            proof {
                assert(views(out@) =~= seq!["-n"@, "-a"@, application@, f@]);
                assert(views(args@).len() == args@.len());
            }
            if args.len() > 0 {
                push_text(&mut out, "--args");
                let mut i: usize = 0;
                proof {
                    assert(views(out@) =~= seq!["-n"@, "-a"@, application@, f@, "--args"@] + views(args@).take(0));
                }
                while i < args.len()
                    invariant
                        i <= args@.len(),
                        views(out@) == seq!["-n"@, "-a"@, application@, f@, "--args"@] + views(args@).take(i as int),
                    decreases args@.len() - i,
                {
                    assert(views(args@)[i as int] == args@[i as int]@);
                    let ghost before = views(out@);
                    push_text(&mut out, args[i].as_str());
                    i += 1;
                    assert(views(out@) =~= seq!["-n"@, "-a"@, application@, f@, "--args"@] + views(args@).take(
                        i as int,
                    ));
                }
                assert(views(args@).take(args@.len() as int) =~= views(args@));
            }
            ("/usr/bin/open".to_owned(), out)
        },
        None => (executable.to_owned(), clone_list(args)),
    }
}

/// A launch that is under way.
#[derive(Debug)]
pub struct Launch {
    pub application: String,
    pub executable: String,
    pub args: Vec<String>,
    pub file: Option<String>,
    pub port: Option<u16>,
    pub launcher_pid: Option<u64>,
    pub terminated: Vec<Json>,
    pub pid: Option<u64>,
    pub cdp: Option<Json>,
}

/// What a look at a launch found.
#[derive(Debug)]
pub struct LaunchLook {
    /// How the program that launches it failed, where it did.
    pub failure: Option<String>,
    /// The number of the application's process, where there is one.
    pub pid: Option<u64>,
    /// What the application answered at its port, where it did.
    pub cdp: Option<Json>,
    /// Whether the time to launch is over.
    pub late: bool,
}

/// What a look at a launch comes to.
#[derive(Debug)]
pub enum LaunchStep {
    Ready,
    Again,
    /// It is over; the processes that there are go into the error.
    Late,
    Failed(RpcError),
}

/// How many milliseconds an application has to become ready.
pub fn launch_time(port: Option<u16>) -> (r: u64)
    ensures
        r == (if port is Some {
            60_000u64
        } else {
            10_000u64
        }),
{
    if port.is_some() {
        60_000
    } else {
        10_000
    }
}

/// What is known of an application once a look found something: what was known stays.
pub open spec fn first_known<T>(before: Option<T>, found: Option<T>) -> Option<T> {
    if before is Some {
        before
    } else {
        found
    }
}

impl Launch {
    /// Whether the application runs and, where that was asked for, answers at its port.
    pub open spec fn ready(self) -> bool {
        self.pid is Some && (self.port is None || self.cdp is Some)
    }

    /// Takes note of a look at the launch. What was found once is not asked for again.
    pub fn look(&mut self, look: LaunchLook) -> (r: LaunchStep)
        ensures
            look.failure is Some ==> *final(self) == *old(self) && (r matches LaunchStep::Failed(e) && e@ == rpc_error(
                "APPLICATION_EXITED"@,
                "application launcher exited unsuccessfully: "@ + look.failure->0@,
            )),
            look.failure is None ==> *final(self) == (Launch {
                pid: first_known(old(self).pid, look.pid),
                cdp: if old(self).port is Some {
                    first_known(old(self).cdp, look.cdp)
                } else {
                    old(self).cdp
                },
                ..*old(self)
            }) && (if final(self).ready() {
                r is Ready
            } else if look.late {
                r is Late
            } else {
                r is Again
            }),
    {
        if let Some(status) = look.failure {
            return LaunchStep::Failed(
                RpcError::new(
                    "APPLICATION_EXITED",
                    concat2("application launcher exited unsuccessfully: ", status.as_str()).as_str(),
                ),
            );
        }
        if self.pid.is_none() {
            self.pid = look.pid;
        }
        if self.cdp.is_none() && self.port.is_some() {
            self.cdp = look.cdp;
        }
        if self.pid.is_some() && (self.port.is_none() || self.cdp.is_some()) {
            LaunchStep::Ready
        } else if look.late {
            LaunchStep::Late
        } else {
            LaunchStep::Again
        }
    }

    /// The error of a launch whose time is over, with the processes that there are.
    pub fn late_error(&self, processes: &Vec<Json>) -> (r: RpcError)
        ensures
            r@ == (RpcErrorView {
                code: if self.pid is None {
                    "APPLICATION_PROCESS_NOT_FOUND"@
                } else {
                    "APPLICATION_READINESS_TIMEOUT"@
                },
                message: self.application@ + " did not satisfy application launch readiness"@,
                retryable: false,
                details: JsonView::obj().plus("applicationPath"@, JsonView::Text(self.application@)).plus(
                    "executable"@,
                    JsonView::Text(self.executable@),
                ).plus("launcherPid"@, u64_or_null(self.launcher_pid)).plus(
                    "processes"@,
                    JsonView::Array(json_views(processes@)),
                ).plus("remoteDebuggingPort"@, port_json(self.port)),
            }),
    {
        let code = if self.pid.is_none() {
            "APPLICATION_PROCESS_NOT_FOUND"
        } else {
            "APPLICATION_READINESS_TIMEOUT"
        };
        let mut e = RpcError::new(
            code,
            concat2(self.application.as_str(), " did not satisfy application launch readiness").as_str(),
        );
        e.details = Json::obj().plus("applicationPath", Json::text(self.application.as_str())).plus(
            "executable",
            Json::text(self.executable.as_str()),
        ).plus("launcherPid", Json::opt_u64(self.launcher_pid)).plus("processes", copies(processes)).plus(
            "remoteDebuggingPort",
            match self.port {
                Some(p) => Json::Unsigned(p as u64),
                None => Json::Null,
            },
        );
        e
    }

    /// What is told of an application that is ready.
    pub fn result(&self, now: u64) -> (r: Json)
        requires
            self.pid is Some,
        ensures
            r@ == JsonView::obj().plus("applicationPath"@, JsonView::Text(self.application@)).plus(
                "args"@,
                texts(views(self.args@)),
            ).plus(
                "cdp"@,
                match self.cdp {
                    Some(j) => j@,
                    None => JsonView::Null,
                },
            ).plus("executable"@, JsonView::Text(self.executable@)).plus(
                "file"@,
                text_or_null(opt_text(self.file)),
            ).plus("launcherPid"@, u64_or_null(self.launcher_pid)).plus("pid"@, JsonView::Unsigned(self.pid->0)).plus(
                "readyAt"@,
                JsonView::Unsigned(now),
            ).plus("terminatedConflicts"@, JsonView::Array(json_views(self.terminated@))),
    {
        let cdp = match &self.cdp {
            Some(j) => j.copy(),
            None => Json::Null,
        };
        let pid = match self.pid {
            Some(p) => p,
            None => 0,
        };
        Json::obj().plus("applicationPath", Json::text(self.application.as_str())).plus(
            "args",
            texts_json(&self.args),
        ).plus("cdp", cdp).plus("executable", Json::text(self.executable.as_str())).plus(
            "file",
            Json::opt_text(&self.file),
        ).plus("launcherPid", Json::opt_u64(self.launcher_pid)).plus("pid", Json::Unsigned(pid)).plus(
            "readyAt",
            Json::Unsigned(now),
        ).plus("terminatedConflicts", copies(&self.terminated))
    }
}

/// A port as a document, or null.
pub open spec fn port_json(port: Option<u16>) -> JsonView {
    match port {
        Some(p) => JsonView::Unsigned(p as u64),
        None => JsonView::Null,
    }
}

/// Values are counted once each: there is one where some item carries one, and no more than one
/// where all items carry the same.
pub proof fn values_are_counted_once(items: Seq<JsonView>, n: int, key: Seq<char>)
    requires
        0 <= n <= items.len(),
    ensures
        distinct(items, n, key) <= n,
        (distinct(items, n, key) == 0) == (forall|i: int| 0 <= i < n ==> (#[trigger] items[i]).get_str(key) is None),
        (forall|i: int| 0 <= i < n ==> (#[trigger] items[i]).get_str(key) == items[0].get_str(key)) ==> distinct(
            items,
            n,
            key,
        ) <= 1,
    decreases n,
{
    if n > 0 {
        values_are_counted_once(items, n - 1, key);
        let t = items[n - 1].get_str(key);
        if t is Some && seen_before(items, n - 1, key, t->0) {
            let k = choose|k: int| 0 <= k < n - 1 && (#[trigger] items[k]).get_str(key) == t;
            assert(items[k].get_str(key) is Some);
        }
        if n > 1 && t is Some && items[0].get_str(key) == t {
            assert(seen_before(items, n - 1, key, t->0));
        }
    }
}

/// Two different values are counted as two.
pub proof fn different_values_are_counted_apart(items: Seq<JsonView>, n: int, key: Seq<char>, i: int, j: int)
    requires
        0 <= i < j < n <= items.len(),
        items[i].get_str(key) is Some,
        items[j].get_str(key) is Some,
        items[i].get_str(key) != items[j].get_str(key),
    ensures
        distinct(items, n, key) >= 2,
    decreases n,
{
    if j < n - 1 {
        different_values_are_counted_apart(items, n - 1, key, i, j);
    } else {
        values_are_counted_once(items, n - 1, key);
        let t = items[j].get_str(key)->0;
        if seen_before(items, n - 1, key, t) {
            let k = choose|k: int| 0 <= k < n - 1 && (#[trigger] items[k]).get_str(key) == Some(t);
            if i < k {
                different_values_are_counted_apart(items, n - 1, key, i, k);
            } else {
                different_values_are_counted_apart(items, n - 1, key, k, i);
            }
        }
    }
}

} // verus!
