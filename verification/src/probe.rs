//! How processes are looked at: whether they are ready, whether they live, and by which identity.

use crate::codec::{lossy_text, utf8_lossy};
use crate::evidence::lemma_field_is_smaller;
use crate::json::{json_views, Json, JsonView};
use crate::lines::{lines, lines_view, words, words_view};
use crate::rpc::{rpc_error, RpcError, RpcErrorView};
use crate::task::opt_text;
use crate::text::{
    chars_of, concat2, concat3, contains, decimal, has_text, str_eq, trim, trim_start_view, trim_view, u64_text, views,
};
use vstd::prelude::*;

verus! {

/// A question on the readiness of a process.
#[derive(Debug)]
pub enum Probe {
    /// Whether something answers at an address.
    Tcp(String),
    /// Whether a file exists.
    File(Option<String>),
    /// Whether a pattern stands in the log.
    Log(String),
}

/// A question on the readiness of a process.
pub enum ProbeView {
    Tcp(Seq<char>),
    File(Option<Seq<char>>),
    Log(Seq<char>),
}

impl View for Probe {
    type V = ProbeView;

    open spec fn view(&self) -> ProbeView {
        match self {
            Probe::Tcp(a) => ProbeView::Tcp(a@),
            Probe::File(p) => ProbeView::File(opt_text(*p)),
            Probe::Log(p) => ProbeView::Log(p@),
        }
    }
}

/// The answer to a question on the readiness of a process.
#[derive(Debug)]
pub enum ProbeAnswer {
    Yes,
    No,
    /// The question makes no sense.
    Invalid(String),
}

/// How far the readiness of a process is settled.
#[derive(Debug)]
pub enum Walk {
    /// A question is to be answered next.
    Ask(Probe),
    /// The process is ready, or not.
    Settled(bool),
    /// How it says to ask makes no sense.
    Failed(RpcError),
}

/// How far the readiness of a process is settled.
pub enum WalkView {
    Ask(ProbeView),
    Settled(bool),
    Failed(RpcErrorView),
}

impl View for Walk {
    type V = WalkView;

    open spec fn view(&self) -> WalkView {
        match self {
            Walk::Ask(p) => WalkView::Ask(p@),
            Walk::Settled(b) => WalkView::Settled(*b),
            Walk::Failed(e) => WalkView::Failed(e@),
        }
    }
}

/// The error of a readiness that makes no sense.
pub open spec fn invalid(message: Seq<char>) -> WalkView {
    WalkView::Failed(rpc_error("INVALID_READINESS"@, message))
}

/// A question as it stands, `used` of the answers being those to earlier questions.
pub open spec fn ask(p: ProbeView, answers: Seq<ProbeAnswer>, used: int) -> (WalkView, int) {
    if used < answers.len() {
        (
            match answers[used] {
                ProbeAnswer::Yes => WalkView::Settled(true),
                ProbeAnswer::No => WalkView::Settled(false),
                ProbeAnswer::Invalid(m) => invalid(m@),
            },
            used + 1,
        )
    } else {
        (WalkView::Ask(p), used)
    }
}

/// The host that a readiness names.
pub open spec fn probe_host(spec: JsonView) -> Seq<char> {
    match spec.get_str("host"@) {
        Some(h) => h,
        None => "127.0.0.1"@,
    }
}

/// The kind of question that a readiness is.
pub open spec fn probe_kind(spec: JsonView) -> Seq<char> {
    match spec.get_str("type"@) {
        Some(t) => t,
        None => Seq::empty(),
    }
}

/// How far a readiness is settled by the answers from the one at `used` on, and how many answers
/// are used then.
pub open spec fn walk(spec: JsonView, answers: Seq<ProbeAnswer>, used: int) -> (WalkView, int)
    decreases spec, 0int,
{
    let kind = probe_kind(spec);
    if kind == "all"@ {
        match spec.get("probes"@) {
            Some(JsonView::Array(probes)) => if probes.len() == 0 {
                (invalid("all requires at least one probe"@), used)
            } else {
                proof {
                    lemma_field_is_smaller(spec, "probes"@);
                    lemma_items_are_smaller(spec, JsonView::Array(probes));
                }
                walk_all(probes, 0, answers, used)
            },
            _ => (invalid("all probes are required"@), used),
        }
    } else if kind == "tcp"@ {
        match spec.get_u64("port"@) {
            Some(port) => ask(ProbeView::Tcp(probe_host(spec) + ":"@ + decimal(port as nat)), answers, used),
            None => (invalid("tcp port is required"@), used),
        }
    } else if kind == "file"@ {
        ask(ProbeView::File(spec.get_str("path"@)), answers, used)
    } else if kind == "log"@ {
        match spec.get_str("pattern"@) {
            Some(p) => ask(ProbeView::Log(p), answers, used),
            None => (invalid("log pattern is required"@), used),
        }
    } else {
        (invalid("unsupported readiness type: "@ + kind), used)
    }
}

/// How far several readinesses are settled, from the one at `i` on: all must be met, and the first
/// that is not settles it.
pub open spec fn walk_all(probes: Seq<JsonView>, i: int, answers: Seq<ProbeAnswer>, used: int) -> (WalkView, int)
    decreases probes, probes.len() - i,
{
    if i < 0 || i >= probes.len() {
        (WalkView::Settled(true), used)
    } else {
        let (w, u) = walk(probes[i], answers, used);
        if w == WalkView::Settled(true) {
            walk_all(probes, i + 1, answers, u)
        } else {
            (w, u)
        }
    }
}

/// The items of a list that a document holds are smaller than the document.
pub proof fn lemma_items_are_smaller(j: JsonView, list: JsonView)
    requires
        decreases_to!(j => list),
        list is Array,
    ensures
        decreases_to!(j => list->Array_0),
{
    assert(decreases_to!(list => list->Array_0));
}

fn asked(p: Probe, answers: &Vec<ProbeAnswer>, used: usize) -> (r: (Walk, usize))
    requires
        used <= answers@.len(),
    ensures
        (r.0@, r.1 as int) == ask(p@, answers@, used as int),
        used <= r.1 <= answers@.len(),
{
    if used < answers.len() {
        let w = match &answers[used] {
            ProbeAnswer::Yes => Walk::Settled(true),
            ProbeAnswer::No => Walk::Settled(false),
            ProbeAnswer::Invalid(m) => Walk::Failed(RpcError::new("INVALID_READINESS", m.as_str())),
        };
        (w, used + 1)
    } else {
        (Walk::Ask(p), used)
    }
}

fn failed(message: &str, used: usize) -> (r: (Walk, usize))
    ensures
        (r.0@, r.1) == (invalid(message@), used),
{
    (Walk::Failed(RpcError::new("INVALID_READINESS", message)), used)
}

fn walk_spec(spec: &Json, answers: &Vec<ProbeAnswer>, used: usize) -> (r: (Walk, usize))
    requires
        used <= answers@.len(),
    ensures
        (r.0@, r.1 as int) == walk(spec@, answers@, used as int),
        used <= r.1 <= answers@.len(),
    decreases spec@,
{
    let kind = match spec.get_str("type") {
        Some(t) => t,
        None => "",
    };
    proof {
        reveal_strlit("");
        assert(""@ =~= Seq::<char>::empty());
    }
    if str_eq(kind, "all") {
        let probes = match spec.get_array("probes") {
            Some(p) => p,
            None => return failed("all probes are required", used),
        };
        let ghost all = json_views(probes@);
        assert(spec@.get("probes"@) == Some(JsonView::Array(all)));
        if probes.len() == 0 {
            return failed("all requires at least one probe", used);
        }
        let mut i: usize = 0;
        let mut at: usize = used;
        while i < probes.len()
            invariant
                i <= probes@.len(),
                used <= at <= answers@.len(),
                all == json_views(probes@),
                spec@.get("probes"@) == Some(JsonView::Array(all)),
                walk(spec@, answers@, used as int) == walk_all(all, i as int, answers@, at as int),
            decreases probes@.len() - i,
        {
            proof {
                lemma_field_is_smaller(spec@, "probes"@);
                lemma_items_are_smaller(spec@, JsonView::Array(all));
                assert(all[i as int] == probes@[i as int]@);
                assert(decreases_to!(all => all[i as int]));
            }
            let (w, u) = walk_spec(&probes[i], answers, at);
            let on = match &w {
                Walk::Settled(b) => *b,
                _ => false,
            };
            if !on {
                return (w, u);
            }
            at = u;
            i += 1;
        }
        (Walk::Settled(true), at)
    } else if str_eq(kind, "tcp") {
        let host = match spec.get_str("host") {
            Some(h) => h,
            None => "127.0.0.1",
        };
        match spec.get_u64("port") {
            Some(port) => asked(Probe::Tcp(concat3(host, ":", u64_text(port).as_str())), answers, used),
            None => failed("tcp port is required", used),
        }
    } else if str_eq(kind, "file") {
        asked(Probe::File(spec.get_text("path")), answers, used)
    } else if str_eq(kind, "log") {
        match spec.get_text("pattern") {
            Some(p) => asked(Probe::Log(p), answers, used),
            None => failed("log pattern is required", used),
        }
    } else {
        failed(concat2("unsupported readiness type: ", kind).as_str(), used)
    }
}

/// Decides what a readiness comes to by the answers so far, given in the order of the questions: it
/// is settled, or one more question is to be answered. A readiness of several parts is met when
/// all of them are, and asks no further once one is not.
pub fn readiness_once(spec: &Json, answers: &Vec<ProbeAnswer>) -> (r: Walk)
    ensures
        r@ == walk(spec@, answers@, 0).0,
{
    walk_spec(spec, answers, 0).0
}

/// Whether answers agree with others as far as the others go.
pub open spec fn extends(more: Seq<ProbeAnswer>, answers: Seq<ProbeAnswer>) -> bool {
    answers.len() <= more.len() && forall|i: int| 0 <= i < answers.len() ==> more[i] == #[trigger] answers[i]
}

proof fn lemma_walk_used(spec: JsonView, answers: Seq<ProbeAnswer>, used: int)
    requires
        0 <= used <= answers.len(),
    ensures
        used <= walk(spec, answers, used).1 <= answers.len(),
        walk(spec, answers, used).0 is Ask ==> walk(spec, answers, used).1 == answers.len(),
    decreases spec, 0int,
{
    if probe_kind(spec) == "all"@ {
        if let Some(JsonView::Array(probes)) = spec.get("probes"@) {
            lemma_field_is_smaller(spec, "probes"@);
            lemma_items_are_smaller(spec, JsonView::Array(probes));
            lemma_walk_all_used(probes, 0, answers, used);
        }
    }
}

proof fn lemma_walk_all_used(probes: Seq<JsonView>, i: int, answers: Seq<ProbeAnswer>, used: int)
    requires
        0 <= used <= answers.len(),
        0 <= i,
    ensures
        used <= walk_all(probes, i, answers, used).1 <= answers.len(),
        walk_all(probes, i, answers, used).0 is Ask ==> walk_all(probes, i, answers, used).1 == answers.len(),
    decreases probes, probes.len() - i,
{
    if i < probes.len() {
        lemma_walk_used(probes[i], answers, used);
        lemma_walk_all_used(probes, i + 1, answers, walk(probes[i], answers, used).1);
    }
}

proof fn lemma_walk_extends(spec: JsonView, answers: Seq<ProbeAnswer>, more: Seq<ProbeAnswer>, used: int)
    requires
        0 <= used <= answers.len(),
        extends(more, answers),
        !(walk(spec, answers, used).0 is Ask),
    ensures
        walk(spec, more, used) == walk(spec, answers, used),
    decreases spec, 0int,
{
    if used < answers.len() {
        assert(more[used] == answers[used]);
    }
    if probe_kind(spec) == "all"@ {
        if let Some(JsonView::Array(probes)) = spec.get("probes"@) {
            lemma_field_is_smaller(spec, "probes"@);
            lemma_items_are_smaller(spec, JsonView::Array(probes));
            if probes.len() > 0 {
                lemma_walk_all_extends(probes, 0, answers, more, used);
            }
        }
    }
}

proof fn lemma_walk_all_extends(
    probes: Seq<JsonView>,
    i: int,
    answers: Seq<ProbeAnswer>,
    more: Seq<ProbeAnswer>,
    used: int,
)
    requires
        0 <= used <= answers.len(),
        0 <= i,
        extends(more, answers),
        !(walk_all(probes, i, answers, used).0 is Ask),
    ensures
        walk_all(probes, i, more, used) == walk_all(probes, i, answers, used),
    decreases probes, probes.len() - i,
{
    if i < probes.len() {
        lemma_walk_used(probes[i], answers, used);
        lemma_walk_extends(probes[i], answers, more, used);
        if walk(probes[i], answers, used).0 == WalkView::Settled(true) {
            lemma_walk_all_extends(probes, i + 1, answers, more, walk(probes[i], answers, used).1);
        }
    }
}

/// Once a readiness is settled, no further answer changes it.
pub proof fn settled_readiness_stays_settled(spec: JsonView, answers: Seq<ProbeAnswer>, more: Seq<ProbeAnswer>)
    requires
        extends(more, answers),
        !(walk(spec, answers, 0).0 is Ask),
    ensures
        walk(spec, more, 0).0 == walk(spec, answers, 0).0,
{
    lemma_walk_extends(spec, answers, more, 0);
}

/// Where the answers to a part of a readiness begin: behind those that the parts before it used.
pub open spec fn part_start(probes: Seq<JsonView>, i: int, answers: Seq<ProbeAnswer>) -> int
    decreases i,
{
    if i <= 0 {
        0
    } else {
        let start = part_start(probes, i - 1, answers);
        start + walk(probes[i - 1], answers.skip(start), 0).1
    }
}

/// What a part of a readiness comes to by itself, with the answers to it.
pub open spec fn part(probes: Seq<JsonView>, i: int, answers: Seq<ProbeAnswer>) -> WalkView {
    walk(probes[i], answers.skip(part_start(probes, i, answers)), 0).0
}

proof fn lemma_walk_shift(spec: JsonView, answers: Seq<ProbeAnswer>, start: int, used: int)
    requires
        0 <= start <= answers.len(),
        0 <= used <= answers.len() - start,
    ensures
        walk(spec, answers, start + used) == (
            walk(spec, answers.skip(start), used).0,
            start + walk(spec, answers.skip(start), used).1,
        ),
    decreases spec, 0int,
{
    if probe_kind(spec) == "all"@ {
        if let Some(JsonView::Array(probes)) = spec.get("probes"@) {
            lemma_field_is_smaller(spec, "probes"@);
            lemma_items_are_smaller(spec, JsonView::Array(probes));
            lemma_walk_all_shift(probes, 0, answers, start, used);
        }
    }
}

proof fn lemma_walk_all_shift(probes: Seq<JsonView>, i: int, answers: Seq<ProbeAnswer>, start: int, used: int)
    requires
        0 <= i,
        0 <= start <= answers.len(),
        0 <= used <= answers.len() - start,
    ensures
        walk_all(probes, i, answers, start + used) == (
            walk_all(probes, i, answers.skip(start), used).0,
            start + walk_all(probes, i, answers.skip(start), used).1,
        ),
    decreases probes, probes.len() - i,
{
    if i < probes.len() {
        lemma_walk_shift(probes[i], answers, start, used);
        lemma_walk_used(probes[i], answers.skip(start), used);
        lemma_walk_all_shift(probes, i + 1, answers, start, walk(probes[i], answers.skip(start), used).1);
    }
}

proof fn lemma_parts(probes: Seq<JsonView>, i: int, answers: Seq<ProbeAnswer>)
    requires
        0 <= i <= probes.len(),
        0 <= part_start(probes, i, answers) <= answers.len(),
    ensures
        (walk_all(probes, i, answers, part_start(probes, i, answers)).0 == WalkView::Settled(true)) == (forall|k: int|
            i <= k < probes.len() ==> #[trigger] part(probes, k, answers) == WalkView::Settled(true)),
        forall|f: int|
            i <= f < probes.len() && (forall|k: int|
                i <= k < f ==> #[trigger] part(probes, k, answers) == WalkView::Settled(true)) && part(probes, f, answers)
                != WalkView::Settled(true) ==> walk_all(probes, i, answers, part_start(probes, i, answers)).0
                == #[trigger] part(probes, f, answers),
    decreases probes.len() - i,
{
    if i < probes.len() {
        let start = part_start(probes, i, answers);
        lemma_walk_shift(probes[i], answers, start, 0);
        lemma_walk_used(probes[i], answers, start);
        assert(part_start(probes, i + 1, answers) == walk(probes[i], answers, start).1);
        lemma_parts(probes, i + 1, answers);
        assert(walk(probes[i], answers, start).0 == part(probes, i, answers));
        if part(probes, i, answers) == WalkView::Settled(true) {
            assert forall|f: int|
                i <= f < probes.len() && (forall|k: int|
                    i <= k < f ==> #[trigger] part(probes, k, answers) == WalkView::Settled(true)) && part(
                    probes,
                    f,
                    answers,
                ) != WalkView::Settled(true) implies walk_all(probes, i, answers, start).0 == #[trigger] part(
                probes,
                f,
                answers,
            ) by {
                assert(f != i);
                assert(forall|k: int|
                    i + 1 <= k < f ==> #[trigger] part(probes, k, answers) == WalkView::Settled(true));
            }
        }
    }
}

/// A readiness of several parts is met if and only if there are parts and every one of them is met
/// by the answers to it. Otherwise the first that is not met says what it comes to; without parts
/// it makes no sense.
pub proof fn every_part_is_required(spec: JsonView, probes: Seq<JsonView>, answers: Seq<ProbeAnswer>)
    requires
        probe_kind(spec) == "all"@,
        spec.get("probes"@) == Some(JsonView::Array(probes)),
    ensures
        probes.len() == 0 ==> walk(spec, answers, 0).0 == invalid("all requires at least one probe"@),
        probes.len() > 0 ==> (walk(spec, answers, 0).0 == WalkView::Settled(true)) == (forall|k: int|
            0 <= k < probes.len() ==> #[trigger] part(probes, k, answers) == WalkView::Settled(true)),
        forall|f: int|
            0 <= f < probes.len() && (forall|k: int|
                0 <= k < f ==> #[trigger] part(probes, k, answers) == WalkView::Settled(true)) && part(probes, f, answers)
                != WalkView::Settled(true) ==> walk(spec, answers, 0).0 == #[trigger] part(probes, f, answers),
{
    lemma_parts(probes, 0, answers);
}

/// The line that a pattern stands for where it is fixed at both ends.
pub open spec fn exact_line(pattern: Seq<char>) -> Option<Seq<char>> {
    if pattern.len() >= 2 && pattern[0] == '^' && pattern.last() == '$' {
        Some(pattern.subrange(1, pattern.len() - 1))
    } else {
        None
    }
}

/// Whether a pattern stands in a text: a fixed one as a whole line, any other anywhere.
pub open spec fn matches_log(pattern: Seq<char>, text: Seq<char>) -> bool {
    match exact_line(pattern) {
        Some(line) => lines_view(text).contains(line),
        None => has_text(text, pattern),
    }
}

/// Whether a pattern stands in a text: one between `^` and `$` as a whole line, any other anywhere.
pub fn log_matches(pattern: &str, text: &str) -> (r: bool)
    ensures
        r == matches_log(pattern@, text@),
{
    let n = pattern.unicode_len();
    if n >= 2 && pattern.get_char(0) == '^' && pattern.get_char(n - 1) == '$' {
        let line = pattern.substring_char(1, n - 1);
        let all = lines(text);
        let mut i: usize = 0;
        while i < all.len()
            invariant
                i <= all@.len(),
                views(all@) == lines_view(text@),
                exact_line(pattern@) == Some(line@),
                forall|k: int| 0 <= k < i ==> (#[trigger] all@[k])@ != line@,
            decreases all@.len() - i,
        {
            if str_eq(all[i].as_str(), line) {
                assert(views(all@)[i as int] == line@);
                return true;
            }
            i += 1;
        }
        assert forall|k: int| 0 <= k < lines_view(text@).len() implies lines_view(text@)[k] != line@ by {
            assert(views(all@)[k] == all@[k]@);
        }
        false
    } else {
        contains(text, pattern)
    }
}

/// The part of a log that a run wrote: what follows the bytes that were there before.
pub open spec fn run_log(content: Seq<u8>, start: u64) -> Seq<u8> {
    if start < content.len() {
        content.skip(start as int)
    } else {
        Seq::empty()
    }
}

/// Whether a pattern stands in what a run wrote to its log.
pub fn log_is_ready(pattern: &str, content: &Vec<u8>, start: u64) -> (r: bool)
    ensures
        r == matches_log(pattern@, lossy_text(run_log(content@, start))),
{
    let n = content.len();
    let from: usize = if start < n as u64 {
        start as usize
    } else {
        n
    };
    let rest = vstd::slice::slice_subrange(content.as_slice(), from, n);
    proof {
        assert(rest@ =~= run_log(content@, start));
    }
    let text = utf8_lossy(rest);
    log_matches(pattern, text.as_str())
}

/// What earlier runs wrote to a log does not make a later run ready.
pub proof fn earlier_output_is_ignored(earlier: Seq<u8>, written: Seq<u8>, start: u64)
    requires
        start == earlier.len(),
    ensures
        run_log(earlier + written, start) == written,
{
    assert(run_log(earlier + written, start) =~= written);
}

/// The position of the last occurrence of a character before a position.
pub open spec fn last_before(s: Seq<char>, c: char, to: int) -> Option<int>
    decreases to,
{
    if to <= 0 {
        None
    } else if s[to - 1] == c {
        Some(to - 1)
    } else {
        last_before(s, c, to - 1)
    }
}

/// The fields of a line of process status of Linux behind the name of the command, which may itself
/// hold spaces and brackets.
pub open spec fn stat_fields_view(stat: Seq<char>) -> Option<Seq<Seq<char>>> {
    match last_before(stat, ')', stat.len() as int) {
        Some(i) => Some(words_view(stat.skip(i + 1))),
        None => None,
    }
}

fn stat_fields(stat: &str) -> (r: Option<Vec<String>>)
    ensures
        (match r {
            Some(f) => Some(views(f@)),
            None => None,
        }) == stat_fields_view(stat@),
{
    let v = chars_of(stat);
    let mut i: usize = v.len();
    while i > 0
        invariant
            i <= v@.len(),
            v@ == stat@,
            last_before(stat@, ')', stat@.len() as int) == last_before(stat@, ')', i as int),
        decreases i,
    {
        if v[i - 1] == ')' {
            let rest = stat.substring_char(i, v.len());
            assert(rest@ =~= stat@.skip(i as int));
            return Some(words(rest));
        }
        i -= 1;
    }
    None
}

/// Whether a process state of Linux is that of one that has ended.
pub open spec fn ended_state(s: Seq<char>) -> bool {
    s == "Z"@ || s == "X"@
}

/// Whether a status line of Linux is that of a process that has ended and was not yet collected.
pub open spec fn stat_ended(stat: Seq<char>) -> bool {
    match stat_fields_view(stat) {
        Some(f) => f.len() > 0 && ended_state(f[0]),
        None => false,
    }
}

/// Whether a status line of Linux is that of a process that has ended and was not yet collected.
pub fn stat_is_ended(stat: &str) -> (r: bool)
    ensures
        r == stat_ended(stat@),
{
    match stat_fields(stat) {
        Some(f) => {
            if f.len() > 0 {
                assert(views(f@)[0] == f@[0]@);
                str_eq(f[0].as_str(), "Z") || str_eq(f[0].as_str(), "X")
            } else {
                false
            }
        },
        None => false,
    }
}

/// The identity with which a process of Linux was born: the boot and the time of its start.
pub open spec fn stat_identity_view(stat: Seq<char>, boot: Seq<char>) -> Option<Seq<char>> {
    match stat_fields_view(stat) {
        Some(f) => if f.len() < 20 || ended_state(f[0]) {
            None
        } else {
            Some(trim_view(boot) + ":"@ + f[19])
        },
        None => None,
    }
}

/// The identity with which a process of Linux was born, by its status line and the identity of the
/// boot. A process that has ended has none.
pub fn stat_identity(stat: &str, boot: &str) -> (r: Option<String>)
    ensures
        opt_text(r) == stat_identity_view(stat@, boot@),
{
    match stat_fields(stat) {
        Some(f) => {
            proof {
                assert(views(f@).len() == f@.len());
            }
            if f.len() < 20 {
                return None;
            }
            assert(views(f@)[0] == f@[0]@);
            assert(views(f@)[19] == f@[19]@);
            if str_eq(f[0].as_str(), "Z") || str_eq(f[0].as_str(), "X") {
                return None;
            }
            Some(concat3(trim(boot).as_str(), ":", f[19].as_str()))
        },
        None => None,
    }
}

/// Texts with a space between each two.
pub open spec fn joined_view(items: Seq<Seq<char>>, n: int) -> Seq<char>
    decreases n,
{
    if n <= 0 {
        Seq::empty()
    } else if n == 1 {
        items[0]
    } else {
        joined_view(items, n - 1) + " "@ + items[n - 1]
    }
}

/// The identity with which a process was born, by the start time and the state that `ps` prints.
pub open spec fn ps_identity_view(success: bool, text: Seq<char>) -> Option<Seq<char>> {
    let f = words_view(text);
    if !success || f.len() < 2 || (f.last().len() > 0 && f.last()[0] == 'Z') {
        None
    } else {
        Some(joined_view(f, f.len() - 1))
    }
}

/// The identity with which a process was born, by the start time and the state that `ps` prints. A
/// process that has ended has none.
pub fn ps_identity(success: bool, text: &str) -> (r: Option<String>)
    ensures
        opt_text(r) == ps_identity_view(success, text@),
{
    let f = words(text);
    let ghost all = words_view(text@);
    proof {
        assert(views(f@).len() == f@.len());
    }
    if !success || f.len() < 2 {
        return None;
    }
    let n: usize = f.len() - 1;
    assert(all[n as int] == f@[n as int]@);
    let state = f[n].as_str();
    if state.unicode_len() > 0 && state.get_char(0) == 'Z' {
        return None;
    }
    let mut out = f[0].clone();
    assert(all[0] == f@[0]@);
    let mut i: usize = 1;
    while i < n
        invariant
            1 <= i <= n,
            n + 1 == f@.len(),
            views(f@) == all,
            out@ == joined_view(all, i as int),
        decreases n - i,
    {
        assert(all[i as int] == f@[i as int]@);
        out = concat3(out.as_str(), " ", f[i].as_str());
        i += 1;
    }
    Some(out)
}

/// Whether the state that `ps` prints is that of a process that has ended.
pub open spec fn ps_ended(text: Seq<char>) -> bool {
    let t = trim_start_view(text);
    t.len() > 0 && (t[0] == 'Z' || t[0] == 'X')
}

/// Whether the state that `ps` prints is that of a process that has ended.
pub fn ps_is_ended(text: &str) -> (r: bool)
    ensures
        r == ps_ended(text@),
{
    let v = chars_of(text);
    let mut i: usize = 0;
    proof {
        assert(text@.skip(0) =~= text@);
    }
    while i < v.len() && crate::text::is_whitespace(v[i])
        invariant
            i <= v@.len(),
            v@ == text@,
            trim_start_view(text@) == trim_start_view(text@.skip(i as int)),
        decreases v@.len() - i,
    {
        assert(text@.skip(i as int).skip(1) =~= text@.skip(i + 1));
        i += 1;
    }
    i < v.len() && (v[i] == 'Z' || v[i] == 'X')
}

/// Whether a list of tasks of Windows holds a process.
pub fn tasklist_has(success: bool, text: &str, pid: u32) -> (r: bool)
    ensures
        r == (success && has_text(text@, "\""@ + decimal(pid as nat) + "\""@)),
{
    success && contains(text, concat3("\"", u64_text(pid as u64).as_str(), "\"").as_str())
}

/// A probe asks for what it names: a port of its host, a file, or a line of the log; and it is
/// answered by the next answer, as that one says.
pub proof fn probe_asks_for_what_it_names(spec: JsonView, answers: Seq<ProbeAnswer>)
    ensures
        answers.len() == 0 && spec.get_str("type"@) == Some("tcp"@) && spec.get_u64("port"@) is Some && spec.get_str(
            "host"@,
        ) is Some ==> walk(spec, answers, 0).0 == WalkView::Ask(
            ProbeView::Tcp(spec.get_str("host"@)->0 + ":"@ + decimal(spec.get_u64("port"@)->0 as nat)),
        ),
        answers.len() == 0 && spec.get_str("type"@) == Some("file"@) ==> walk(spec, answers, 0).0 == WalkView::Ask(
            ProbeView::File(spec.get_str("path"@)),
        ),
        answers.len() == 0 && spec.get_str("type"@) == Some("log"@) && spec.get_str("pattern"@) is Some ==> walk(
            spec,
            answers,
            0,
        ).0 == WalkView::Ask(ProbeView::Log(spec.get_str("pattern"@)->0)),
        answers.len() > 0 && ((spec.get_str("type"@) == Some("tcp"@) && spec.get_u64("port"@) is Some) || spec.get_str(
            "type"@,
        ) == Some("file"@) || (spec.get_str("type"@) == Some("log"@) && spec.get_str("pattern"@) is Some)) ==> (
        match answers[0] {
            ProbeAnswer::Yes => walk(spec, answers, 0).0 == WalkView::Settled(true),
            ProbeAnswer::No => walk(spec, answers, 0).0 == WalkView::Settled(false),
            ProbeAnswer::Invalid(_) => walk(spec, answers, 0).0 is Failed,
        }),
        (spec.get_str("type"@) matches Some(t) && t != "all"@ && t != "tcp"@ && t != "file"@ && t != "log"@) ==> walk(
            spec,
            answers,
            0,
        ).0 is Failed,
{
    reveal_strlit("all");
    reveal_strlit("tcp");
    reveal_strlit("file");
    reveal_strlit("log");
    assert("all"@[0] != "tcp"@[0] && "all"@[0] != "log"@[0] && "log"@[0] != "tcp"@[0] && "file"@.len() == 4);
    assert("all"@.len() == 3 && "tcp"@.len() == 3 && "log"@.len() == 3);
}

/// A pattern between `^` and `$` is looked for as a whole line, any other anywhere in the text.
pub proof fn pattern_is_looked_for(pattern: Seq<char>, text: Seq<char>)
    ensures
        pattern.len() < 2 || pattern[0] != '^' || pattern.last() != '$' ==> matches_log(pattern, text) == has_text(
            text,
            pattern,
        ),
        pattern.len() >= 2 && pattern[0] == '^' && pattern.last() == '$' ==> matches_log(pattern, text) == exists|i: int|
            0 <= i < lines_view(text).len() && #[trigger] lines_view(text)[i] == pattern.subrange(1, pattern.len() - 1),
{
}

/// The last occurrence of a character is one of it, and none follows.
pub proof fn last_occurrence_is_the_last(s: Seq<char>, c: char, to: int, i: int)
    requires
        0 <= to <= s.len(),
    ensures
        last_before(s, c, to) matches Some(k) ==> 0 <= k < to && s[k] == c && (k < i < to ==> s[i] != c),
        last_before(s, c, to) is None && 0 <= i < to ==> s[i] != c,
    decreases to,
{
    if to > 0 && s[to - 1] != c {
        last_occurrence_is_the_last(s, c, to - 1, i);
    }
}

} // verus!
