//! Keeping secrets out of what is written to disk.

use crate::json::{Json, JsonView};
use crate::schema::{Task, TaskFailure};
use crate::task::{task_views, TaskFailureView, TaskTable, TaskView};
use crate::text::{contains, find_from, has_text, lemma_find_from, lower_chars, lower_view};
use vstd::prelude::*;

verus! {

/// Whether a character counts in a name.
pub open spec fn counts(c: char) -> bool {
    c != '_' && c != '-'
}

/// A name in lower case, without underscores and hyphens.
pub open spec fn normalized(s: Seq<char>) -> Seq<char> {
    plain_chars(lower_view(s))
}

/// The characters of a text that are neither underscores nor hyphens.
pub open spec fn plain_chars(s: Seq<char>) -> Seq<char>
    decreases s.len(),
{
    if s.len() == 0 {
        s
    } else if counts(s.last()) {
        plain_chars(s.drop_last()).push(s.last())
    } else {
        plain_chars(s.drop_last())
    }
}

/// Whether a name is that of a secret, by its end.
pub open spec fn sensitive(name: Seq<char>) -> bool {
    let n = normalized(name);
    "token"@.is_suffix_of(n) || "secret"@.is_suffix_of(n) || "password"@.is_suffix_of(n)
        || "credential"@.is_suffix_of(n)
}

/// What stands in the place of a secret.
pub open spec fn redacted_text() -> JsonView {
    JsonView::Text("<redacted>"@)
}

/// Whether an item of an array is a secret because the item before it names one.
pub open spec fn follows_name(items: Seq<JsonView>, i: int) -> bool
    decreases i,
{
    i > 0 && !follows_name(items, i - 1) && (items[i - 1] matches JsonView::Text(t) && sensitive(t))
}

/// A document without its secrets: the values of fields with the name of a secret, the array
/// items behind such a name, and every text that holds a token.
pub open spec fn redact(j: JsonView) -> JsonView
    decreases j,
{
    match j {
        JsonView::Object(fields) => JsonView::Object(
            Seq::new(
                fields.len(),
                |i: int|
                    if 0 <= i < fields.len() {
                        (
                            fields[i].0,
                            if sensitive(fields[i].0) {
                                redacted_text()
                            } else {
                                redact(fields[i].1)
                            },
                        )
                    } else {
                        (Seq::empty(), JsonView::Null)
                    },
            ),
        ),
        JsonView::Array(items) => JsonView::Array(
            Seq::new(
                items.len(),
                |i: int|
                    if 0 <= i < items.len() {
                        if follows_name(items, i) {
                            redacted_text()
                        } else {
                            redact(items[i])
                        }
                    } else {
                        JsonView::Null
                    },
            ),
        ),
        JsonView::Text(t) => if has_text(t, "token_"@) {
            redacted_text()
        } else {
            j
        },
        other => other,
    }
}

/// Whether no text of a document holds a token.
pub open spec fn token_free(j: JsonView) -> bool
    decreases j,
{
    match j {
        JsonView::Object(fields) => forall|i: int| 0 <= i < fields.len() ==> token_free((#[trigger] fields[i]).1),
        JsonView::Array(items) => forall|i: int| 0 <= i < items.len() ==> token_free(#[trigger] items[i]),
        JsonView::Text(t) => !has_text(t, "token_"@),
        _ => true,
    }
}

proof fn lemma_mark_is_token_free()
    ensures
        !has_text("<redacted>"@, "token_"@),
        !sensitive("<redacted>"@),
{
    reveal_strlit("<redacted>");
    reveal_strlit("token_");
    let t = "<redacted>"@;
    lemma_find_from(t, "token_"@, 0);
    match find_from(t, "token_"@, 0) {
        Some(i) => {
            let s = t.subrange(i, i + 6);
            assert(s[0] == 't');
            assert(s[0] == t[i]);
            assert(s[1] == t[i + 1]);
            assert(s[1] == 'o');
        },
        None => {},
    }
    reveal_strlit("token");
    reveal_strlit("secret");
    reveal_strlit("password");
    reveal_strlit("credential");
    let l = lower_view(t);
    assert(l.last() == '>');
    assert(counts(l.last()));
    let n = normalized(t);
    assert(n.last() == '>');
    assert(n.len() > 0);
    if "token"@.is_suffix_of(n) {
        assert(n.subrange(n.len() - 5, n.len() as int)[4] == 'n');
    }
    if "secret"@.is_suffix_of(n) {
        assert(n.subrange(n.len() - 6, n.len() as int)[5] == 't');
    }
    if "password"@.is_suffix_of(n) {
        assert(n.subrange(n.len() - 8, n.len() as int)[7] == 'd');
    }
    if "credential"@.is_suffix_of(n) {
        assert(n.subrange(n.len() - 10, n.len() as int)[9] == 'l');
    }
}

/// No text of a redacted document holds a token.
pub proof fn redaction_leaves_no_token(j: JsonView)
    ensures
        token_free(redact(j)),
    decreases j,
{
    lemma_mark_is_token_free();
    match j {
        JsonView::Object(fields) => {
            let r = redact(j)->Object_0;
            assert forall|i: int| 0 <= i < r.len() implies token_free((#[trigger] r[i]).1) by {
                redaction_leaves_no_token(fields[i].1);
            }
        },
        JsonView::Array(items) => {
            let r = redact(j)->Array_0;
            assert forall|i: int| 0 <= i < r.len() implies token_free(#[trigger] r[i]) by {
                redaction_leaves_no_token(items[i]);
            }
        },
        _ => {},
    }
}

/// Redacting a document again changes nothing.
pub proof fn redaction_is_idempotent(j: JsonView)
    ensures
        redact(redact(j)) == redact(j),
    decreases j,
{
    lemma_mark_is_token_free();
    match j {
        JsonView::Object(fields) => {
            let a = redact(j)->Object_0;
            let b = redact(redact(j))->Object_0;
            assert forall|i: int| 0 <= i < a.len() implies a[i] == b[i] by {
                redaction_is_idempotent(fields[i].1);
            }
            assert(a =~= b);
        },
        JsonView::Array(items) => {
            let a = redact(j)->Array_0;
            let b = redact(redact(j))->Array_0;
            assert(redact(redacted_text()) == redacted_text());
            assert forall|i: int| 0 <= i < a.len() implies a[i] == b[i] by {
                redaction_is_idempotent(items[i]);
                lemma_follows_again(items, i);
                assert(redact(JsonView::Array(items)) == JsonView::Array(a));
                assert(b[i] == (if follows_name(a, i) {
                    redacted_text()
                } else {
                    redact(a[i])
                }));
            }
            assert(a =~= b);
        },
        _ => {},
    }
}

proof fn lemma_follows_again(items: Seq<JsonView>, i: int)
    requires
        0 <= i < items.len(),
    ensures
        ({
            let a = redact(JsonView::Array(items))->Array_0;
            follows_name(a, i) ==> follows_name(items, i)
        }),
    decreases i,
{
    lemma_mark_is_token_free();
    let a = redact(JsonView::Array(items))->Array_0;
    if i > 0 && follows_name(a, i) {
        assert(a[i - 1] matches JsonView::Text(t) && sensitive(t));
        if follows_name(items, i - 1) {
            assert(a[i - 1] == redacted_text());
        } else {
            assert(a[i - 1] == redact(items[i - 1]));
            assert(items[i - 1] matches JsonView::Text(t) && sensitive(t));
        }
    }
}

/// The fields of a redacted object that have the name of a secret hold none.
pub proof fn secret_fields_are_redacted(fields: Seq<(Seq<char>, JsonView)>, i: int)
    requires
        0 <= i < fields.len(),
        sensitive(fields[i].0),
    ensures
        redact(JsonView::Object(fields))->Object_0[i] == (fields[i].0, redacted_text()),
{
}

fn ends_like(n: &Vec<char>, marker: &str) -> (r: bool)
    ensures
        r == marker@.is_suffix_of(n@),
{
    let m = crate::text::chars_of(marker);
    if m.len() > n.len() {
        return false;
    }
    let start = n.len() - m.len();
    let mut i: usize = 0;
    while i < m.len()
        invariant
            i <= m.len(),
            m@ == marker@,
            m.len() <= n.len(),
            start == n.len() - m.len(),
            forall|k: int| 0 <= k < i ==> n@[start + k] == m@[k],
        decreases m.len() - i,
    {
        if n[start + i] != m[i] {
            assert(n@.subrange(start as int, n@.len() as int)[i as int] != m@[i as int]);
            return false;
        }
        i += 1;
    }
    assert(m@ =~= n@.subrange(start as int, n@.len() as int));
    true
}

/// Whether a name is that of a secret.
pub fn is_sensitive(name: &str) -> (r: bool)
    ensures
        r == sensitive(name@),
{
    let l = lower_chars(name);
    let mut n: Vec<char> = Vec::new();
    let mut i: usize = 0;
    while i < l.len()
        invariant
            i <= l.len(),
            l@ == lower_view(name@),
            n@ == plain_chars(l@.take(i as int)),
        decreases l.len() - i,
    {
        proof {
            assert(l@.take(i + 1).drop_last() =~= l@.take(i as int));
            assert(l@.take(i + 1).last() == l@[i as int]);
        }
        if l[i] != '_' && l[i] != '-' {
            n.push(l[i]);
        }
        i += 1;
    }
    assert(l@.take(l@.len() as int) =~= l@);
    ends_like(&n, "token") || ends_like(&n, "secret") || ends_like(&n, "password") || ends_like(&n, "credential")
}

/// The document without its secrets.
pub fn redact_sensitive_value(value: &Json) -> (r: Json)
    ensures
        r@ == redact(value@),
    decreases value,
{
    match value {
        Json::Object(fields) => {
            let mut out: Vec<(String, Json)> = Vec::new();
            let mut i: usize = 0;
            while i < fields.len()
                invariant
                    i <= fields.len(),
                    out@.len() == i,
                    *value == Json::Object(*fields),
                    forall|k: int|
                        0 <= k < i ==> out@[k].0@ == fields@[k].0@ && out@[k].1@ == (if sensitive(fields@[k].0@) {
                            redacted_text()
                        } else {
                            redact(fields@[k].1@)
                        }),
                decreases fields.len() - i,
            {
                assert(decreases_to!(*value => value->Object_0));
                assert(decreases_to!(*value => fields@[i as int]));
                let item = if is_sensitive(fields[i].0.as_str()) {
                    Json::text("<redacted>")
                } else {
                    redact_sensitive_value(&fields[i].1)
                };
                out.push((fields[i].0.clone(), item));
                i += 1;
            }
            let r = Json::Object(out);
            assert(r@->Object_0 =~= redact(value@)->Object_0);
            r
        },
        Json::Array(items) => {
            let mut out: Vec<Json> = Vec::new();
            let mut redact_next = false;
            let mut i: usize = 0;
            let ghost views = value@->Array_0;
            while i < items.len()
                invariant
                    i <= items.len(),
                    out@.len() == i,
                    *value == Json::Array(*items),
                    views == value@->Array_0,
                    views.len() == items@.len(),
                    forall|k: int| 0 <= k < views.len() ==> #[trigger] views[k] == items@[k]@,
                    i < items.len() ==> redact_next == follows_name(views, i as int),
                    forall|k: int|
                        0 <= k < i ==> out@[k]@ == (if follows_name(views, k) {
                            redacted_text()
                        } else {
                            redact(views[k])
                        }),
                decreases items.len() - i,
            {
                assert(decreases_to!(*value => value->Array_0));
                assert(decreases_to!(*value => items@[i as int]));
                assert(views[i as int] == items@[i as int]@);
                if redact_next {
                    out.push(Json::text("<redacted>"));
                    redact_next = false;
                } else {
                    if let Json::Text(text) = &items[i] {
                        redact_next = is_sensitive(text.as_str());
                    }
                    let item = redact_sensitive_value(&items[i]);
                    out.push(item);
                }
                i += 1;
            }
            let r = Json::Array(out);
            assert(r@->Array_0 =~= redact(value@)->Array_0);
            r
        },
        Json::Text(text) => {
            if contains(text.as_str(), "token_") {
                Json::text("<redacted>")
            } else {
                Json::Text(text.clone())
            }
        },
        other => other.copy(),
    }
}

/// A failure without its secrets.
pub open spec fn redact_failure(f: TaskFailureView) -> TaskFailureView {
    TaskFailureView {
        message: if has_text(f.message, "token_"@) {
            "<redacted>"@
        } else {
            f.message
        },
        details: redact(f.details),
        ..f
    }
}

/// A task without its secrets.
pub open spec fn redact_task(t: TaskView) -> TaskView {
    TaskView {
        input: redact(t.input),
        output: match t.output {
            Some(j) => Some(redact(j)),
            None => None,
        },
        error: match t.error {
            Some(f) => Some(redact_failure(f)),
            None => None,
        },
        ..t
    }
}

/// A copy of a task without its secrets.
pub fn redacted_task(task: &Task) -> (r: Task)
    ensures
        r@ == redact_task(task@),
{
    let mut copy = task.clone();
    copy.input = redact_sensitive_value(&task.input);
    copy.output = match &task.output {
        Some(j) => Some(redact_sensitive_value(j)),
        None => None,
    };
    copy.error = match &task.error {
        Some(f) => {
            let message = if contains(f.message.as_str(), "token_") {
                "<redacted>".to_owned()
            } else {
                f.message.clone()
            };
            Some(
                TaskFailure {
                    code: f.code.clone(),
                    message,
                    retryable: f.retryable,
                    details: redact_sensitive_value(&f.details),
                },
            )
        },
        None => None,
    };
    copy
}

impl TaskTable {
    /// Copies of all tasks as they are written to disk: without their secrets. The tasks
    /// themselves keep what they need to run.
    pub fn persistence_snapshot(&self) -> (r: Vec<Task>)
        ensures
            task_views(r@) == task_views(self.tasks@).map_values(|t: TaskView| redact_task(t)),
    {
        let mut out: Vec<Task> = Vec::new();
        let mut i: usize = 0;
        while i < self.tasks.len()
            invariant
                i <= self.tasks.len(),
                out@.len() == i,
                forall|k: int| 0 <= k < i ==> out@[k]@ == redact_task(self.tasks@[k]@),
            decreases self.tasks.len() - i,
        {
            out.push(redacted_task(&self.tasks[i]));
            i += 1;
        }
        assert(task_views(out@) =~= task_views(self.tasks@).map_values(|t: TaskView| redact_task(t)));
        out
    }
}

/// Redaction keeps the shape of a document, and what is neither secret nor a token.
pub proof fn redaction_keeps_the_rest(j: JsonView)
    ensures
        j is Null || j is Bool || j is Unsigned || j is Negative || j is Decimal ==> redact(j) == j,
        j matches JsonView::Text(t) ==> (redact(j) == j || has_text(t, "token_"@)),
        j matches JsonView::Object(fields) ==> (redact(j) matches JsonView::Object(kept) && kept.len() == fields.len()
            && forall|i: int|
            0 <= i < fields.len() ==> (#[trigger] kept[i]).0 == fields[i].0 && (!sensitive(fields[i].0) ==> kept[i].1
                == redact(fields[i].1))),
        j matches JsonView::Array(items) ==> (redact(j) matches JsonView::Array(kept) && kept.len() == items.len() && (
        items.len() > 0 ==> kept[0] == redact(items[0]))),
{
}

} // verus!
