//! What is kept of the outputs of tasks: bulky observations are reduced before they are stored.

use crate::json::{json_views, lookup, Json, JsonView};
use crate::schema::{
    ActivationTransaction, AgentInstance, Artifact, ArtifactLocation, EvidenceResult, Generation, Handoff, Provenance,
    Task, TaskFailure, TransactionJournalEntry,
};
use crate::state::WorkbenchState;
use crate::task::{opt_failure, TaskFailureView, TaskView};
use crate::text::{list_has, str_eq, trim, trim_view, views};
use std::collections::BTreeMap;
use vstd::prelude::*;

verus! {

/// The value of a field is that of one of the fields.
pub proof fn lemma_lookup_at(fields: Seq<(Seq<char>, JsonView)>, key: Seq<char>) -> (i: int)
    requires
        lookup(fields, key) is Some,
    ensures
        0 <= i < fields.len(),
        fields[i].0 == key,
        lookup(fields, key) == Some(fields[i].1),
    decreases fields.len(),
{
    if fields[0].0 == key {
        0
    } else {
        let k = lemma_lookup_at(fields.skip(1), key);
        k + 1
    }
}

/// The fields but for those of one name.
pub open spec fn drop_field(fields: Seq<(Seq<char>, JsonView)>, key: Seq<char>) -> Seq<(Seq<char>, JsonView)>
    decreases fields.len(),
{
    if fields.len() == 0 {
        fields
    } else {
        let before = drop_field(fields.drop_last(), key);
        if fields.last().0 == key {
            before
        } else {
            before.push(fields.last())
        }
    }
}

/// The length of an array; zero for anything else.
pub open spec fn array_len(j: JsonView) -> nat {
    match j {
        JsonView::Array(items) => items.len(),
        _ => 0,
    }
}

/// A document in which each list of native evaluations gave way to their number.
pub open spec fn compacted(j: JsonView) -> JsonView
    decreases j,
{
    match j {
        JsonView::Array(items) => JsonView::Array(compact_items(items)),
        JsonView::Object(fields) => match lookup(fields, "nativeEvaluations"@) {
            Some(e) => JsonView::Object(drop_field(compact_fields(fields), "nativeEvaluations"@)).with(
                "nativeObservationCount"@,
                JsonView::Unsigned(array_len(e) as u64),
            ),
            None => JsonView::Object(compact_fields(fields)),
        },
        other => other,
    }
}

/// Each item of a list, compacted.
pub open spec fn compact_items(items: Seq<JsonView>) -> Seq<JsonView>
    decreases items,
{
    Seq::new(
        items.len(),
        |i: int|
            if 0 <= i < items.len() {
                compacted(items[i])
            } else {
                JsonView::Null
            },
    )
}

/// Each field with its value compacted.
pub open spec fn compact_fields(fields: Seq<(Seq<char>, JsonView)>) -> Seq<(Seq<char>, JsonView)>
    decreases fields,
{
    Seq::new(
        fields.len(),
        |i: int|
            if 0 <= i < fields.len() {
                (fields[i].0, compacted(fields[i].1))
            } else {
                (Seq::empty(), JsonView::Null)
            },
    )
}

/// Whether a document holds native evaluations.
pub open spec fn evaluated(j: JsonView) -> bool
    decreases j,
{
    match j {
        JsonView::Array(items) => exists|i: int| 0 <= i < items.len() && evaluated(#[trigger] items[i]),
        JsonView::Object(fields) => exists|i: int|
            0 <= i < fields.len() && ((#[trigger] fields[i]).0 == "nativeEvaluations"@ || evaluated(fields[i].1)),
        _ => false,
    }
}

proof fn lemma_lookup_some(fields: Seq<(Seq<char>, JsonView)>, key: Seq<char>, i: int)
    requires
        0 <= i < fields.len(),
        fields[i].0 == key,
    ensures
        lookup(fields, key) is Some,
    decreases fields.len(),
{
    if fields[0].0 != key {
        assert(fields.skip(1)[i - 1] == fields[i]);
        lemma_lookup_some(fields.skip(1), key, i - 1);
    }
}

proof fn lemma_drop_field(fields: Seq<(Seq<char>, JsonView)>, key: Seq<char>, p: spec_fn(JsonView) -> bool)
    requires
        forall|i: int| 0 <= i < fields.len() ==> p((#[trigger] fields[i]).1),
    ensures
        forall|i: int|
            0 <= i < drop_field(fields, key).len() ==> (#[trigger] drop_field(fields, key)[i]).0 != key && p(
                drop_field(fields, key)[i].1,
            ),
    decreases fields.len(),
{
    if fields.len() > 0 {
        assert forall|i: int| 0 <= i < fields.drop_last().len() implies p((#[trigger] fields.drop_last()[i]).1) by {
            assert(fields.drop_last()[i] == fields[i]);
        }
        assert(p(fields[fields.len() - 1].1));
        lemma_drop_field(fields.drop_last(), key, p);
        let before = drop_field(fields.drop_last(), key);
        let r = drop_field(fields, key);
        assert forall|i: int| 0 <= i < r.len() implies (#[trigger] r[i]).0 != key && p(r[i].1) by {
            if i < before.len() {
                assert(r[i] == before[i]);
            }
        }
    }
}

proof fn lemma_insert_field(
    fields: Seq<(Seq<char>, JsonView)>,
    key: Seq<char>,
    value: JsonView,
    other: Seq<char>,
    p: spec_fn(JsonView) -> bool,
)
    requires
        forall|i: int| 0 <= i < fields.len() ==> (#[trigger] fields[i]).0 != other && p(fields[i].1),
        p(value),
        key != other,
    ensures
        ({
            let r = crate::json::insert_field(fields, key, value);
            forall|i: int| 0 <= i < r.len() ==> (#[trigger] r[i]).0 != other && p(r[i].1)
        }),
    decreases fields.len(),
{
    if fields.len() > 0 {
        assert forall|i: int| 0 <= i < fields.skip(1).len() implies (#[trigger] fields.skip(1)[i]).0 != other && p(
            fields.skip(1)[i].1,
        ) by {
            assert(fields.skip(1)[i] == fields[i + 1]);
        }
        assert(fields[0].0 != other && p(fields[0].1));
        lemma_insert_field(fields.skip(1), key, value, other, p);
    }
    let r = crate::json::insert_field(fields, key, value);
    assert forall|i: int| 0 <= i < r.len() implies (#[trigger] r[i]).0 != other && p(r[i].1) by {
        if fields.len() == 0 {
        } else if fields[0].0 == key {
            if i > 0 {
                assert(r[i] == fields[i]);
            }
        } else if crate::text::text_lt(key, fields[0].0) {
            if i > 0 {
                assert(r[i] == fields[i - 1]);
            }
        } else if i > 0 {
            assert(r[i] == crate::json::insert_field(fields.skip(1), key, value)[i - 1]);
        }
    }
}

/// Nothing that was compacted holds native evaluations.
pub proof fn compaction_is_complete(j: JsonView)
    ensures
        !evaluated(compacted(j)),
    decreases j,
{
    reveal_strlit("nativeEvaluations");
    reveal_strlit("nativeObservationCount");
    match j {
        JsonView::Array(items) => {
            assert forall|i: int| 0 <= i < items.len() implies !evaluated(#[trigger] compacted(j)->Array_0[i]) by {
                compaction_is_complete(items[i]);
            }
        },
        JsonView::Object(fields) => {
            let inner = compact_fields(fields);
            let p = |v: JsonView| !evaluated(v);
            assert forall|i: int| 0 <= i < inner.len() implies p((#[trigger] inner[i]).1) by {
                compaction_is_complete(fields[i].1);
            }
            match lookup(fields, "nativeEvaluations"@) {
                Some(e) => {
                    lemma_drop_field(inner, "nativeEvaluations"@, p);
                    assert("nativeObservationCount"@.len() != "nativeEvaluations"@.len());
                    lemma_insert_field(
                        drop_field(inner, "nativeEvaluations"@),
                        "nativeObservationCount"@,
                        JsonView::Unsigned(array_len(e) as u64),
                        "nativeEvaluations"@,
                        p,
                    );
                    let r = compacted(j)->Object_0;
                    assert forall|i: int| 0 <= i < r.len() implies !((#[trigger] r[i]).0 == "nativeEvaluations"@
                        || evaluated(r[i].1)) by {
                        assert(p(r[i].1));
                    }
                },
                None => {
                    assert forall|i: int| 0 <= i < inner.len() implies !((#[trigger] inner[i]).0
                        == "nativeEvaluations"@ || evaluated(inner[i].1)) by {
                        assert(p(inner[i].1));
                        if fields[i].0 == "nativeEvaluations"@ {
                            lemma_lookup_some(fields, "nativeEvaluations"@, i);
                        }
                    }
                },
            }
        },
        _ => {},
    }
}

/// A document without native evaluations is not changed by compacting it.
pub proof fn compaction_changes_nothing_else(j: JsonView)
    requires
        !evaluated(j),
    ensures
        compacted(j) == j,
    decreases j,
{
    match j {
        JsonView::Array(items) => {
            assert forall|i: int| 0 <= i < items.len() implies compacted(#[trigger] items[i]) == items[i] by {
                compaction_changes_nothing_else(items[i]);
            }
            assert(compacted(j)->Array_0 =~= items);
        },
        JsonView::Object(fields) => {
            assert forall|i: int| 0 <= i < fields.len() implies compacted((#[trigger] fields[i]).1) == fields[i].1 by {
                compaction_changes_nothing_else(fields[i].1);
            }
            if lookup(fields, "nativeEvaluations"@) is Some {
                let i = lemma_lookup_at(fields, "nativeEvaluations"@);
                assert(fields[i].0 == "nativeEvaluations"@);
            }
            assert(compacted(j)->Object_0 =~= fields);
        },
        _ => {},
    }
}

fn compacted_json(j: &Json) -> (r: (Json, bool))
    ensures
        r.0@ == compacted(j@),
        r.1 == evaluated(j@),
    decreases j,
{
    match j {
        Json::Array(items) => {
            let mut out: Vec<Json> = Vec::new();
            let mut changed = false;
            let mut i: usize = 0;
            let ghost all = j@->Array_0;
            while i < items.len()
                invariant
                    i <= items.len(),
                    out@.len() == i,
                    *j == Json::Array(*items),
                    j@ == JsonView::Array(all),
                    all.len() == items@.len(),
                    forall|k: int| 0 <= k < all.len() ==> #[trigger] all[k] == items@[k]@,
                    forall|k: int| 0 <= k < i ==> (#[trigger] out@[k])@ == compacted(all[k]),
                    changed == exists|k: int| 0 <= k < i && evaluated(#[trigger] all[k]),
                decreases items.len() - i,
            {
                assert(decreases_to!(*j => j->Array_0));
                assert(decreases_to!(*j => items@[i as int]));
                let (c, x) = compacted_json(&items[i]);
                out.push(c);
                assert(all[i as int] == items@[i as int]@);
                if x {
                    assert(evaluated(all[i as int]));
                    changed = true;
                }
                i += 1;
            }
            let r = Json::Array(out);
            proof {
                assert(r@->Array_0 =~= compact_items(all));
            }
            (r, changed)
        },
        Json::Object(fields) => {
            let mut out: Vec<(String, Json)> = Vec::new();
            let mut changed = false;
            let mut i: usize = 0;
            let ghost all = j@->Object_0;
            let ghost inner = compact_fields(all);
            let listed = j.get("nativeEvaluations");
            let drop = listed.is_some();
            let count: u64 = match listed {
                Some(Json::Array(v)) => v.len() as u64,
                _ => 0,
            };
            proof {
                if listed is Some {
                    assert(array_len(lookup(all, "nativeEvaluations"@)->0) as u64 == count);
                }
                assert(inner.take(0) =~= Seq::empty());
            }
            while i < fields.len()
                invariant
                    i <= fields.len(),
                    *j == Json::Object(*fields),
                    j@ == JsonView::Object(all),
                    all.len() == fields@.len(),
                    inner.len() == all.len(),
                    drop == (lookup(all, "nativeEvaluations"@) is Some),
                    forall|k: int|
                        0 <= k < all.len() ==> (#[trigger] all[k]).0 == fields@[k].0@ && all[k].1 == fields@[k].1@,
                    forall|k: int|
                        0 <= k < all.len() ==> (#[trigger] inner[k]) == (all[k].0, compacted(all[k].1)),
                    object_fields(out@) == (if drop {
                        drop_field(inner.take(i as int), "nativeEvaluations"@)
                    } else {
                        inner.take(i as int)
                    }),
                    changed == exists|k: int|
                        0 <= k < i && ((#[trigger] all[k]).0 == "nativeEvaluations"@ || evaluated(all[k].1)),
                decreases fields.len() - i,
            {
                assert(decreases_to!(*j => j->Object_0));
                assert(decreases_to!(*j => fields@[i as int]));
                let named = str_eq(fields[i].0.as_str(), "nativeEvaluations");
                let (c, x) = compacted_json(&fields[i].1);
                proof {
                    assert(inner.take(i + 1).drop_last() =~= inner.take(i as int));
                    assert(inner.take(i + 1).last() == inner[i as int]);
                    assert(inner.take(i + 1) =~= inner.take(i as int).push(inner[i as int]));
                    if named {
                        lemma_lookup_some(all, "nativeEvaluations"@, i as int);
                    }
                    assert(all[i as int].0 == fields@[i as int].0@);
                }
                if !named {
                    let ghost before = out@;
                    out.push((fields[i].0.clone(), c));
                    assert(object_fields(out@) =~= object_fields(before).push(inner[i as int]));
                }
                if named || x {
                    changed = true;
                }
                i += 1;
            }
            proof {
                assert(inner.take(inner.len() as int) =~= inner);
            }
            let mut r = Json::Object(out);
            proof {
                assert(r@->Object_0 =~= object_fields(out@));
            }
            if drop {
                r.set("nativeObservationCount", Json::Unsigned(count));
            }
            (r, changed)
        },
        _ => (j.copy(), false),
    }
}

/// What the fields of an object hold.
pub open spec fn object_fields(fields: Seq<(String, Json)>) -> Seq<(Seq<char>, JsonView)> {
    fields.map_values(|f: (String, Json)| (f.0@, f.1@))
}

/// Replaces each list of native evaluations in a document by their number, and says whether there
/// was one.
pub fn compact_value(value: &mut Json) -> (r: bool)
    ensures
        final(value)@ == compacted(old(value)@),
        r == evaluated(old(value)@),
{
    let (j, changed) = compacted_json(value);
    *value = j;
    changed
}

/// Whether an element of a window is part of a menu.
pub open spec fn in_menu(j: JsonView) -> bool {
    match j.get_str("role"@) {
        Some(r) => r == "AXMenuBar"@ || r == "AXMenuBarItem"@ || r == "AXMenu"@ || r == "AXMenuItem"@,
        None => false,
    }
}

/// Names with one more, unless it is blank, there already or there are enough.
pub open spec fn add_name(names: Seq<Seq<char>>, text: Option<Seq<char>>, limit: nat) -> Seq<Seq<char>> {
    match text {
        Some(t) => if names.len() >= limit || trim_view(t).len() == 0 || names.contains(trim_view(t)) {
            names
        } else {
            names.push(trim_view(t))
        },
        None => names,
    }
}

/// The accessible names of an element and of those in it, in their order, without menus.
pub open spec fn names_in(j: JsonView, names: Seq<Seq<char>>, limit: nat) -> Seq<Seq<char>>
    decreases j, 0nat,
{
    if names.len() >= limit || in_menu(j) {
        names
    } else {
        let a = add_name(names, j.get_str("title"@), limit);
        let b = add_name(a, j.get_str("value"@), limit);
        let c = add_name(b, j.get_str("description"@), limit);
        match j.get("children"@) {
            Some(children) => {
                proof {
                    lemma_field_is_smaller(j, "children"@);
                }
                names_in_list(children, c, limit, array_len(children))
            },
            None => c,
        }
    }
}

/// The accessible names of the first `n` elements of a list.
pub open spec fn names_in_list(children: JsonView, names: Seq<Seq<char>>, limit: nat, n: nat) -> Seq<Seq<char>>
    decreases children, n,
{
    match children {
        JsonView::Array(items) => if n == 0 || n > items.len() {
            names
        } else {
            names_in(items[n - 1], names_in_list(children, names, limit, (n - 1) as nat), limit)
        },
        _ => names,
    }
}

/// A field of a document is smaller than the document.
pub proof fn lemma_field_is_smaller(j: JsonView, key: Seq<char>)
    ensures
        j.get(key) matches Some(v) ==> decreases_to!(j => v),
{
    if j.get(key) is Some {
        let fields = j->Object_0;
        let i = lemma_lookup_at(fields, key);
        assert(decreases_to!(j => j->Object_0));
        assert(decreases_to!(j => fields[i]));
        assert(decreases_to!(j => fields[i].1));
    }
}

fn note_name(text: Option<&str>, names: &mut Vec<String>, limit: usize)
    ensures
        views(final(names)@) == add_name(
            views(old(names)@),
            match text {
                Some(t) => Some(t@),
                None => None,
            },
            limit as nat,
        ),
{
    if let Some(t) = text {
        let t = trim(t);
        if names.len() < limit && !t.as_str().is_empty() && !list_has(names, t.as_str()) {
            let ghost before = names@;
            names.push(t);
            assert(views(names@) =~= views(before).push(t@));
        }
    }
}

/// Collects the accessible names of an element of a window and of those in it, up to a limit.
pub fn collect_native_accessible_names(value: &Json, names: &mut Vec<String>, limit: usize)
    ensures
        views(final(names)@) == names_in(value@, views(old(names)@), limit as nat),
    decreases value@, 0nat,
{
    if names.len() >= limit {
        return;
    }
    if let Some(role) = value.get_str("role") {
        if str_eq(role, "AXMenuBar") || str_eq(role, "AXMenuBarItem") || str_eq(role, "AXMenu") || str_eq(
            role,
            "AXMenuItem",
        ) {
            return;
        }
    }
    note_name(value.get_str("title"), names, limit);
    note_name(value.get_str("value"), names, limit);
    note_name(value.get_str("description"), names, limit);
    if let Some(children) = value.get("children") {
        proof {
            lemma_field_is_smaller(value@, "children"@);
        }
        collect_list(children, names, limit);
    }
}

fn collect_list(children: &Json, names: &mut Vec<String>, limit: usize)
    ensures
        views(final(names)@) == names_in_list(children@, views(old(names)@), limit as nat, array_len(children@)),
    decreases children@, 1nat,
{
    match children {
        Json::Array(items) => {
            let ghost start = views(names@);
            let ghost all = children@->Array_0;
            assert(all =~= json_views(items@));
            let mut i: usize = 0;
            while i < items.len()
                invariant
                    i <= items.len(),
                    children@ == JsonView::Array(all),
                    all == json_views(items@),
                    views(names@) == names_in_list(children@, start, limit as nat, i as nat),
                decreases items.len() - i,
            {
                proof {
                    assert(decreases_to!(children@ => children@->Array_0));
                    assert(decreases_to!(children@ => all[i as int]));
                    assert(all[i as int] == items@[i as int]@);
                }
                collect_native_accessible_names(&items[i], names, limit);
                i += 1;
            }
        },
        _ => {},
    }
}

/// A list of texts as a document.
pub open spec fn texts_view(names: Seq<Seq<char>>) -> JsonView {
    JsonView::Array(names.map_values(|s: Seq<char>| JsonView::Text(s)))
}

/// What is kept of a window.
pub open spec fn window_kept(w: JsonView) -> JsonView {
    JsonView::obj().plus("accessibleNames"@, texts_view(names_in(w, Seq::empty(), 128))).plus(
        "description"@,
        w.get_or_null("description"@),
    ).plus("role"@, w.get_or_null("role"@)).plus("title"@, w.get_or_null("title"@)).plus(
        "value"@,
        w.get_or_null("value"@),
    )
}

/// The items of a field that is an array; none for anything else.
pub open spec fn items_of(j: JsonView, key: Seq<char>) -> Seq<JsonView> {
    match j.get_array(key) {
        Some(items) => items,
        None => Seq::empty(),
    }
}

/// What is kept of a process.
pub open spec fn process_kept(p: JsonView) -> JsonView {
    JsonView::obj().plus("pid"@, p.get_or_null("pid"@)).plus(
        "windows"@,
        JsonView::Array(items_of(p, "windows"@).map_values(|w: JsonView| window_kept(w))),
    )
}

/// A field of a document, or another value where it is not there.
pub open spec fn field_or(j: JsonView, key: Seq<char>, default: JsonView) -> JsonView {
    match j.get(key) {
        Some(v) => v,
        None => default,
    }
}

/// What is kept of the inspection of the windows of an application.
pub open spec fn inspection_kept(result: JsonView) -> JsonView {
    let inspection = result.get_or_null("inspection"@);
    let processes = items_of(inspection, "processes"@);
    JsonView::obj().plus("applicationPath"@, result.get_or_null("applicationPath"@)).plus(
        "inspectedAt"@,
        result.get_or_null("inspectedAt"@),
    ).plus(
        "inspection"@,
        JsonView::obj().plus(
            "accessibilityTrusted"@,
            field_or(inspection, "accessibilityTrusted"@, JsonView::Bool(false)),
        ).plus("processCount"@, JsonView::Unsigned(processes.len() as u64)).plus(
            "processes"@,
            JsonView::Array(processes.map_values(|p: JsonView| process_kept(p))),
        ),
    ).plus("pids"@, field_or(result, "pids"@, JsonView::Array(Seq::empty())))
}

/// What is kept of the output of a capability: of an inspection its summary, of any other all.
pub open spec fn retained(capability: Seq<char>, result: JsonView) -> JsonView {
    if capability == "ui.native-inspect"@ {
        inspection_kept(result)
    } else {
        result
    }
}

fn keep_window(w: &Json) -> (r: Json)
    ensures
        r@ == window_kept(w@),
{
    let mut names: Vec<String> = Vec::new();
    assert(views(names@) =~= Seq::empty());
    collect_native_accessible_names(w, &mut names, 128);
    let listed = Json::texts(&names);
    proof {
        assert(listed@ == texts_view(views(names@))) by {
            assert(listed@->Array_0 =~= texts_view(views(names@))->Array_0);
        }
    }
    Json::obj().plus("accessibleNames", listed).plus("description", w.copy_or_null("description")).plus(
        "role",
        w.copy_or_null("role"),
    ).plus("title", w.copy_or_null("title")).plus("value", w.copy_or_null("value"))
}

fn keep_process(p: &Json) -> (r: Json)
    ensures
        r@ == process_kept(p@),
{
    let mut windows: Vec<Json> = Vec::new();
    let ghost all = items_of(p@, "windows"@);
    if let Some(items) = p.get_array("windows") {
        let mut i: usize = 0;
        while i < items.len()
            invariant
                i <= items.len(),
                all == json_views(items@),
                windows@.len() == i,
                forall|k: int| 0 <= k < i ==> (#[trigger] windows@[k])@ == window_kept(all[k]),
            decreases items.len() - i,
        {
            windows.push(keep_window(&items[i]));
            i += 1;
        }
    }
    let listed = Json::array(windows);
    proof {
        assert(listed@->Array_0 =~= all.map_values(|w: JsonView| window_kept(w)));
    }
    Json::obj().plus("pid", p.copy_or_null("pid")).plus("windows", listed)
}

/// What is kept of the output of a capability.
pub fn retained_task_output(capability: &str, result: &Json) -> (r: Json)
    ensures
        r@ == retained(capability@, result@),
{
    if !str_eq(capability, "ui.native-inspect") {
        return result.copy();
    }
    let inspection = result.copy_or_null("inspection");
    let ghost all = items_of(inspection@, "processes"@);
    let mut kept: Vec<Json> = Vec::new();
    let mut count: u64 = 0;
    if let Some(items) = inspection.get_array("processes") {
        count = items.len() as u64;
        let mut i: usize = 0;
        while i < items.len()
            invariant
                i <= items.len(),
                all == json_views(items@),
                kept@.len() == i,
                forall|k: int| 0 <= k < i ==> (#[trigger] kept@[k])@ == process_kept(all[k]),
            decreases items.len() - i,
        {
            kept.push(keep_process(&items[i]));
            i += 1;
        }
    }
    let listed = Json::array(kept);
    proof {
        assert(listed@->Array_0 =~= all.map_values(|p: JsonView| process_kept(p)));
    }
    let trusted = match inspection.get("accessibilityTrusted") {
        Some(v) => v.copy(),
        None => Json::Bool(false),
    };
    let pids = match result.get("pids") {
        Some(v) => v.copy(),
        None => Json::array(Vec::new()),
    };
    proof {
        assert(result@.get("pids"@) is None ==> pids@->Array_0 =~= Seq::<JsonView>::empty());
    }
    Json::obj().plus("applicationPath", result.copy_or_null("applicationPath")).plus(
        "inspectedAt",
        result.copy_or_null("inspectedAt"),
    ).plus(
        "inspection",
        Json::obj().plus("accessibilityTrusted", trusted).plus("processCount", Json::Unsigned(count)).plus(
            "processes",
            listed,
        ),
    ).plus("pids", pids)
}

/// A failure with its details compacted.
pub open spec fn compacted_failure(f: Option<TaskFailureView>) -> Option<TaskFailureView> {
    match f {
        Some(e) => Some(TaskFailureView { details: compacted(e.details), ..e }),
        None => None,
    }
}

/// Whether the details of a failure hold native evaluations.
pub open spec fn failure_stale(f: Option<TaskFailureView>) -> bool {
    f matches Some(e) && evaluated(e.details)
}

fn compact_failure(f: &mut Option<TaskFailure>) -> (r: bool)
    ensures
        opt_failure(*final(f)) == compacted_failure(opt_failure(*old(f))),
        r == failure_stale(opt_failure(*old(f))),
{
    match f {
        Some(e) => compact_value(&mut e.details),
        None => false,
    }
}

/// A task with its input, its output and its failure compacted.
pub open spec fn compacted_task(t: TaskView) -> TaskView {
    TaskView {
        input: compacted(t.input),
        output: match t.output {
            Some(o) => Some(compacted(retained(t.capability, o))),
            None => None,
        },
        error: compacted_failure(t.error),
        ..t
    }
}

/// Whether compacting a task changes it.
pub open spec fn task_stale(t: TaskView) -> bool {
    ||| t.output matches Some(o) && (retained(t.capability, o) != o || evaluated(retained(t.capability, o)))
    ||| evaluated(t.input)
    ||| failure_stale(t.error)
}

/// Reduces a task to what is kept of it, and says whether that changed it.
pub fn compact_task(t: &mut Task) -> (r: bool)
    ensures
        final(t)@ == compacted_task(old(t)@),
        r == task_stale(old(t)@),
{
    let mut changed = false;
    if let Some(output) = &t.output {
        let kept = retained_task_output(t.capability.as_str(), output);
        if !kept.same(output) {
            changed = true;
        }
        let mut kept = kept;
        if compact_value(&mut kept) {
            changed = true;
        }
        t.output = Some(kept);
    }
    if compact_value(&mut t.input) {
        changed = true;
    }
    if compact_failure(&mut t.error) {
        changed = true;
    }
    changed
}

/// Whether an entry of a journal is another with its details compacted.
pub open spec fn entry_compacted(after: TransactionJournalEntry, before: TransactionJournalEntry) -> bool {
    after.details@ == compacted(before.details@) && after == (TransactionJournalEntry {
        details: after.details,
        ..before
    })
}

/// Whether a transaction is another with the details of its journal and its failure compacted.
pub open spec fn transaction_compacted(after: ActivationTransaction, before: ActivationTransaction) -> bool {
    &&& after.journal@.len() == before.journal@.len()
    &&& forall|i: int|
        0 <= i < before.journal@.len() ==> entry_compacted(#[trigger] after.journal@[i], before.journal@[i])
    &&& opt_failure(after.error) == compacted_failure(opt_failure(before.error))
    &&& after == (ActivationTransaction { journal: after.journal, error: after.error, ..before })
}

/// Whether compacting a transaction changes it.
pub open spec fn transaction_stale(t: ActivationTransaction) -> bool {
    ||| exists|i: int| 0 <= i < t.journal@.len() && evaluated((#[trigger] t.journal@[i]).details@)
    ||| failure_stale(opt_failure(t.error))
}

fn compact_transaction(t: &mut ActivationTransaction) -> (r: bool)
    ensures
        transaction_compacted(*final(t), *old(t)),
        r == transaction_stale(*old(t)),
{
    let ghost start = *t;
    let mut changed = false;
    let mut i: usize = 0;
    while i < t.journal.len()
        invariant
            i <= t.journal.len(),
            t.journal@.len() == start.journal@.len(),
            *t == (ActivationTransaction { journal: t.journal, ..start }),
            forall|k: int| 0 <= k < i ==> entry_compacted(#[trigger] t.journal@[k], start.journal@[k]),
            forall|k: int| i <= k < start.journal@.len() ==> #[trigger] t.journal@[k] == start.journal@[k],
            changed == exists|k: int| 0 <= k < i && evaluated((#[trigger] start.journal@[k]).details@),
        decreases t.journal.len() - i,
    {
        let x = compact_value(&mut t.journal[i].details);
        if x {
            assert(evaluated(start.journal@[i as int].details@));
            changed = true;
        }
        i += 1;
    }
    if compact_failure(&mut t.error) {
        changed = true;
    }
    changed
}

/// Whether a piece of evidence is another with its details compacted.
pub open spec fn result_compacted(after: Option<EvidenceResult>, before: Option<EvidenceResult>) -> bool {
    match (after, before) {
        (Some(a), Some(b)) => a.details@ == compacted(b.details@) && a == (EvidenceResult { details: a.details, ..b }),
        (None, None) => true,
        _ => false,
    }
}

/// Whether the details of a piece of evidence hold native evaluations.
pub open spec fn result_stale(e: Option<EvidenceResult>) -> bool {
    e matches Some(x) && evaluated(x.details@)
}

fn compact_result(e: &mut Option<EvidenceResult>) -> (r: bool)
    ensures
        result_compacted(*final(e), *old(e)),
        r == result_stale(*old(e)),
{
    match e {
        Some(x) => compact_value(&mut x.details),
        None => false,
    }
}

/// Whether a generation is another with its evidence and its failure compacted.
pub open spec fn generation_compacted(after: Generation, before: Generation) -> bool {
    &&& result_compacted(after.validation, before.validation)
    &&& result_compacted(after.finalization, before.finalization)
    &&& result_compacted(after.smoke, before.smoke)
    &&& opt_failure(after.failure) == compacted_failure(opt_failure(before.failure))
    &&& after == (Generation {
        validation: after.validation,
        finalization: after.finalization,
        smoke: after.smoke,
        failure: after.failure,
        ..before
    })
}

/// Whether compacting a generation changes it.
pub open spec fn generation_stale(g: Generation) -> bool {
    result_stale(g.validation) || result_stale(g.finalization) || result_stale(g.smoke) || failure_stale(
        opt_failure(g.failure),
    )
}

fn compact_generation(g: &mut Generation) -> (r: bool)
    ensures
        generation_compacted(*final(g), *old(g)),
        r == generation_stale(*old(g)),
{
    let a = compact_result(&mut g.validation);
    let b = compact_result(&mut g.finalization);
    let c = compact_result(&mut g.smoke);
    let d = compact_failure(&mut g.failure);
    a || b || c || d
}

/// Whether a handoff is another with its evidence compacted.
pub open spec fn handoff_compacted(after: Handoff, before: Handoff) -> bool {
    &&& after.evidence@.len() == before.evidence@.len()
    &&& forall|i: int|
        0 <= i < before.evidence@.len() ==> (#[trigger] after.evidence@[i])@ == compacted(before.evidence@[i]@)
    &&& after == (Handoff { evidence: after.evidence, ..before })
}

/// Whether compacting a handoff changes it.
pub open spec fn handoff_stale(h: Handoff) -> bool {
    exists|i: int| 0 <= i < h.evidence@.len() && evaluated((#[trigger] h.evidence@[i])@)
}

fn compact_handoff(h: &mut Handoff) -> (r: bool)
    ensures
        handoff_compacted(*final(h), *old(h)),
        r == handoff_stale(*old(h)),
{
    let ghost start = *h;
    let mut changed = false;
    let mut i: usize = 0;
    while i < h.evidence.len()
        invariant
            i <= h.evidence.len(),
            h.evidence@.len() == start.evidence@.len(),
            *h == (Handoff { evidence: h.evidence, ..start }),
            forall|k: int| 0 <= k < i ==> (#[trigger] h.evidence@[k])@ == compacted(start.evidence@[k]@),
            forall|k: int| i <= k < start.evidence@.len() ==> #[trigger] h.evidence@[k] == start.evidence@[k],
            changed == exists|k: int| 0 <= k < i && evaluated((#[trigger] start.evidence@[k])@),
        decreases h.evidence.len() - i,
    {
        let x = compact_value(&mut h.evidence[i]);
        if x {
            assert(evaluated(start.evidence@[i as int]@));
            changed = true;
        }
        i += 1;
    }
    changed
}

/// Whether an agent is another with its metadata compacted.
pub open spec fn agent_compacted(after: AgentInstance, before: AgentInstance) -> bool {
    after.metadata@ == compacted(before.metadata@) && after == (AgentInstance { metadata: after.metadata, ..before })
}

/// Whether the stored records are others that were compacted.
pub open spec fn state_compacted(after: WorkbenchState, before: WorkbenchState) -> bool {
    &&& after.tasks@.len() == before.tasks@.len()
    &&& forall|i: int| 0 <= i < before.tasks@.len() ==> (#[trigger] after.tasks@[i])@ == compacted_task(before.tasks@[i]@)
    &&& after.transactions@.len() == before.transactions@.len()
    &&& forall|i: int|
        0 <= i < before.transactions@.len() ==> transaction_compacted(
            #[trigger] after.transactions@[i],
            before.transactions@[i],
        )
    &&& after.generations@.len() == before.generations@.len()
    &&& forall|i: int|
        0 <= i < before.generations@.len() ==> generation_compacted(
            #[trigger] after.generations@[i],
            before.generations@[i],
        )
    &&& after.handoffs@.len() == before.handoffs@.len()
    &&& forall|i: int|
        0 <= i < before.handoffs@.len() ==> handoff_compacted(#[trigger] after.handoffs@[i], before.handoffs@[i])
    &&& after.agents@.len() == before.agents@.len()
    &&& forall|i: int| 0 <= i < before.agents@.len() ==> agent_compacted(#[trigger] after.agents@[i], before.agents@[i])
    &&& after == (WorkbenchState {
        tasks: after.tasks,
        transactions: after.transactions,
        generations: after.generations,
        handoffs: after.handoffs,
        agents: after.agents,
        ..before
    })
}

/// Whether compacting the stored records changes one of them.
pub open spec fn state_stale(s: WorkbenchState) -> bool {
    ||| exists|i: int| 0 <= i < s.tasks@.len() && task_stale((#[trigger] s.tasks@[i])@)
    ||| exists|i: int| 0 <= i < s.transactions@.len() && transaction_stale(#[trigger] s.transactions@[i])
    ||| exists|i: int| 0 <= i < s.generations@.len() && generation_stale(#[trigger] s.generations@[i])
    ||| exists|i: int| 0 <= i < s.handoffs@.len() && handoff_stale(#[trigger] s.handoffs@[i])
    ||| exists|i: int| 0 <= i < s.agents@.len() && evaluated((#[trigger] s.agents@[i]).metadata@)
}

fn compact_tasks(items: &mut Vec<Task>) -> (r: bool)
    ensures
        final(items)@.len() == old(items)@.len(),
        forall|i: int|
            0 <= i < old(items)@.len() ==> (#[trigger] final(items)@[i])@ == compacted_task(old(items)@[i]@),
        r == exists|i: int| 0 <= i < old(items)@.len() && task_stale((#[trigger] old(items)@[i])@),
{
    let ghost start = items@;
    let mut changed = false;
    let mut i: usize = 0;
    while i < items.len()
        invariant
            i <= items.len(),
            items@.len() == start.len(),
            forall|k: int| 0 <= k < i ==> (#[trigger] items@[k])@ == compacted_task(start[k]@),
            forall|k: int| i <= k < start.len() ==> #[trigger] items@[k] == start[k],
            changed == exists|k: int| 0 <= k < i && task_stale((#[trigger] start[k])@),
        decreases items.len() - i,
    {
        let x = compact_task(&mut items[i]);
        if x {
            assert(task_stale(start[i as int]@));
            changed = true;
        }
        i += 1;
    }
    changed
}

fn compact_transactions(items: &mut Vec<ActivationTransaction>) -> (r: bool)
    ensures
        final(items)@.len() == old(items)@.len(),
        forall|i: int|
            0 <= i < old(items)@.len() ==> transaction_compacted(#[trigger] final(items)@[i], old(items)@[i]),
        r == exists|i: int| 0 <= i < old(items)@.len() && transaction_stale(#[trigger] old(items)@[i]),
{
    let ghost start = items@;
    let mut changed = false;
    let mut i: usize = 0;
    while i < items.len()
        invariant
            i <= items.len(),
            items@.len() == start.len(),
            forall|k: int| 0 <= k < i ==> transaction_compacted(#[trigger] items@[k], start[k]),
            forall|k: int| i <= k < start.len() ==> #[trigger] items@[k] == start[k],
            changed == exists|k: int| 0 <= k < i && transaction_stale(#[trigger] start[k]),
        decreases items.len() - i,
    {
        let x = compact_transaction(&mut items[i]);
        if x {
            assert(transaction_stale(start[i as int]));
            changed = true;
        }
        i += 1;
    }
    changed
}

fn compact_generations(items: &mut Vec<Generation>) -> (r: bool)
    ensures
        final(items)@.len() == old(items)@.len(),
        forall|i: int|
            0 <= i < old(items)@.len() ==> generation_compacted(#[trigger] final(items)@[i], old(items)@[i]),
        r == exists|i: int| 0 <= i < old(items)@.len() && generation_stale(#[trigger] old(items)@[i]),
{
    let ghost start = items@;
    let mut changed = false;
    let mut i: usize = 0;
    while i < items.len()
        invariant
            i <= items.len(),
            items@.len() == start.len(),
            forall|k: int| 0 <= k < i ==> generation_compacted(#[trigger] items@[k], start[k]),
            forall|k: int| i <= k < start.len() ==> #[trigger] items@[k] == start[k],
            changed == exists|k: int| 0 <= k < i && generation_stale(#[trigger] start[k]),
        decreases items.len() - i,
    {
        let x = compact_generation(&mut items[i]);
        if x {
            assert(generation_stale(start[i as int]));
            changed = true;
        }
        i += 1;
    }
    changed
}

fn compact_handoffs(items: &mut Vec<Handoff>) -> (r: bool)
    ensures
        final(items)@.len() == old(items)@.len(),
        forall|i: int| 0 <= i < old(items)@.len() ==> handoff_compacted(#[trigger] final(items)@[i], old(items)@[i]),
        r == exists|i: int| 0 <= i < old(items)@.len() && handoff_stale(#[trigger] old(items)@[i]),
{
    let ghost start = items@;
    let mut changed = false;
    let mut i: usize = 0;
    while i < items.len()
        invariant
            i <= items.len(),
            items@.len() == start.len(),
            forall|k: int| 0 <= k < i ==> handoff_compacted(#[trigger] items@[k], start[k]),
            forall|k: int| i <= k < start.len() ==> #[trigger] items@[k] == start[k],
            changed == exists|k: int| 0 <= k < i && handoff_stale(#[trigger] start[k]),
        decreases items.len() - i,
    {
        let x = compact_handoff(&mut items[i]);
        if x {
            assert(handoff_stale(start[i as int]));
            changed = true;
        }
        i += 1;
    }
    changed
}

fn compact_agents(items: &mut Vec<AgentInstance>) -> (r: bool)
    ensures
        final(items)@.len() == old(items)@.len(),
        forall|i: int| 0 <= i < old(items)@.len() ==> agent_compacted(#[trigger] final(items)@[i], old(items)@[i]),
        r == exists|i: int| 0 <= i < old(items)@.len() && evaluated((#[trigger] old(items)@[i]).metadata@),
{
    let ghost start = items@;
    let mut changed = false;
    let mut i: usize = 0;
    while i < items.len()
        invariant
            i <= items.len(),
            items@.len() == start.len(),
            forall|k: int| 0 <= k < i ==> agent_compacted(#[trigger] items@[k], start[k]),
            forall|k: int| i <= k < start.len() ==> #[trigger] items@[k] == start[k],
            changed == exists|k: int| 0 <= k < i && evaluated((#[trigger] start[k]).metadata@),
        decreases items.len() - i,
    {
        let x = compact_value(&mut items[i].metadata);
        if x {
            assert(evaluated(start[i as int].metadata@));
            changed = true;
        }
        i += 1;
    }
    changed
}

/// Compacts the stored records, and says whether that changed one.
pub fn compact_persisted_evidence(state: &mut WorkbenchState) -> (r: bool)
    ensures
        state_compacted(*final(state), *old(state)),
        r == state_stale(*old(state)),
{
    let a = compact_tasks(&mut state.tasks);
    let b = compact_transactions(&mut state.transactions);
    let c = compact_generations(&mut state.generations);
    let d = compact_handoffs(&mut state.handoffs);
    let e = compact_agents(&mut state.agents);
    a || b || c || d || e
}

/// The part of a result that describes an artifact, for the capabilities that give one.
pub open spec fn described(capability: Seq<char>, result: JsonView) -> Option<JsonView> {
    if capability == "artifact.build"@ {
        result.get("artifact"@)
    } else if capability == "artifact.describe"@ || capability == "artifact.transfer"@ {
        Some(result)
    } else {
        None
    }
}

/// The path at which a described artifact lies.
pub open spec fn described_path(value: JsonView) -> Option<Seq<char>> {
    match value.get("path"@) {
        Some(p) => p.as_str(),
        None => value.get_str("destination"@),
    }
}

/// What an artifact that a task gave holds.
pub open spec fn artifact_of(
    a: Artifact,
    digest: Seq<char>,
    path: Seq<char>,
    value: JsonView,
    input: JsonView,
    session: Seq<char>,
    executor: Seq<char>,
    task: Seq<char>,
    now: u64,
) -> bool {
    &&& a.digest@ == digest
    &&& a.artifact_type@ == (match input.get_str("artifactType"@) {
        Some(t) => t,
        None => "generic"@,
    })
    &&& a.schema@ == "workbench.dev/artifact/v1"@
    &&& a.size == value.u64_or("size"@, 0)
    &&& a.locations@.len() == 1
    &&& a.locations@[0] matches ArtifactLocation::File { executor_id, path: p } && executor_id@ == executor && p@ == path
    &&& a.provenance.workspace_session_id@ == session
    &&& a.provenance.task_id matches Some(t) && t@ == task
    &&& views(a.provenance.source_digests@) == (match input.get_str("digest"@) {
        Some(d) => seq![d],
        None => Seq::empty(),
    })
    &&& a.created_at == now
}

/// The artifact that the result of a capability describes, where it describes one.
pub fn artifact_from_result(
    capability: &str,
    input: &Json,
    result: &Json,
    workspace_session_id: &str,
    executor_id: &str,
    task_id: &str,
    now: u64,
) -> (r: Option<Artifact>)
    ensures
        match described(capability@, result@) {
            None => r is None,
            Some(value) => match (value.get_str("digest"@), described_path(value)) {
                (Some(digest), Some(path)) => r matches Some(a) && artifact_of(
                    a,
                    digest,
                    path,
                    value,
                    input@,
                    workspace_session_id@,
                    executor_id@,
                    task_id@,
                    now,
                ),
                _ => r is None,
            },
        },
{
    let value = if str_eq(capability, "artifact.build") {
        match result.get("artifact") {
            Some(v) => v,
            None => return None,
        }
    } else if str_eq(capability, "artifact.describe") || str_eq(capability, "artifact.transfer") {
        result
    } else {
        return None;
    };
    let digest = match value.get_text("digest") {
        Some(d) => d,
        None => return None,
    };
    let path = match value.get("path") {
        Some(p) => match p.as_str() {
            Some(s) => s.to_owned(),
            None => return None,
        },
        None => match value.get_text("destination") {
            Some(s) => s,
            None => return None,
        },
    };
    let artifact_type = match input.get_text("artifactType") {
        Some(t) => t,
        None => "generic".to_owned(),
    };
    let mut source_digests: Vec<String> = Vec::new();
    if let Some(d) = input.get_text("digest") {
        source_digests.push(d);
        assert(views(source_digests@) =~= seq![d@]);
    } else {
        assert(views(source_digests@) =~= Seq::empty());
    }
    let mut locations: Vec<ArtifactLocation> = Vec::new();
    locations.push(ArtifactLocation::File { executor_id: executor_id.to_owned(), path });
    Some(
        Artifact {
            digest,
            artifact_type,
            schema: "workbench.dev/artifact/v1".to_owned(),
            size: value.u64_or("size", 0),
            locations,
            provenance: Provenance {
                workspace_session_id: workspace_session_id.to_owned(),
                task_id: Some(task_id.to_owned()),
                source_digests,
                attributes: BTreeMap::new(),
            },
            created_at: now,
        },
    )
}

/// An artifact is recorded with the digest and the place that the executor gave, and with the task
/// and the workspace session that made it.
pub proof fn artifact_tells_where_it_comes_from(
    a: Artifact,
    digest: Seq<char>,
    path: Seq<char>,
    value: JsonView,
    input: JsonView,
    session: Seq<char>,
    executor: Seq<char>,
    task: Seq<char>,
    now: u64,
)
    requires
        artifact_of(a, digest, path, value, input, session, executor, task, now),
    ensures
        a.digest@ == digest,
        a.locations@.len() == 1,
        a.locations@[0] matches ArtifactLocation::File { executor_id, path: p } && executor_id@ == executor && p@ == path,
        a.provenance.workspace_session_id@ == session,
        a.provenance.task_id matches Some(t) && t@ == task,
        value.get_u64("size"@) matches Some(n) ==> a.size == n,
        a.created_at == now,
{
}

/// A result is an artifact only of a capability that makes or moves one.
pub proof fn only_artifacts_are_recorded(capability: Seq<char>, result: JsonView)
    ensures
        described(capability, result) is Some ==> capability == "artifact.build"@ || capability == "artifact.describe"@
            || capability == "artifact.transfer"@,
        capability == "artifact.describe"@ || capability == "artifact.transfer"@ ==> described(capability, result) == Some(
            result,
        ),
        capability == "artifact.build"@ ==> described(capability, result) == result.get("artifact"@),
{
    reveal_strlit("artifact.build");
    reveal_strlit("artifact.describe");
    reveal_strlit("artifact.transfer");
    assert("artifact.build"@.len() == 14 && "artifact.describe"@.len() == 17 && "artifact.transfer"@.len() == 17);
}

/// What is kept of a task is its result, except for inspections of a desktop, of which a short form
/// is kept.
pub proof fn results_are_kept(capability: Seq<char>, result: JsonView)
    ensures
        capability != "ui.native-inspect"@ ==> retained(capability, result) == result,
        capability == "ui.native-inspect"@ ==> retained(capability, result) == inspection_kept(result),
{
}

/// Compacted records hold nothing that compacting would change in their inputs, journals and
/// results, and are the same records in the same places.
pub proof fn compacted_records_are_clean(after: WorkbenchState, before: WorkbenchState, i: int, k: int)
    requires
        state_compacted(after, before),
    ensures
        0 <= i < before.tasks@.len() ==> after.tasks@.len() == before.tasks@.len() && after.tasks@[i]@.id
            == before.tasks@[i]@.id && after.tasks@[i]@.state == before.tasks@[i]@.state && !evaluated(after.tasks@[i]@.input)
            && after.tasks@[i]@.output is Some == before.tasks@[i]@.output is Some && (after.tasks@[i]@.output matches Some(o)
            ==> !evaluated(o)) && (after.tasks@[i]@.error matches Some(e) ==> !evaluated(e.details)),
        0 <= i < before.agents@.len() ==> !evaluated(after.agents@[i].metadata@) && after.agents@[i].id
            == before.agents@[i].id && after.agents@[i].state == before.agents@[i].state,
        0 <= i < before.transactions@.len() && 0 <= k < before.transactions@[i].journal@.len() ==> !evaluated(
            after.transactions@[i].journal@[k].details@,
        ) && after.transactions@[i].id == before.transactions@[i].id,
        after.artifacts == before.artifacts,
        after.sessions == before.sessions,
{
    if 0 <= i < before.tasks@.len() {
        let t = before.tasks@[i]@;
        assert(after.tasks@[i]@ == compacted_task(t));
        compaction_is_complete(t.input);
        if let Some(o) = t.output {
            compaction_is_complete(retained(t.capability, o));
        }
        if let Some(e) = t.error {
            compaction_is_complete(e.details);
        }
    }
    if 0 <= i < before.agents@.len() {
        assert(agent_compacted(after.agents@[i], before.agents@[i]));
        compaction_is_complete(before.agents@[i].metadata@);
    }
    if 0 <= i < before.transactions@.len() {
        assert(transaction_compacted(after.transactions@[i], before.transactions@[i]));
        if 0 <= k < before.transactions@[i].journal@.len() {
            assert(entry_compacted(after.transactions@[i].journal@[k], before.transactions@[i].journal@[k]));
            compaction_is_complete(before.transactions@[i].journal@[k].details@);
        }
    }
}

} // verus!
