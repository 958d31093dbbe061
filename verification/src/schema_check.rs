//! Checking a document against the schema of a capability.
//!
//! Bounds on numbers that are not small integers are left open: they are handed to the caller,
//! which compares them as the floating-point numbers that they are.

use crate::codec::{encode, json_text};
use crate::json::{alike, lookup, Json, JsonView};
use crate::rpc::{fails, rpc_error, RpcError, RpcErrorView};
use crate::text::{concat3, concat4, decimal, str_eq, u64_text};
use vstd::prelude::*;

verus! {

/// A comparison that is left open: whether `value` is below, or above, a limit.
#[derive(Debug)]
pub struct Bound {
    pub path: String,
    /// Whether the limit is one that the value may not exceed.
    pub upper: bool,
    pub limit: Json,
    pub value: Json,
}

/// What an open comparison holds.
pub struct BoundView {
    pub path: Seq<char>,
    pub upper: bool,
    pub limit: JsonView,
    pub value: JsonView,
}

impl View for Bound {
    type V = BoundView;

    open spec fn view(&self) -> BoundView {
        BoundView { path: self.path@, upper: self.upper, limit: self.limit@, value: self.value@ }
    }
}

/// What a check found: the comparisons left open before the first failure, and the failure.
#[derive(Debug)]
pub struct SchemaReport {
    pub bounds: Vec<Bound>,
    pub failure: Option<RpcError>,
}

/// What a report holds.
pub struct ReportView {
    pub bounds: Seq<BoundView>,
    pub failure: Option<RpcErrorView>,
}

impl View for SchemaReport {
    type V = ReportView;

    open spec fn view(&self) -> ReportView {
        ReportView {
            bounds: self.bounds@.map_values(|b: Bound| b@),
            failure: match self.failure {
                Some(e) => Some(e@),
                None => None,
            },
        }
    }
}

/// The error that a document does not fit its schema.
pub open spec fn mismatch(path: Seq<char>, message: Seq<char>) -> RpcErrorView {
    rpc_error("SCHEMA_VALIDATION_FAILED"@, path + " "@ + message)
}

/// The error that a document does not fit its schema.
pub fn schema_error(path: &str, message: &str) -> (r: RpcError)
    ensures
        r@ == mismatch(path@, message@),
{
    let m = concat3(path, " ", message);
    RpcError::new("SCHEMA_VALIDATION_FAILED", m.as_str())
}

/// The report that finds nothing.
pub open spec fn clean() -> ReportView {
    ReportView { bounds: Seq::empty(), failure: None }
}

/// The report of one failure.
pub open spec fn failing(e: RpcErrorView) -> ReportView {
    ReportView { bounds: Seq::empty(), failure: Some(e) }
}

/// One report and, where it has no failure, another behind it.
pub open spec fn and_then(a: ReportView, b: ReportView) -> ReportView {
    if a.failure is Some {
        a
    } else {
        ReportView { bounds: a.bounds + b.bounds, failure: b.failure }
    }
}

/// Whether a value is of a type of the schema language.
pub open spec fn of_type(v: JsonView, kind: Seq<char>) -> bool {
    if kind == "null"@ {
        v is Null
    } else if kind == "boolean"@ {
        v is Bool
    } else if kind == "integer"@ {
        v is Unsigned || v is Negative
    } else if kind == "number"@ {
        v is Unsigned || v is Negative || v is Decimal
    } else if kind == "string"@ {
        v is Text
    } else if kind == "array"@ {
        v is Array
    } else if kind == "object"@ {
        v is Object
    } else {
        false
    }
}

/// Whether a value is of a type of the schema language.
pub fn value_matches_type(value: &Json, kind: &str) -> (r: bool)
    ensures
        r == of_type(value@, kind@),
{
    if str_eq(kind, "null") {
        matches!(value, Json::Null)
    } else if str_eq(kind, "boolean") {
        matches!(value, Json::Bool(_))
    } else if str_eq(kind, "integer") {
        matches!(value, Json::Unsigned(_) | Json::Negative(_))
    } else if str_eq(kind, "number") {
        matches!(value, Json::Unsigned(_) | Json::Negative(_) | Json::Decimal(_))
    } else if str_eq(kind, "string") {
        matches!(value, Json::Text(_))
    } else if str_eq(kind, "array") {
        matches!(value, Json::Array(_))
    } else if str_eq(kind, "object") {
        matches!(value, Json::Object(_))
    } else {
        false
    }
}

/// Whether a value is of one of the types that a schema names.
pub open spec fn of_types(v: JsonView, types: JsonView) -> bool {
    match types {
        JsonView::Text(kind) => of_type(v, kind),
        JsonView::Array(kinds) => exists|i: int|
            0 <= i < kinds.len() && ((#[trigger] kinds[i]) matches JsonView::Text(kind) && of_type(v, kind)),
        _ => false,
    }
}

fn matches_types(value: &Json, types: &Json) -> (r: bool)
    ensures
        r == of_types(value@, types@),
{
    match types {
        Json::Text(kind) => value_matches_type(value, kind.as_str()),
        Json::Array(kinds) => {
            let ghost all = types@->Array_0;
            let mut i: usize = 0;
            while i < kinds.len()
                invariant
                    i <= kinds.len(),
                    types@ == JsonView::Array(all),
                    *types == Json::Array(*kinds),
                    all.len() == kinds@.len(),
                    forall|k: int| 0 <= k < all.len() ==> #[trigger] all[k] == kinds@[k]@,
                    forall|k: int|
                        0 <= k < i ==> !((#[trigger] all[k]) matches JsonView::Text(kind) && of_type(value@, kind)),
                decreases kinds.len() - i,
            {
                if let Json::Text(kind) = &kinds[i] {
                    if value_matches_type(value, kind.as_str()) {
                        assert(all[i as int] == JsonView::Text(kind@));
                        return true;
                    }
                }
                assert(all[i as int] == kinds@[i as int]@);
                i += 1;
            }
            false
        },
        _ => false,
    }
}

/// The largest number up to which every integer is a floating-point number.
pub const EXACT: u64 = 9_007_199_254_740_992;

/// The integer that a value is, where floating-point numbers hold it exactly.
pub open spec fn small_int(v: JsonView) -> Option<int> {
    match v {
        JsonView::Unsigned(n) => if n <= EXACT {
            Some(n as int)
        } else {
            None
        },
        JsonView::Negative(n) => if -(EXACT as int) <= n && n < 0 {
            Some(n as int)
        } else {
            None
        },
        _ => None,
    }
}

/// Whether a value is a number.
pub open spec fn is_number(v: JsonView) -> bool {
    v is Unsigned || v is Negative || v is Decimal
}

/// An integer as text.
pub open spec fn int_text(n: int) -> Seq<char> {
    if n < 0 {
        "-"@ + decimal((-n) as nat)
    } else {
        decimal(n as nat)
    }
}

/// The message that a value is beyond a limit.
pub open spec fn beyond(upper: bool, limit: Seq<char>) -> Seq<char> {
    if upper {
        "is above maximum "@ + limit
    } else {
        "is below minimum "@ + limit
    }
}

/// What the check of a limit finds.
pub open spec fn bound_report(limit: Option<JsonView>, value: JsonView, path: Seq<char>, upper: bool) -> ReportView {
    match limit {
        Some(l) => if is_number(l) && is_number(value) {
            match (small_int(l), small_int(value)) {
                (Some(a), Some(b)) => if (upper && b > a) || (!upper && b < a) {
                    failing(mismatch(path, beyond(upper, int_text(a))))
                } else {
                    clean()
                },
                _ => ReportView { bounds: seq![BoundView { path, upper, limit: l, value }], failure: None },
            }
        } else {
            clean()
        },
        None => clean(),
    }
}

fn small(v: &Json) -> (r: Option<i64>)
    ensures
        match r {
            Some(n) => small_int(v@) == Some(n as int),
            None => small_int(v@) is None,
        },
{
    match v {
        Json::Unsigned(n) => if *n <= EXACT {
            Some(*n as i64)
        } else {
            None
        },
        Json::Negative(n) => if -9_007_199_254_740_992 <= *n && *n < 0 {
            Some(*n)
        } else {
            None
        },
        _ => None,
    }
}

fn small_text(n: i64) -> (r: String)
    requires
        -(EXACT as int) <= n <= EXACT,
    ensures
        r@ == int_text(n as int),
{
    if n < 0 {
        let t = u64_text((-n) as u64);
        crate::text::concat2("-", t.as_str())
    } else {
        u64_text(n as u64)
    }
}

fn numeric(v: &Json) -> (r: bool)
    ensures
        r == is_number(v@),
{
    matches!(v, Json::Unsigned(_) | Json::Negative(_) | Json::Decimal(_))
}

fn clean_report() -> (r: SchemaReport)
    ensures
        r@ == clean(),
{
    let r = SchemaReport { bounds: Vec::new(), failure: None };
    assert(r@.bounds =~= Seq::empty());
    r
}

fn failing_report(e: RpcError) -> (r: SchemaReport)
    ensures
        r@ == failing(e@),
{
    let r = SchemaReport { bounds: Vec::new(), failure: Some(e) };
    assert(r@.bounds =~= Seq::empty());
    r
}

fn join_reports(a: SchemaReport, b: SchemaReport) -> (r: SchemaReport)
    ensures
        r@ == and_then(a@, b@),
{
    if a.failure.is_some() {
        return a;
    }
    let ghost x = a@.bounds;
    let ghost y = b@.bounds;
    let mut bounds = a.bounds;
    let mut more = b.bounds;
    let ghost p = bounds@;
    let ghost q = more@;
    bounds.append(&mut more);
    let r = SchemaReport { bounds, failure: b.failure };
    assert(r@.bounds =~= x + y);
    r
}

fn check_bound(limit: Option<&Json>, value: &Json, path: &str, upper: bool) -> (r: SchemaReport)
    ensures
        r@ == bound_report(
            match limit {
                Some(l) => Some(l@),
                None => None,
            },
            value@,
            path@,
            upper,
        ),
{
    match limit {
        Some(l) => {
            if !numeric(l) || !numeric(value) {
                return clean_report();
            }
            let a = small(l);
            let b = small(value);
            if let Some(a) = a {
                if let Some(b) = b {
                    if (upper && b > a) || (!upper && b < a) {
                        let t = small_text(a);
                        let m = if upper {
                            crate::text::concat2("is above maximum ", t.as_str())
                        } else {
                            crate::text::concat2("is below minimum ", t.as_str())
                        };
                        return failing_report(schema_error(path, m.as_str()));
                    }
                    return clean_report();
                }
            }
            let mut bounds: Vec<Bound> = Vec::new();
            bounds.push(Bound { path: path.to_owned(), upper, limit: l.copy(), value: value.copy() });
            let r = SchemaReport { bounds, failure: None };
            assert(r@.bounds =~= seq![BoundView { path: path@, upper, limit: l@, value: value@ }]);
            r
        },
        None => clean_report(),
    }
}

/// The path of a field.
pub open spec fn field_path(path: Seq<char>, key: Seq<char>) -> Seq<char> {
    path + "."@ + key
}

/// The path of an item.
pub open spec fn item_path(path: Seq<char>, i: nat) -> Seq<char> {
    path + "["@ + decimal(i) + "]"@
}

/// What the check of the first `n` required fields finds.
pub open spec fn required_report(required: Seq<JsonView>, value: JsonView, path: Seq<char>, n: int) -> ReportView
    decreases n,
{
    if n <= 0 {
        clean()
    } else {
        and_then(
            required_report(required, value, path, n - 1),
            match required[n - 1] {
                JsonView::Text(key) => if value.get(key) is Some {
                    clean()
                } else {
                    failing(mismatch(field_path(path, key), "is required"@))
                },
                _ => clean(),
            },
        )
    }
}

/// Whether a document is equal to one of a list.
pub open spec fn has_equal(items: Seq<JsonView>, value: JsonView) -> bool {
    exists|k: int| 0 <= k < items.len() && alike(#[trigger] items[k], value)
}

/// What the check of a document finds, before what is in it.
pub open spec fn own_report(schema: JsonView, value: JsonView, path: Seq<char>) -> ReportView {
    let a = match schema.get_array("enum"@) {
        Some(allowed) => if has_equal(allowed, value) {
            clean()
        } else {
            failing(mismatch(path, "value is not in enum"@))
        },
        None => clean(),
    };
    let b = match schema.get("type"@) {
        Some(types) => if of_types(value, types) {
            clean()
        } else {
            failing(mismatch(path, "does not match type "@ + json_text(types)))
        },
        None => clean(),
    };
    let c = bound_report(schema.get("minimum"@), value, path, false);
    let d = bound_report(schema.get("maximum"@), value, path, true);
    let e = match (value, schema.get_array("required"@)) {
        (JsonView::Object(_), Some(required)) => required_report(required, value, path, required.len() as int),
        _ => clean(),
    };
    and_then(and_then(and_then(and_then(a, b), c), d), e)
}

/// What the check of a document against a schema finds.
pub open spec fn report(schema: JsonView, value: JsonView, path: Seq<char>) -> ReportView
    decreases value,
{
    match schema {
        JsonView::Object(s) => if s.len() == 0 {
            clean()
        } else {
            let own = own_report(schema, value, path);
            match value {
                JsonView::Object(fields) => match schema.get("properties"@) {
                    Some(JsonView::Object(properties)) => and_then(
                        own,
                        fields_report(schema, properties, fields, path, fields.len()),
                    ),
                    _ => own,
                },
                JsonView::Array(items) => match schema.get("items"@) {
                    Some(inner) => and_then(own, items_report(inner, items, path, items.len())),
                    None => own,
                },
                _ => own,
            }
        },
        _ => clean(),
    }
}

/// What the check of the first `n` fields of an object finds.
pub open spec fn fields_report(
    schema: JsonView,
    properties: Seq<(Seq<char>, JsonView)>,
    fields: Seq<(Seq<char>, JsonView)>,
    path: Seq<char>,
    n: nat,
) -> ReportView
    decreases fields, n,
{
    if n == 0 || n > fields.len() {
        clean()
    } else {
        let key = fields[n - 1].0;
        and_then(
            fields_report(schema, properties, fields, path, (n - 1) as nat),
            match lookup(properties, key) {
                Some(inner) => report(inner, fields[n - 1].1, field_path(path, key)),
                None => if schema.get("additionalProperties"@) == Some(JsonView::Bool(false)) {
                    failing(mismatch(field_path(path, key), "is not allowed"@))
                } else {
                    clean()
                },
            },
        )
    }
}

/// What the check of the first `n` items of an array finds.
pub open spec fn items_report(schema: JsonView, items: Seq<JsonView>, path: Seq<char>, n: nat) -> ReportView
    decreases items, n,
{
    if n == 0 || n > items.len() {
        clean()
    } else {
        and_then(
            items_report(schema, items, path, (n - 1) as nat),
            report(schema, items[n - 1], item_path(path, (n - 1) as nat)),
        )
    }
}

fn json_in(items: &Vec<Json>, value: &Json) -> (r: bool)
    ensures
        r == has_equal(crate::json::json_views(items@), value@),
{
    let ghost all = crate::json::json_views(items@);
    let mut i: usize = 0;
    while i < items.len()
        invariant
            i <= items.len(),
            all == crate::json::json_views(items@),
            forall|k: int| 0 <= k < i ==> !alike(#[trigger] all[k], value@),
        decreases items.len() - i,
    {
        assert(all[i as int] == items@[i as int]@);
        if items[i].equals(value) {
            return true;
        }
        i += 1;
    }
    false
}

fn check_required(required: &Vec<Json>, value: &Json, path: &str) -> (r: SchemaReport)
    ensures
        r@ == required_report(crate::json::json_views(required@), value@, path@, required@.len() as int),
{
    let ghost all = crate::json::json_views(required@);
    let mut r = clean_report();
    let mut i: usize = 0;
    while i < required.len()
        invariant
            i <= required.len(),
            all == crate::json::json_views(required@),
            r@ == required_report(all, value@, path@, i as int),
        decreases required.len() - i,
    {
        assert(all[i as int] == required@[i as int]@);
        let next = match &required[i] {
            Json::Text(key) => {
                if value.has(key.as_str()) {
                    clean_report()
                } else {
                    let p = concat3(path, ".", key.as_str());
                    failing_report(schema_error(p.as_str(), "is required"))
                }
            },
            _ => clean_report(),
        };
        r = join_reports(r, next);
        i += 1;
    }
    r
}

fn check_own(schema: &Json, value: &Json, path: &str) -> (r: SchemaReport)
    ensures
        r@ == own_report(schema@, value@, path@),
{
    let a = match schema.get_array("enum") {
        Some(allowed) => {
            if json_in(allowed, value) {
                clean_report()
            } else {
                failing_report(schema_error(path, "value is not in enum"))
            }
        },
        None => clean_report(),
    };
    let b = match schema.get("type") {
        Some(types) => {
            if matches_types(value, types) {
                clean_report()
            } else {
                let t = encode(types);
                let m = crate::text::concat2("does not match type ", t.as_str());
                failing_report(schema_error(path, m.as_str()))
            }
        },
        None => clean_report(),
    };
    let c = check_bound(schema.get("minimum"), value, path, false);
    let d = check_bound(schema.get("maximum"), value, path, true);
    let e = match value {
        Json::Object(_) => match schema.get_array("required") {
            Some(required) => check_required(required, value, path),
            None => clean_report(),
        },
        _ => clean_report(),
    };
    join_reports(join_reports(join_reports(join_reports(a, b), c), d), e)
}

/// Checks a document against a schema, as far as that goes without floating-point numbers.
pub fn schema_report(schema: &Json, value: &Json, path: &str) -> (r: SchemaReport)
    ensures
        r@ == report(schema@, value@, path@),
    decreases value,
{
    match schema {
        Json::Object(s) => {
            if s.len() == 0 {
                return clean_report();
            }
        },
        _ => return clean_report(),
    }
    let own = check_own(schema, value, path);
    match value {
        Json::Object(fields) => {
            let properties = match schema.get("properties") {
                Some(p) => p,
                None => return own,
            };
            match properties {
                Json::Object(_) => {},
                _ => return own,
            }
            let closed = match schema.get("additionalProperties") {
                Some(Json::Bool(b)) => !*b,
                _ => false,
            };
            let ghost all = value@->Object_0;
            let ghost props = properties@->Object_0;
            let mut r = clean_report();
            let mut i: usize = 0;
            while i < fields.len()
                invariant
                    i <= fields.len(),
                    *value == Json::Object(*fields),
                    value@ == JsonView::Object(all),
                    properties@ == JsonView::Object(props),
                    closed == (schema@.get("additionalProperties"@) == Some(JsonView::Bool(false))),
                    all.len() == fields@.len(),
                    forall|k: int|
                        0 <= k < all.len() ==> (#[trigger] all[k]).0 == fields@[k].0@ && all[k].1 == fields@[k].1@,
                    r@ == fields_report(schema@, props, all, path@, i as nat),
                decreases fields.len() - i,
            {
                assert(decreases_to!(*value => value->Object_0));
                assert(decreases_to!(*value => fields@[i as int]));
                assert(all[i as int].0 == fields@[i as int].0@);
                let p = concat3(path, ".", fields[i].0.as_str());
                let next = match properties.get(fields[i].0.as_str()) {
                    Some(inner) => schema_report(inner, &fields[i].1, p.as_str()),
                    None => {
                        if closed {
                            failing_report(schema_error(p.as_str(), "is not allowed"))
                        } else {
                            clean_report()
                        }
                    },
                };
                r = join_reports(r, next);
                i += 1;
            }
            join_reports(own, r)
        },
        Json::Array(items) => {
            let inner = match schema.get("items") {
                Some(x) => x,
                None => return own,
            };
            let ghost all = value@->Array_0;
            let mut r = clean_report();
            let mut i: usize = 0;
            while i < items.len()
                invariant
                    i <= items.len(),
                    *value == Json::Array(*items),
                    value@ == JsonView::Array(all),
                    all.len() == items@.len(),
                    forall|k: int| 0 <= k < all.len() ==> #[trigger] all[k] == items@[k]@,
                    r@ == items_report(inner@, all, path@, i as nat),
                decreases items.len() - i,
            {
                assert(decreases_to!(*value => value->Array_0));
                assert(decreases_to!(*value => items@[i as int]));
                assert(all[i as int] == items@[i as int]@);
                let n = u64_text(i as u64);
                let p = concat4(path, "[", n.as_str(), "]");
                let next = schema_report(inner, &items[i], p.as_str());
                r = join_reports(r, next);
                i += 1;
            }
            join_reports(own, r)
        },
        _ => own,
    }
}

/// Checks a document against a schema whose bounds on it are all small integers.
pub fn validate_schema(schema: &Json, value: &Json, path: &str) -> (r: Result<(), RpcError>)
    requires
        report(schema@, value@, path@).bounds.len() == 0,
    ensures
        match report(schema@, value@, path@).failure {
            Some(e) => fails(r, e),
            None => r is Ok,
        },
        r is Ok == fits(schema@, value@),
{
    proof {
        if fits(schema@, value@) {
            fitting_document_passes(schema@, value@, path@);
        } else if report(schema@, value@, path@).failure is None {
            passing_document_fits(schema@, value@, path@);
        }
    }
    match schema_report(schema, value, path).failure {
        Some(e) => Err(e),
        None => Ok(()),
    }
}

/// Checks a document against a schema, where no comparison of floating-point numbers is needed.
pub fn try_validate_schema(schema: &Json, value: &Json, path: &str) -> (r: Option<Result<(), RpcError>>)
    ensures
        if report(schema@, value@, path@).bounds.len() > 0 {
            r is None
        } else {
            r matches Some(x) && (match report(schema@, value@, path@).failure {
                Some(e) => fails(x, e),
                None => x is Ok,
            }) && x is Ok == fits(schema@, value@)
        },
{
    let found = schema_report(schema, value, path);
    assert(found@.bounds.len() == found.bounds@.len());
    if found.bounds.len() > 0 {
        return None;
    }
    Some(validate_schema(schema, value, path))
}

/// What a check comes to with the outcome of the comparisons that were left open: for each, the
/// text of the limit where the value is beyond it.
pub open spec fn settled(r: ReportView, beyond_limits: Seq<Option<Seq<char>>>, from: int) -> Option<RpcErrorView>
    decreases r.bounds.len() - from,
{
    if from < 0 || from >= r.bounds.len() {
        r.failure
    } else if from < beyond_limits.len() && beyond_limits[from] is Some {
        Some(mismatch(r.bounds[from].path, beyond(r.bounds[from].upper, beyond_limits[from]->0)))
    } else {
        settled(r, beyond_limits, from + 1)
    }
}

/// The texts of a list of which some may be missing.
pub open spec fn opt_texts(v: Seq<Option<String>>) -> Seq<Option<Seq<char>>> {
    v.map_values(|s: Option<String>| crate::task::opt_text(s))
}

impl SchemaReport {
    /// What the check comes to, with the outcome of the comparisons that were left open: for each
    /// of them, in order, the text of the limit where the value is beyond it.
    pub fn settle(self, beyond_limits: &Vec<Option<String>>) -> (r: Result<(), RpcError>)
        ensures
            match settled(self@, opt_texts(beyond_limits@), 0) {
                Some(e) => fails(r, e),
                None => r is Ok,
            },
    {
        let ghost all = opt_texts(beyond_limits@);
        let mut i: usize = 0;
        while i < self.bounds.len()
            invariant
                i <= self.bounds.len(),
                all == opt_texts(beyond_limits@),
                settled(self@, all, 0) == settled(self@, all, i as int),
            decreases self.bounds.len() - i,
        {
            if i < beyond_limits.len() {
                assert(all[i as int] == crate::task::opt_text(beyond_limits@[i as int]));
                if let Some(limit) = &beyond_limits[i] {
                    let m = if self.bounds[i].upper {
                        crate::text::concat2("is above maximum ", limit.as_str())
                    } else {
                        crate::text::concat2("is below minimum ", limit.as_str())
                    };
                    return Err(schema_error(self.bounds[i].path.as_str(), m.as_str()));
                }
            }
            i += 1;
        }
        match self.failure {
            Some(e) => Err(e),
            None => Ok(()),
        }
    }
}

/// A document that passes has every field that its schema requires.
pub proof fn passing_document_is_complete(schema: JsonView, value: JsonView, path: Seq<char>, i: int)
    requires
        schema is Object,
        value is Object,
        schema.get_array("required"@) is Some,
        0 <= i < schema.get_array("required"@)->0.len(),
        schema.get_array("required"@)->0[i] is Text,
        report(schema, value, path).failure is None,
    ensures
        value.get(schema.get_array("required"@)->0[i]->Text_0) is Some,
{
    let required = schema.get_array("required"@)->0;
    assert(schema->Object_0.len() > 0);
    let own = own_report(schema, value, path);
    assert(own.failure is None);
    lemma_required(required, value, path, required.len() as int, i);
}

proof fn lemma_required(required: Seq<JsonView>, value: JsonView, path: Seq<char>, n: int, i: int)
    requires
        0 <= i < n <= required.len(),
        required[i] is Text,
        required_report(required, value, path, n).failure is None,
    ensures
        value.get(required[i]->Text_0) is Some,
    decreases n,
{
    if i < n - 1 {
        lemma_required(required, value, path, n - 1, i);
    }
}

/// The whole number that a value is.
pub open spec fn whole(v: JsonView) -> Option<int> {
    match v {
        JsonView::Unsigned(n) => Some(n as int),
        JsonView::Negative(n) => Some(n as int),
        _ => None,
    }
}

/// Whether a word of the schema language names the kind of a value.
pub open spec fn names_kind(kind: Seq<char>, v: JsonView) -> bool {
    match v {
        JsonView::Null => kind == "null"@,
        JsonView::Bool(_) => kind == "boolean"@,
        JsonView::Unsigned(_) | JsonView::Negative(_) => kind == "integer"@ || kind == "number"@,
        JsonView::Decimal(_) => kind == "number"@,
        JsonView::Text(_) => kind == "string"@,
        JsonView::Array(_) => kind == "array"@,
        JsonView::Object(_) => kind == "object"@,
    }
}

/// Whether a document is one that a schema describes: it is among the values that are listed, of a
/// kind that is named, within limits that are whole numbers, with all fields that are required and
/// none that is closed out, and what is in it is as described too.
pub open spec fn fits(schema: JsonView, value: JsonView) -> bool
    decreases value,
{
    schema is Object && schema->Object_0.len() > 0 ==> {
        &&& schema.get_array("enum"@) matches Some(allowed) ==> exists|k: int|
            0 <= k < allowed.len() && alike(#[trigger] allowed[k], value)
        &&& match schema.get("type"@) {
            Some(JsonView::Text(kind)) => names_kind(kind, value),
            Some(JsonView::Array(kinds)) => exists|k: int|
                0 <= k < kinds.len() && ((#[trigger] kinds[k]) matches JsonView::Text(kind) && names_kind(kind, value)),
            Some(_) => false,
            None => true,
        }
        &&& schema.get("minimum"@) matches Some(l) ==> (whole(l) is Some && whole(value) is Some ==> whole(value)->0
            >= whole(l)->0)
        &&& schema.get("maximum"@) matches Some(l) ==> (whole(l) is Some && whole(value) is Some ==> whole(value)->0
            <= whole(l)->0)
        &&& value is Object ==> (schema.get_array("required"@) matches Some(required) ==> forall|k: int|
            0 <= k < required.len() ==> ((#[trigger] required[k]) matches JsonView::Text(key) ==> value.get(key) is Some))
        &&& match value {
            JsonView::Object(fields) => schema.get("properties"@) matches Some(JsonView::Object(properties))
                ==> forall|k: int|
                0 <= k < fields.len() ==> match lookup(properties, (#[trigger] fields[k]).0) {
                    Some(inner) => fits(inner, fields[k].1),
                    None => schema.get("additionalProperties"@) != Some(JsonView::Bool(false)),
                },
            JsonView::Array(items) => schema.get("items"@) matches Some(inner) ==> forall|k: int|
                0 <= k < items.len() ==> fits(inner, #[trigger] items[k]),
            _ => true,
        }
    }
}

proof fn lemma_kind(v: JsonView, kind: Seq<char>)
    ensures
        of_type(v, kind) == names_kind(kind, v),
{
    reveal_strlit("null");
    reveal_strlit("boolean");
    reveal_strlit("integer");
    reveal_strlit("number");
    reveal_strlit("string");
    reveal_strlit("array");
    reveal_strlit("object");
    assert("null"@.len() == 4 && "array"@.len() == 5 && "boolean"@.len() == 7 && "integer"@.len() == 7);
    assert("boolean"@[0] != "integer"@[0]);
    assert("number"@[0] == 'n' && "string"@[0] == 's' && "object"@[0] == 'o');
}

proof fn lemma_kinds(v: JsonView, types: JsonView)
    ensures
        of_types(v, types) == (match types {
            JsonView::Text(kind) => names_kind(kind, v),
            JsonView::Array(kinds) => exists|k: int|
                0 <= k < kinds.len() && ((#[trigger] kinds[k]) matches JsonView::Text(kind) && names_kind(kind, v)),
            _ => false,
        }),
{
    assert forall|kind: Seq<char>| #[trigger] of_type(v, kind) == names_kind(kind, v) by {
        lemma_kind(v, kind);
    }
    assert forall|kind: Seq<char>| of_type(v, kind) == #[trigger] names_kind(kind, v) by {
        lemma_kind(v, kind);
    }
}

proof fn lemma_required_all(required: Seq<JsonView>, value: JsonView, path: Seq<char>, n: int)
    requires
        0 <= n <= required.len(),
    ensures
        required_report(required, value, path, n).bounds.len() == 0,
        (required_report(required, value, path, n).failure is None) == (forall|k: int|
            0 <= k < n ==> ((#[trigger] required[k]) matches JsonView::Text(key) ==> value.get(key) is Some)),
    decreases n,
{
    if n > 0 {
        lemma_required_all(required, value, path, n - 1);
    }
}

/// A document in which the check finds nothing wrong, and leaves no comparison open, is one that
/// the schema describes.
pub proof fn passing_document_fits(schema: JsonView, value: JsonView, path: Seq<char>)
    requires
        report(schema, value, path).failure is None,
        report(schema, value, path).bounds.len() == 0,
    ensures
        fits(schema, value),
    decreases value,
{
    if schema is Object && schema->Object_0.len() > 0 {
        let own = own_report(schema, value, path);
        assert(own.failure is None && own.bounds.len() == 0);
        if let Some(types) = schema.get("type"@) {
            lemma_kinds(value, types);
        }
        if let Some(required) = schema.get_array("required"@) {
            lemma_required_all(required, value, path, required.len() as int);
        }
        match value {
            JsonView::Object(fields) => {
                if let Some(JsonView::Object(properties)) = schema.get("properties"@) {
                    let all = fields_report(schema, properties, fields, path, fields.len());
                    assert(all.failure is None && all.bounds.len() == 0);
                    assert forall|k: int| 0 <= k < fields.len() implies match lookup(properties, (#[trigger] fields[k]).0) {
                        Some(inner) => fits(inner, fields[k].1),
                        None => schema.get("additionalProperties"@) != Some(JsonView::Bool(false)),
                    } by {
                        lemma_field_passes(schema, properties, fields, path, fields.len(), k);
                        if let Some(inner) = lookup(properties, fields[k].0) {
                            assert(decreases_to!(value => fields[k].1));
                            passing_document_fits(inner, fields[k].1, field_path(path, fields[k].0));
                        }
                    }
                }
            },
            JsonView::Array(items) => {
                if let Some(inner) = schema.get("items"@) {
                    let all = items_report(inner, items, path, items.len());
                    assert(all.failure is None && all.bounds.len() == 0);
                    assert forall|k: int| 0 <= k < items.len() implies fits(inner, #[trigger] items[k]) by {
                        lemma_item_passes(inner, items, path, items.len(), k);
                        assert(decreases_to!(value => items[k]));
                        passing_document_fits(inner, items[k], item_path(path, k as nat));
                    }
                }
            },
            _ => {},
        }
    }
}

proof fn lemma_field_passes(
    schema: JsonView,
    properties: Seq<(Seq<char>, JsonView)>,
    fields: Seq<(Seq<char>, JsonView)>,
    path: Seq<char>,
    n: nat,
    k: int,
)
    requires
        0 <= k < n <= fields.len(),
        fields_report(schema, properties, fields, path, n).failure is None,
        fields_report(schema, properties, fields, path, n).bounds.len() == 0,
    ensures
        match lookup(properties, fields[k].0) {
            Some(inner) => report(inner, fields[k].1, field_path(path, fields[k].0)).failure is None && report(
                inner,
                fields[k].1,
                field_path(path, fields[k].0),
            ).bounds.len() == 0,
            None => schema.get("additionalProperties"@) != Some(JsonView::Bool(false)),
        },
    decreases n,
{
    if k < n - 1 {
        lemma_field_passes(schema, properties, fields, path, (n - 1) as nat, k);
    }
}

proof fn lemma_item_passes(schema: JsonView, items: Seq<JsonView>, path: Seq<char>, n: nat, k: int)
    requires
        0 <= k < n <= items.len(),
        items_report(schema, items, path, n).failure is None,
        items_report(schema, items, path, n).bounds.len() == 0,
    ensures
        report(schema, items[k], item_path(path, k as nat)).failure is None,
        report(schema, items[k], item_path(path, k as nat)).bounds.len() == 0,
    decreases n,
{
    if k < n - 1 {
        lemma_item_passes(schema, items, path, (n - 1) as nat, k);
    }
}

/// The check finds nothing wrong in a document that the schema describes.
pub proof fn fitting_document_passes(schema: JsonView, value: JsonView, path: Seq<char>)
    requires
        fits(schema, value),
    ensures
        report(schema, value, path).failure is None,
    decreases value, 0nat,
{
    if schema is Object && schema->Object_0.len() > 0 {
        if let Some(types) = schema.get("type"@) {
            lemma_kinds(value, types);
        }
        if let Some(required) = schema.get_array("required"@) {
            lemma_required_all(required, value, path, required.len() as int);
        }
        assert(own_report(schema, value, path).failure is None);
        match value {
            JsonView::Object(fields) => {
                if let Some(JsonView::Object(properties)) = schema.get("properties"@) {
                    lemma_fields_pass(schema, properties, fields, path, fields.len());
                }
            },
            JsonView::Array(items) => {
                if let Some(inner) = schema.get("items"@) {
                    lemma_items_pass(inner, items, path, items.len());
                }
            },
            _ => {},
        }
    }
}

proof fn lemma_fields_pass(
    schema: JsonView,
    properties: Seq<(Seq<char>, JsonView)>,
    fields: Seq<(Seq<char>, JsonView)>,
    path: Seq<char>,
    n: nat,
)
    requires
        n <= fields.len(),
        forall|k: int|
            0 <= k < fields.len() ==> match lookup(properties, (#[trigger] fields[k]).0) {
                Some(inner) => fits(inner, fields[k].1),
                None => schema.get("additionalProperties"@) != Some(JsonView::Bool(false)),
            },
    ensures
        fields_report(schema, properties, fields, path, n).failure is None,
    decreases fields, n,
{
    if n > 0 {
        lemma_fields_pass(schema, properties, fields, path, (n - 1) as nat);
        if let Some(inner) = lookup(properties, fields[n - 1].0) {
            fitting_document_passes(inner, fields[n - 1].1, field_path(path, fields[n - 1].0));
        }
    }
}

proof fn lemma_items_pass(schema: JsonView, items: Seq<JsonView>, path: Seq<char>, n: nat)
    requires
        n <= items.len(),
        forall|k: int| 0 <= k < items.len() ==> fits(schema, #[trigger] items[k]),
    ensures
        items_report(schema, items, path, n).failure is None,
    decreases items, n,
{
    if n > 0 {
        lemma_items_pass(schema, items, path, (n - 1) as nat);
        fitting_document_passes(schema, items[n - 1], item_path(path, (n - 1) as nat));
    }
}

/// A whole number that passes lies within the whole numbers that its schema gives as limits.
pub proof fn passing_number_is_within_its_limits(schema: JsonView, value: JsonView, path: Seq<char>, limit: JsonView)
    requires
        report(schema, value, path).failure is None,
        report(schema, value, path).bounds.len() == 0,
        whole(value) is Some,
        whole(limit) is Some,
    ensures
        schema.get("maximum"@) == Some(limit) ==> whole(value)->0 <= whole(limit)->0,
        schema.get("minimum"@) == Some(limit) ==> whole(value)->0 >= whole(limit)->0,
{
    passing_document_fits(schema, value, path);
    assert(schema.get("maximum"@) is Some || schema.get("minimum"@) is Some ==> schema is Object && schema->Object_0.len()
        > 0);
}

/// A whole number beyond a limit of its schema is refused with that limit, where it is of a kind
/// that the schema asks for and among the values that it lists.
pub proof fn number_beyond_its_limit_is_refused(schema: JsonView, value: JsonView, path: Seq<char>, limit: JsonView)
    requires
        schema.get_array("enum"@) is None,
        schema.get("type"@) matches Some(JsonView::Text(kind)) ==> names_kind(kind, value),
        schema.get("type"@) is Some ==> schema.get("type"@)->0 is Text,
        whole(value) is Some && -9_007_199_254_740_992 <= whole(value)->0 <= 9_007_199_254_740_992,
        whole(limit) is Some && -9_007_199_254_740_992 <= whole(limit)->0 <= 9_007_199_254_740_992,
        value is Negative ==> whole(value)->0 < 0,
        limit is Negative ==> whole(limit)->0 < 0,
    ensures
        schema.get("minimum"@) == Some(limit) && whole(value)->0 < whole(limit)->0 ==> (report(
            schema,
            value,
            path,
        ).failure matches Some(e) && e.code == "SCHEMA_VALIDATION_FAILED"@ && e.message == path + " "@ + (
        "is below minimum "@ + int_text(whole(limit)->0))),
        schema.get("maximum"@) == Some(limit) && schema.get("minimum"@) is None && whole(value)->0 > whole(limit)->0
            ==> (report(schema, value, path).failure matches Some(e) && e.code == "SCHEMA_VALIDATION_FAILED"@ && e.message
            == path + " "@ + ("is above maximum "@ + int_text(whole(limit)->0))),
{
    if let Some(types) = schema.get("type"@) {
        lemma_kinds(value, types);
    }
    assert(schema.get("maximum"@) is Some || schema.get("minimum"@) is Some ==> schema is Object && schema->Object_0.len()
        > 0);
}

/// With the comparisons that were left open a check passes if, and only if, nothing was wrong
/// without them and none of them found the value beyond its limit.
pub proof fn settled_check_passes(r: ReportView, beyond_limits: Seq<Option<Seq<char>>>, from: int)
    requires
        0 <= from <= r.bounds.len(),
    ensures
        settled(r, beyond_limits, from) is None <==> r.failure is None && forall|k: int|
            from <= k < r.bounds.len() && k < beyond_limits.len() ==> (#[trigger] beyond_limits[k]) is None,
    decreases r.bounds.len() - from,
{
    if from < r.bounds.len() {
        settled_check_passes(r, beyond_limits, from + 1);
    }
}

} // verus!
