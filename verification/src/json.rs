//! JSON documents as plain values.
//!
//! An integer of 64 bits is held as such; any other number is held as the text
//! that writes it. The fields of an object stand in the order of their names.

use crate::text::{str_eq, str_lt, text_lt};
use vstd::prelude::*;

verus! {

/// A JSON document.
#[derive(Debug)]
pub enum Json {
    Null,
    Bool(bool),
    /// A non-negative integer.
    Unsigned(u64),
    /// A negative integer.
    Negative(i64),
    /// Any other number, as the text that writes it.
    Decimal(String),
    Text(String),
    Array(Vec<Json>),
    Object(Vec<(String, Json)>),
}

/// What a JSON document holds.
pub enum JsonView {
    Null,
    Bool(bool),
    Unsigned(u64),
    Negative(i64),
    Decimal(Seq<char>),
    Text(Seq<char>),
    Array(Seq<JsonView>),
    Object(Seq<(Seq<char>, JsonView)>),
}

impl View for Json {
    type V = JsonView;

    open spec fn view(&self) -> JsonView {
        json_view(*self)
    }
}

/// What a JSON document holds.
pub open spec fn json_view(j: Json) -> JsonView
    decreases j,
{
    match j {
        Json::Null => JsonView::Null,
        Json::Bool(b) => JsonView::Bool(b),
        Json::Unsigned(n) => JsonView::Unsigned(n),
        Json::Negative(n) => JsonView::Negative(n),
        Json::Decimal(s) => JsonView::Decimal(s@),
        Json::Text(s) => JsonView::Text(s@),
        Json::Array(items) => JsonView::Array(
            Seq::new(
                items@.len(),
                |i: int|
                    if 0 <= i < items@.len() {
                        json_view(items@[i])
                    } else {
                        JsonView::Null
                    },
            ),
        ),
        Json::Object(fields) => JsonView::Object(
            Seq::new(
                fields@.len(),
                |i: int|
                    if 0 <= i < fields@.len() {
                        (fields@[i].0@, json_view(fields@[i].1))
                    } else {
                        (Seq::empty(), JsonView::Null)
                    },
            ),
        ),
    }
}

/// What each document of a list holds.
pub open spec fn json_views(items: Seq<Json>) -> Seq<JsonView> {
    items.map_values(|j: Json| j@)
}

/// What an optional document holds.
pub open spec fn opt_json(j: Option<Json>) -> Option<JsonView> {
    match j {
        Some(v) => Some(v@),
        None => None,
    }
}

/// The value of the first field with a given name.
pub open spec fn lookup(fields: Seq<(Seq<char>, JsonView)>, key: Seq<char>) -> Option<JsonView>
    decreases fields.len(),
{
    if fields.len() == 0 {
        None
    } else if fields[0].0 == key {
        Some(fields[0].1)
    } else {
        lookup(fields.skip(1), key)
    }
}

/// The fields with one of them set: replaced where it is there, else put in its place by name.
pub open spec fn insert_field(fields: Seq<(Seq<char>, JsonView)>, key: Seq<char>, value: JsonView) -> Seq<
    (Seq<char>, JsonView),
>
    decreases fields.len(),
{
    if fields.len() == 0 {
        seq![(key, value)]
    } else if fields[0].0 == key {
        seq![(key, value)] + fields.skip(1)
    } else if text_lt(key, fields[0].0) {
        seq![(key, value)] + fields
    } else {
        seq![fields[0]] + insert_field(fields.skip(1), key, value)
    }
}

impl JsonView {
    /// The value of a field, where this is an object that has it.
    pub open spec fn get(self, key: Seq<char>) -> Option<JsonView> {
        match self {
            JsonView::Object(fields) => lookup(fields, key),
            _ => None,
        }
    }

    /// The text that this is.
    pub open spec fn as_str(self) -> Option<Seq<char>> {
        match self {
            JsonView::Text(s) => Some(s),
            _ => None,
        }
    }

    /// The non-negative integer that this is.
    pub open spec fn as_u64(self) -> Option<u64> {
        match self {
            JsonView::Unsigned(n) => Some(n),
            _ => None,
        }
    }

    /// The truth value that this is.
    pub open spec fn as_bool(self) -> Option<bool> {
        match self {
            JsonView::Bool(b) => Some(b),
            _ => None,
        }
    }

    /// The items, where this is an array.
    pub open spec fn as_array(self) -> Option<Seq<JsonView>> {
        match self {
            JsonView::Array(items) => Some(items),
            _ => None,
        }
    }

    /// The text of a field.
    pub open spec fn get_str(self, key: Seq<char>) -> Option<Seq<char>> {
        match self.get(key) {
            Some(v) => v.as_str(),
            None => None,
        }
    }

    /// The non-negative integer of a field.
    pub open spec fn get_u64(self, key: Seq<char>) -> Option<u64> {
        match self.get(key) {
            Some(v) => v.as_u64(),
            None => None,
        }
    }

    /// The non-negative integer of a field, or a default.
    pub open spec fn u64_or(self, key: Seq<char>, default: u64) -> u64 {
        match self.get_u64(key) {
            Some(n) => n,
            None => default,
        }
    }

    /// The truth value of a field.
    pub open spec fn get_bool(self, key: Seq<char>) -> Option<bool> {
        match self.get(key) {
            Some(v) => v.as_bool(),
            None => None,
        }
    }

    /// The items of a field that is an array.
    pub open spec fn get_array(self, key: Seq<char>) -> Option<Seq<JsonView>> {
        match self.get(key) {
            Some(v) => v.as_array(),
            None => None,
        }
    }

    /// A field, or null where it is not there.
    pub open spec fn get_or_null(self, key: Seq<char>) -> JsonView {
        match self.get(key) {
            Some(v) => v,
            None => JsonView::Null,
        }
    }

    /// The object without fields.
    pub open spec fn obj() -> JsonView {
        JsonView::Object(Seq::empty())
    }

    /// An object with one more field behind the others.
    pub open spec fn plus(self, key: Seq<char>, value: JsonView) -> JsonView {
        match self {
            JsonView::Object(fields) => JsonView::Object(fields.push((key, value))),
            other => other,
        }
    }

    /// An object with a field set; null counts as the empty object.
    pub open spec fn with(self, key: Seq<char>, value: JsonView) -> JsonView {
        match self {
            JsonView::Object(fields) => JsonView::Object(insert_field(fields, key, value)),
            JsonView::Null => JsonView::Object(seq![(key, value)]),
            other => other,
        }
    }

    /// Whether fields can be set: an object, or null that becomes one.
    pub open spec fn settable(self) -> bool {
        self is Object || self is Null
    }
}

/// A text as a document, or null.
pub open spec fn text_or_null(s: Option<Seq<char>>) -> JsonView {
    match s {
        Some(t) => JsonView::Text(t),
        None => JsonView::Null,
    }
}

/// A number as a document, or null.
pub open spec fn u64_or_null(n: Option<u64>) -> JsonView {
    match n {
        Some(v) => JsonView::Unsigned(v),
        None => JsonView::Null,
    }
}

/// A document, or null where there is none.
pub open spec fn json_or_null(j: Option<JsonView>) -> JsonView {
    match j {
        Some(v) => v,
        None => JsonView::Null,
    }
}

/// The number that a decimal stands for, by its shortest text: a negative zero is zero.
pub open spec fn number_of(text: Seq<char>) -> Seq<char> {
    if text == "-0.0"@ {
        "0.0"@
    } else {
        text
    }
}

/// Whether two documents are equal: they hold the same, where the two zeros of decimals count as
/// one number.
pub open spec fn alike(a: JsonView, b: JsonView) -> bool
    decreases a, 0nat,
{
    match (a, b) {
        (JsonView::Decimal(x), JsonView::Decimal(y)) => number_of(x) == number_of(y),
        (JsonView::Array(x), JsonView::Array(y)) => x.len() == y.len() && items_alike(x, y, x.len()),
        (JsonView::Object(x), JsonView::Object(y)) => x.len() == y.len() && fields_alike(x, y, x.len()),
        (x, y) => x == y,
    }
}

/// Whether the first `n` items of two lists are equal.
pub open spec fn items_alike(x: Seq<JsonView>, y: Seq<JsonView>, n: nat) -> bool
    decreases x, n,
{
    n == 0 || n > x.len() || (alike(x[n - 1], y[n - 1]) && items_alike(x, y, (n - 1) as nat))
}

/// Whether the first `n` fields of two objects are equal, name by name.
pub open spec fn fields_alike(x: Seq<(Seq<char>, JsonView)>, y: Seq<(Seq<char>, JsonView)>, n: nat) -> bool
    decreases x, n,
{
    n == 0 || n > x.len() || (x[n - 1].0 == y[n - 1].0 && alike(x[n - 1].1, y[n - 1].1) && fields_alike(
        x,
        y,
        (n - 1) as nat,
    ))
}

/// Documents that hold the same are equal.
pub proof fn alike_is_reflexive(a: JsonView)
    ensures
        alike(a, a),
    decreases a, 0nat,
{
    match a {
        JsonView::Array(x) => {
            lemma_items_alike(x, x.len());
        },
        JsonView::Object(x) => {
            lemma_fields_alike(x, x.len());
        },
        _ => {},
    }
}

proof fn lemma_items_alike(x: Seq<JsonView>, n: nat)
    requires
        n <= x.len(),
    ensures
        items_alike(x, x, n),
    decreases x, n,
{
    if n > 0 {
        alike_is_reflexive(x[n - 1]);
        lemma_items_alike(x, (n - 1) as nat);
    }
}

proof fn lemma_fields_alike(x: Seq<(Seq<char>, JsonView)>, n: nat)
    requires
        n <= x.len(),
    ensures
        fields_alike(x, x, n),
    decreases x, n,
{
    if n > 0 {
        assert(decreases_to!(x => x[n - 1]));
        assert(decreases_to!(x[n - 1] => x[n - 1].1));
        alike_is_reflexive(x[n - 1].1);
        lemma_fields_alike(x, (n - 1) as nat);
    }
}

proof fn lemma_items_differ(x: Seq<JsonView>, y: Seq<JsonView>, i: nat, n: nat)
    requires
        i < n <= x.len(),
        !alike(x[i as int], y[i as int]),
    ensures
        !items_alike(x, y, n),
    decreases n,
{
    if i < n - 1 {
        lemma_items_differ(x, y, i, (n - 1) as nat);
    }
}

proof fn lemma_fields_differ(x: Seq<(Seq<char>, JsonView)>, y: Seq<(Seq<char>, JsonView)>, i: nat, n: nat)
    requires
        i < n <= x.len(),
        x[i as int].0 != y[i as int].0 || !alike(x[i as int].1, y[i as int].1),
    ensures
        !fields_alike(x, y, n),
    decreases n,
{
    if i < n - 1 {
        lemma_fields_differ(x, y, i, (n - 1) as nat);
    }
}

/// A field that was set is read back, and every other field is as before.
pub proof fn set_field_is_read_back(fields: Seq<(Seq<char>, JsonView)>, key: Seq<char>, value: JsonView, other: Seq<char>)
    ensures
        lookup(insert_field(fields, key, value), key) == Some(value),
        other != key ==> lookup(insert_field(fields, key, value), other) == lookup(fields, other),
    decreases fields.len(),
{
    let r = insert_field(fields, key, value);
    if fields.len() == 0 {
        assert(r.skip(1) =~= fields);
    } else if fields[0].0 == key {
        assert(r.skip(1) =~= fields.skip(1));
    } else if text_lt(key, fields[0].0) {
        assert(r.skip(1) =~= fields);
    } else {
        assert(r.skip(1) =~= insert_field(fields.skip(1), key, value));
        set_field_is_read_back(fields.skip(1), key, value, other);
    }
}

/// A field that was set is read back, and every other field is as before.
pub proof fn lemma_with(j: JsonView, key: Seq<char>, value: JsonView, other: Seq<char>)
    requires
        j.settable(),
    ensures
        j.with(key, value) is Object,
        j.with(key, value).get(key) == Some(value),
        other != key ==> j.with(key, value).get(other) == j.get(other),
{
    match j {
        JsonView::Object(fields) => {
            set_field_is_read_back(fields, key, value, other);
        },
        _ => {
            let f = seq![(key, value)];
            reveal_with_fuel(lookup, 2);
            assert(f.skip(1) =~= Seq::empty());
        },
    }
}

/// The value of a field of an object that was built up is found: the last field added under a
/// new name has its value, and the others keep theirs.
pub proof fn lemma_plus_get(fields: Seq<(Seq<char>, JsonView)>, key: Seq<char>, value: JsonView, other: Seq<char>)
    ensures
        lookup(fields, other) is Some ==> lookup(fields.push((key, value)), other) == lookup(fields, other),
        lookup(fields, other) is None ==> lookup(fields.push((key, value)), other) == (if other == key {
            Some(value)
        } else {
            None
        }),
    decreases fields.len(),
{
    let r = fields.push((key, value));
    if fields.len() == 0 {
        assert(r.skip(1) =~= fields);
    } else {
        assert(r.skip(1) =~= fields.skip(1).push((key, value)));
        lemma_plus_get(fields.skip(1), key, value, other);
    }
}

proof fn lemma_object_view(fields: Vec<(String, Json)>)
    ensures
        Json::Object(fields)@->Object_0 == Seq::new(
            fields@.len(),
            |i: int| (fields@[i].0@, fields@[i].1@),
        ),
{
    assert(Json::Object(fields)@->Object_0 =~= Seq::new(
        fields@.len(),
        |i: int| (fields@[i].0@, fields@[i].1@),
    ));
}

proof fn lemma_array_view(items: Vec<Json>)
    ensures
        Json::Array(items)@ == JsonView::Array(json_views(items@)),
{
    assert(Json::Array(items)@->Array_0 =~= json_views(items@));
}

impl Json {
    /// A document that holds the same.
    pub fn copy(&self) -> (r: Json)
        ensures
            r@ == self@,
        decreases self,
    {
        match self {
            Json::Null => Json::Null,
            Json::Bool(b) => Json::Bool(*b),
            Json::Unsigned(n) => Json::Unsigned(*n),
            Json::Negative(n) => Json::Negative(*n),
            Json::Decimal(s) => Json::Decimal(s.clone()),
            Json::Text(s) => Json::Text(s.clone()),
            Json::Array(items) => {
                let mut out: Vec<Json> = Vec::new();
                let mut i: usize = 0;
                while i < items.len()
                    invariant
                        i <= items.len(),
                        out@.len() == i,
                        *self == Json::Array(*items),
                        forall|k: int| 0 <= k < i ==> out@[k]@ == items@[k]@,
                    decreases items.len() - i,
                {
                    assert(decreases_to!(*self => self->Array_0));
                    assert(decreases_to!(*self => items@[i as int]));
                    let c = items[i].copy();
                    out.push(c);
                    i += 1;
                }
                let r = Json::Array(out);
                assert(r@->Array_0 =~= self@->Array_0);
                r
            },
            Json::Object(fields) => {
                let mut out: Vec<(String, Json)> = Vec::new();
                let mut i: usize = 0;
                while i < fields.len()
                    invariant
                        i <= fields.len(),
                        out@.len() == i,
                        *self == Json::Object(*fields),
                        forall|k: int|
                            0 <= k < i ==> out@[k].0@ == fields@[k].0@ && out@[k].1@ == fields@[k].1@,
                    decreases fields.len() - i,
                {
                    assert(decreases_to!(*self => self->Object_0));
                    assert(decreases_to!(*self => fields@[i as int]));
                    let c = fields[i].1.copy();
                    out.push((fields[i].0.clone(), c));
                    i += 1;
                }
                let r = Json::Object(out);
                assert(r@->Object_0 =~= self@->Object_0);
                r
            },
        }
    }

    /// Whether two documents hold the same.
    pub fn same(&self, other: &Json) -> (r: bool)
        ensures
            r == (self@ == other@),
        decreases self,
    {
        match (self, other) {
            (Json::Null, Json::Null) => true,
            (Json::Bool(a), Json::Bool(b)) => *a == *b,
            (Json::Unsigned(a), Json::Unsigned(b)) => *a == *b,
            (Json::Negative(a), Json::Negative(b)) => *a == *b,
            (Json::Decimal(a), Json::Decimal(b)) => str_eq(a.as_str(), b.as_str()),
            (Json::Text(a), Json::Text(b)) => str_eq(a.as_str(), b.as_str()),
            (Json::Array(a), Json::Array(b)) => {
                proof {
                    lemma_array_view(*a);
                    lemma_array_view(*b);
                }
                if a.len() != b.len() {
                    assert(json_views(a@).len() != json_views(b@).len());
                    return false;
                }
                let mut i: usize = 0;
                while i < a.len()
                    invariant
                        i <= a.len(),
                        a@.len() == b@.len(),
                        *self == Json::Array(*a),
                        *other == Json::Array(*b),
                        self@ == JsonView::Array(json_views(a@)),
                        other@ == JsonView::Array(json_views(b@)),
                        forall|k: int| 0 <= k < i ==> a@[k]@ == b@[k]@,
                    decreases a.len() - i,
                {
                    assert(decreases_to!(*self => self->Array_0));
                    assert(decreases_to!(*self => a@[i as int]));
                    if !a[i].same(&b[i]) {
                        assert(json_views(a@)[i as int] != json_views(b@)[i as int]);
                        return false;
                    }
                    i += 1;
                }
                assert(json_views(a@) =~= json_views(b@));
                true
            },
            (Json::Object(a), Json::Object(b)) => {
                proof {
                    lemma_object_view(*a);
                    lemma_object_view(*b);
                }
                if a.len() != b.len() {
                    assert(self@->Object_0.len() != other@->Object_0.len());
                    return false;
                }
                let mut i: usize = 0;
                while i < a.len()
                    invariant
                        i <= a.len(),
                        a@.len() == b@.len(),
                        *self == Json::Object(*a),
                        *other == Json::Object(*b),
                        self@ is Object,
                        other@ is Object,
                        self@->Object_0 == Seq::new(a@.len(), |k: int| (a@[k].0@, a@[k].1@)),
                        other@->Object_0 == Seq::new(b@.len(), |k: int| (b@[k].0@, b@[k].1@)),
                        forall|k: int| 0 <= k < i ==> a@[k].0@ == b@[k].0@ && a@[k].1@ == b@[k].1@,
                    decreases a.len() - i,
                {
                    assert(decreases_to!(*self => self->Object_0));
                    assert(decreases_to!(*self => a@[i as int]));
                    if !str_eq(a[i].0.as_str(), b[i].0.as_str()) || !a[i].1.same(&b[i].1) {
                        assert(self@->Object_0[i as int] != other@->Object_0[i as int]);
                        return false;
                    }
                    i += 1;
                }
                assert(self@->Object_0 =~= other@->Object_0);
                true
            },
            _ => false,
        }
    }

    /// Whether two documents are equal, where the two zeros of decimals count as one number.
    pub fn equals(&self, other: &Json) -> (r: bool)
        ensures
            r == alike(self@, other@),
        decreases self,
    {
        match (self, other) {
            (Json::Decimal(a), Json::Decimal(b)) => {
                let x = if str_eq(a.as_str(), "-0.0") {
                    "0.0"
                } else {
                    a.as_str()
                };
                let y = if str_eq(b.as_str(), "-0.0") {
                    "0.0"
                } else {
                    b.as_str()
                };
                str_eq(x, y)
            },
            (Json::Array(a), Json::Array(b)) => {
                let ghost x = json_views(a@);
                let ghost y = json_views(b@);
                proof {
                    lemma_array_view(*a);
                    lemma_array_view(*b);
                    assert(x.len() == a@.len() && y.len() == b@.len());
                }
                if a.len() != b.len() {
                    return false;
                }
                let mut i: usize = 0;
                while i < a.len()
                    invariant
                        i <= a.len(),
                        a@.len() == b@.len(),
                        *self == Json::Array(*a),
                        *other == Json::Array(*b),
                        self@ == JsonView::Array(x),
                        other@ == JsonView::Array(y),
                        x == json_views(a@),
                        y == json_views(b@),
                        items_alike(x, y, i as nat),
                    decreases a.len() - i,
                {
                    assert(decreases_to!(*self => self->Array_0));
                    assert(decreases_to!(*self => a@[i as int]));
                    assert(x[i as int] == a@[i as int]@ && y[i as int] == b@[i as int]@);
                    if !a[i].equals(&b[i]) {
                        proof {
                            lemma_items_differ(x, y, i as nat, x.len());
                        }
                        return false;
                    }
                    i += 1;
                }
                true
            },
            (Json::Object(a), Json::Object(b)) => {
                let ghost x = self@->Object_0;
                let ghost y = other@->Object_0;
                proof {
                    lemma_object_view(*a);
                    lemma_object_view(*b);
                    assert(x.len() == a@.len() && y.len() == b@.len());
                }
                if a.len() != b.len() {
                    return false;
                }
                let mut i: usize = 0;
                while i < a.len()
                    invariant
                        i <= a.len(),
                        a@.len() == b@.len(),
                        *self == Json::Object(*a),
                        *other == Json::Object(*b),
                        self@ == JsonView::Object(x),
                        other@ == JsonView::Object(y),
                        x == Seq::new(a@.len(), |k: int| (a@[k].0@, a@[k].1@)),
                        y == Seq::new(b@.len(), |k: int| (b@[k].0@, b@[k].1@)),
                        fields_alike(x, y, i as nat),
                    decreases a.len() - i,
                {
                    assert(decreases_to!(*self => self->Object_0));
                    assert(decreases_to!(*self => a@[i as int]));
                    if !str_eq(a[i].0.as_str(), b[i].0.as_str()) || !a[i].1.equals(&b[i].1) {
                        proof {
                            lemma_fields_differ(x, y, i as nat, x.len());
                        }
                        return false;
                    }
                    i += 1;
                }
                true
            },
            _ => self.same(other),
        }
    }

    /// The text as a document.
    pub fn text(s: &str) -> (r: Json)
        ensures
            r@ == JsonView::Text(s@),
    {
        Json::Text(s.to_owned())
    }

    /// The text as a document, or null.
    pub fn opt_text(s: &Option<String>) -> (r: Json)
        ensures
            r@ == text_or_null(match s {
                Some(t) => Some(t@),
                None => None,
            }),
    {
        match s {
            Some(t) => Json::Text(t.clone()),
            None => Json::Null,
        }
    }

    /// The number as a document, or null.
    pub fn opt_u64(n: Option<u64>) -> (r: Json)
        ensures
            r@ == u64_or_null(n),
    {
        match n {
            Some(v) => Json::Unsigned(v),
            None => Json::Null,
        }
    }

    /// The array of some texts.
    pub fn texts(items: &Vec<String>) -> (r: Json)
        ensures
            r@ == JsonView::Array(crate::text::views(items@).map_values(|s: Seq<char>| JsonView::Text(s))),
    {
        let mut out: Vec<Json> = Vec::new();
        let mut i: usize = 0;
        while i < items.len()
            invariant
                i <= items.len(),
                out@.len() == i,
                forall|k: int| 0 <= k < i ==> out@[k]@ == JsonView::Text(items@[k]@),
            decreases items.len() - i,
        {
            out.push(Json::Text(items[i].clone()));
            i += 1;
        }
        let r = Json::Array(out);
        assert(r@->Array_0 =~= crate::text::views(items@).map_values(|s: Seq<char>| JsonView::Text(s)));
        r
    }

    /// The array of some documents.
    pub fn array(items: Vec<Json>) -> (r: Json)
        ensures
            r@ == JsonView::Array(json_views(items@)),
    {
        proof {
            lemma_array_view(items);
        }
        Json::Array(items)
    }

    /// The object without fields.
    pub fn obj() -> (r: Json)
        ensures
            r@ == JsonView::obj(),
    {
        let r = Json::Object(Vec::new());
        assert(r@->Object_0 =~= Seq::empty());
        r
    }

    /// The object with one more field behind the others.
    pub fn plus(self, key: &str, value: Json) -> (r: Json)
        ensures
            r@ == self@.plus(key@, value@),
    {
        match self {
            Json::Object(mut fields) => {
                let ghost before = fields;
                fields.push((key.to_owned(), value));
                let r = Json::Object(fields);
                proof {
                    lemma_object_view(before);
                    lemma_object_view(fields);
                    assert(r@->Object_0 =~= self@->Object_0.push((key@, value@)));
                }
                r
            },
            other => other,
        }
    }

    /// The value of a field.
    pub fn get<'a>(&'a self, key: &str) -> (r: Option<&'a Json>)
        ensures
            match r {
                Some(v) => self@.get(key@) == Some(v@),
                None => self@.get(key@) is None,
            },
    {
        match self {
            Json::Object(fields) => {
                let mut i: usize = 0;
                let ghost all = self@->Object_0;
                proof {
                    lemma_object_view(*fields);
                    assert(all.skip(0) =~= all);
                }
                while i < fields.len()
                    invariant
                        i <= fields.len(),
                        self@ == JsonView::Object(all),
                        all == Seq::new(fields@.len(), |k: int| (fields@[k].0@, fields@[k].1@)),
                        lookup(all, key@) == lookup(all.skip(i as int), key@),
                    decreases fields.len() - i,
                {
                    assert(all.skip(i as int).skip(1) =~= all.skip(i + 1));
                    if str_eq(fields[i].0.as_str(), key) {
                        return Some(&fields[i].1);
                    }
                    i += 1;
                }
                None
            },
            _ => None,
        }
    }

    /// Whether an object has a field.
    pub fn has(&self, key: &str) -> (r: bool)
        ensures
            r == self@.get(key@) is Some,
    {
        self.get(key).is_some()
    }

    /// The text that this is.
    pub fn as_str<'a>(&'a self) -> (r: Option<&'a str>)
        ensures
            match r {
                Some(s) => self@.as_str() == Some(s@),
                None => self@.as_str() is None,
            },
    {
        match self {
            Json::Text(s) => Some(s.as_str()),
            _ => None,
        }
    }

    /// The non-negative integer that this is.
    pub fn as_u64(&self) -> (r: Option<u64>)
        ensures
            r == self@.as_u64(),
    {
        match self {
            Json::Unsigned(n) => Some(*n),
            _ => None,
        }
    }

    /// The truth value that this is.
    pub fn as_bool(&self) -> (r: Option<bool>)
        ensures
            r == self@.as_bool(),
    {
        match self {
            Json::Bool(b) => Some(*b),
            _ => None,
        }
    }

    /// The items, where this is an array.
    pub fn as_array<'a>(&'a self) -> (r: Option<&'a Vec<Json>>)
        ensures
            match r {
                Some(items) => self@.as_array() == Some(json_views(items@)),
                None => self@.as_array() is None,
            },
            r matches Some(items) ==> *self == Json::Array(*items),
    {
        match self {
            Json::Array(items) => {
                proof {
                    lemma_array_view(*items);
                }
                Some(items)
            },
            _ => None,
        }
    }

    /// The text of a field.
    pub fn get_str<'a>(&'a self, key: &str) -> (r: Option<&'a str>)
        ensures
            match r {
                Some(s) => self@.get_str(key@) == Some(s@),
                None => self@.get_str(key@) is None,
            },
    {
        match self.get(key) {
            Some(v) => v.as_str(),
            None => None,
        }
    }

    /// The text of a field, owned.
    pub fn get_text(&self, key: &str) -> (r: Option<String>)
        ensures
            match r {
                Some(s) => self@.get_str(key@) == Some(s@),
                None => self@.get_str(key@) is None,
            },
    {
        match self.get_str(key) {
            Some(s) => Some(s.to_owned()),
            None => None,
        }
    }

    /// The non-negative integer of a field.
    pub fn get_u64(&self, key: &str) -> (r: Option<u64>)
        ensures
            r == self@.get_u64(key@),
    {
        match self.get(key) {
            Some(v) => v.as_u64(),
            None => None,
        }
    }

    /// The non-negative integer of a field, or a default.
    pub fn u64_or(&self, key: &str, default: u64) -> (r: u64)
        ensures
            r == self@.u64_or(key@, default),
    {
        match self.get_u64(key) {
            Some(n) => n,
            None => default,
        }
    }

    /// The truth value of a field.
    pub fn get_bool(&self, key: &str) -> (r: Option<bool>)
        ensures
            r == self@.get_bool(key@),
    {
        match self.get(key) {
            Some(v) => v.as_bool(),
            None => None,
        }
    }

    /// Whether a field is there and true.
    pub fn is_true(&self, key: &str) -> (r: bool)
        ensures
            r == (self@.get_bool(key@) == Some(true)),
    {
        match self.get_bool(key) {
            Some(b) => b,
            None => false,
        }
    }

    /// The items of a field that is an array.
    pub fn get_array<'a>(&'a self, key: &str) -> (r: Option<&'a Vec<Json>>)
        ensures
            match r {
                Some(items) => self@.get_array(key@) == Some(json_views(items@)),
                None => self@.get_array(key@) is None,
            },
    {
        match self.get(key) {
            Some(v) => v.as_array(),
            None => None,
        }
    }

    /// A copy of a field, or null where it is not there.
    pub fn copy_or_null(&self, key: &str) -> (r: Json)
        ensures
            r@ == self@.get_or_null(key@),
    {
        match self.get(key) {
            Some(v) => v.copy(),
            None => Json::Null,
        }
    }

    /// A copy of a field, where it is there.
    pub fn copy_field(&self, key: &str) -> (r: Option<Json>)
        ensures
            opt_json(r) == self@.get(key@),
    {
        match self.get(key) {
            Some(v) => Some(v.copy()),
            None => None,
        }
    }

    /// Sets a field of an object, or makes null the object with this field.
    pub fn set(&mut self, key: &str, value: Json)
        requires
            old(self)@.settable(),
        ensures
            final(self)@ == old(self)@.with(key@, value@),
    {
        let ghost before = *self;
        let mut fields: Vec<(String, Json)> = Vec::new();
        match self {
            Json::Object(inner) => {
                std::mem::swap(&mut fields, inner);
            },
            _ => {},
        }
        let ghost start = fields;
        proof {
            lemma_object_view(start);
        }
        let ghost all = Seq::new(start@.len(), |k: int| (start@[k].0@, start@[k].1@));
        let mut i: usize = 0;
        let mut replace = false;
        proof {
            assert(all.skip(0) =~= all);
            assert(all.take(0) + insert_field(all, key@, value@) =~= insert_field(all, key@, value@));
        }
        while i < fields.len()
            invariant_except_break
                !replace,
            invariant
                i <= fields.len(),
                fields == start,
                all == Seq::new(start@.len(), |k: int| (start@[k].0@, start@[k].1@)),
                insert_field(all, key@, value@) == all.take(i as int) + insert_field(
                    all.skip(i as int),
                    key@,
                    value@,
                ),
            ensures
                replace ==> i < fields.len() && fields@[i as int].0@ == key@,
                !replace && i < fields.len() ==> fields@[i as int].0@ != key@ && text_lt(
                    key@,
                    fields@[i as int].0@,
                ),
            decreases fields.len() - i,
        {
            if str_eq(fields[i].0.as_str(), key) {
                replace = true;
                break;
            }
            if str_lt(key, fields[i].0.as_str()) {
                break;
            }
            proof {
                let rest = all.skip(i as int);
                assert(rest.skip(1) =~= all.skip(i + 1));
                assert(rest[0] == all[i as int]);
                assert(all.take(i as int) + (seq![rest[0]] + insert_field(rest.skip(1), key@, value@))
                    =~= all.take(i + 1) + insert_field(all.skip(i + 1), key@, value@));
            }
            i += 1;
        }
        let ghost rest = all.skip(i as int);
        if replace {
            fields[i] = (key.to_owned(), value);
            proof {
                assert(rest[0] == all[i as int]);
                assert(rest.skip(1) =~= all.skip(i + 1));
                lemma_object_view(fields);
                assert(Json::Object(fields)@->Object_0 =~= all.take(i as int) + (seq![(key@, value@)]
                    + rest.skip(1)));
            }
        } else {
            fields.insert(i, (key.to_owned(), value));
            proof {
                lemma_object_view(fields);
                if i < all.len() {
                    assert(rest[0] == all[i as int]);
                    assert(Json::Object(fields)@->Object_0 =~= all.take(i as int) + (seq![(key@, value@)]
                        + rest));
                } else {
                    assert(rest =~= Seq::empty());
                    assert(Json::Object(fields)@->Object_0 =~= all.take(i as int) + seq![(key@, value@)]);
                }
            }
        }
        *self = Json::Object(fields);
        proof {
            match before {
                Json::Object(f) => {
                    lemma_object_view(f);
                },
                _ => {
                    assert(all =~= Seq::empty());
                    assert(self@->Object_0 =~= seq![(key@, value@)]);
                },
            }
        }
    }
}

impl Clone for Json {
    fn clone(&self) -> (r: Json)
        ensures
            r@ == self@,
    {
        self.copy()
    }
}

impl PartialEq for Json {
    fn eq(&self, other: &Json) -> (r: bool) {
        self.same(other)
    }
}

impl vstd::std_specs::cmp::PartialEqSpecImpl for Json {
    open spec fn obeys_eq_spec() -> bool {
        true
    }

    open spec fn eq_spec(&self, other: &Json) -> bool {
        self@ == other@
    }
}

impl Eq for Json {

}

} // verus!
