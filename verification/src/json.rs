//! JSON values, as the tools keep their provenance in.
use vstd::prelude::*;

use crate::bits;
use crate::bits::{is_at_most64, is_equal64, ONE64};
use crate::text::same;

verus! {

/// A JSON number, as it was written.
#[derive(Clone, Copy, Debug, PartialEq, Eq, Structural)]
pub enum Numeral {
    Unsigned(u64),
    Negative(i64),
    /// The bits of an `f64`.
    Real(u64),
}

/// A JSON value. An object lists its members in the order of their names.
#[derive(Debug)]
pub enum Json {
    Null,
    Bool(bool),
    Number(Numeral),
    Text(String),
    Array(Vec<Json>),
    Object(Vec<(String, Json)>),
}

/// What a JSON value says.
pub enum JsonView {
    Null,
    Bool(bool),
    Number(Numeral),
    Text(Seq<char>),
    Array(Seq<JsonView>),
    Object(Seq<(Seq<char>, JsonView)>),
}

/// What a value says.
pub open spec fn said(value: Json) -> JsonView
    decreases value,
{
    match value {
        Json::Null => JsonView::Null,
        Json::Bool(b) => JsonView::Bool(b),
        Json::Number(n) => JsonView::Number(n),
        Json::Text(s) => JsonView::Text(s@),
        Json::Array(list) => JsonView::Array(items_said(list@)),
        Json::Object(list) => JsonView::Object(members_said(list@)),
    }
}

/// What the items of a list say.
pub open spec fn items_said(list: Seq<Json>) -> Seq<JsonView>
    decreases list,
{
    if list.len() == 0 {
        Seq::empty()
    } else {
        items_said(list.drop_last()).push(said(list.last()))
    }
}

/// What the members of an object say.
pub open spec fn members_said(list: Seq<(String, Json)>) -> Seq<(Seq<char>, JsonView)>
    decreases list,
{
    if list.len() == 0 {
        Seq::empty()
    } else {
        members_said(list.drop_last()).push((list.last().0@, said(list.last().1)))
    }
}

/// Each item of a list says its own.
pub proof fn each_item_says(list: Seq<Json>)
    ensures
        items_said(list).len() == list.len(),
        forall|i: int| 0 <= i < list.len() ==> #[trigger] items_said(list)[i] == said(list[i]),
    decreases list.len(),
{
    if list.len() > 0 {
        each_item_says(list.drop_last());
    }
}

/// Each member of an object says its own.
pub proof fn each_member_says(list: Seq<(String, Json)>)
    ensures
        members_said(list).len() == list.len(),
        forall|i: int|
            0 <= i < list.len() ==> #[trigger] members_said(list)[i] == (
                list[i].0@,
                said(list[i].1),
            ),
    decreases list.len(),
{
    if list.len() > 0 {
        each_member_says(list.drop_last());
    }
}

impl View for Json {
    type V = JsonView;

    open spec fn view(&self) -> JsonView {
        said(*self)
    }
}

/// A JSON value as the parser holds it.
#[verifier::external_type_specification]
#[verifier::external_body]
pub struct ExValue(serde_json::Value);

/// What a value of the parser holds.
pub uninterp spec fn json_value(value: serde_json::Value) -> JsonView;

/// The value that bytes spell in JSON, if they spell one.
pub uninterp spec fn json_of(bytes: Seq<u8>) -> Option<JsonView>;

/// One level of a value of the parser.
enum Level {
    Null,
    Bool(bool),
    Number(Numeral),
    Text(String),
    Array(Vec<serde_json::Value>),
    Object(Vec<(String, serde_json::Value)>),
}

/// Whether a level holds this: its kind, and what its parts hold.
spec fn level_holds(level: Level, value: JsonView) -> bool {
    match level {
        Level::Null => value == JsonView::Null,
        Level::Bool(b) => value == JsonView::Bool(b),
        Level::Number(n) => value == JsonView::Number(n),
        Level::Text(s) => value == JsonView::Text(s@),
        Level::Array(list) => value matches JsonView::Array(items) && items.len() == list.len()
            && forall|i: int|
            0 <= i < list.len() ==> json_value(#[trigger] list@[i]) == items[i],
        Level::Object(list) => value matches JsonView::Object(members) && members.len()
            == list.len() && forall|i: int|
            0 <= i < list.len() ==> (#[trigger] list@[i].0@, json_value(list@[i].1)) == members[i],
    }
}

/// Matches on a `serde_json::Value`, one arm for each of its variants, and hands
/// out what the variant holds. A number is unsigned where `as_u64` gives one,
/// negative where `as_i64` does, and else the `f64` of `as_f64`.
#[verifier::external_body]
fn open_value(value: serde_json::Value) -> (result: Level)
    ensures
        level_holds(result, json_value(value)),
{
    match value {
        serde_json::Value::Null => Level::Null,
        serde_json::Value::Bool(b) => Level::Bool(b),
        serde_json::Value::Number(n) => match (n.as_u64(), n.as_i64()) {
            (Some(u), _) => Level::Number(Numeral::Unsigned(u)),
            (_, Some(i)) => Level::Number(Numeral::Negative(i)),
            _ => Level::Number(Numeral::Real(n.as_f64().unwrap_or_default().to_bits())),
        },
        serde_json::Value::String(s) => Level::Text(s),
        serde_json::Value::Array(list) => Level::Array(list),
        serde_json::Value::Object(map) => Level::Object(map.into_iter().collect()),
    }
}

/// Parses JSON with `serde_json::from_slice`. The value depends on the bytes
/// alone; which value it is, and which bytes spell one, is left to the name.
/// The message of a failure is not fixed.
#[verifier::external_body]
fn parse_value(bytes: &[u8]) -> (result: Result<serde_json::Value, String>)
    ensures
        match result {
            Ok(value) => json_of(bytes@) == Some(json_value(value)),
            Err(_) => json_of(bytes@) is None,
        },
{
    serde_json::from_slice(bytes).map_err(|error| error.to_string())
}

/// Takes a value of the parser apart.
fn json_from(value: serde_json::Value) -> (result: Json)
    ensures
        result@ == json_value(value),
    decreases json_value(value),
{
    let ghost whole = json_value(value);
    match open_value(value) {
        Level::Null => Json::Null,
        Level::Bool(b) => Json::Bool(b),
        Level::Number(n) => Json::Number(n),
        Level::Text(s) => Json::Text(s),
        Level::Array(list) => {
            let mut rest = list;
            let mut items: Vec<Json> = Vec::new();
            while rest.len() > 0
                invariant
                    whole == json_value(value),
                    whole is Array,
                    items.len() + rest.len() == whole->Array_0.len(),
                    forall|i: int|
                        0 <= i < items.len() ==> (#[trigger] items@[i])@ == whole->Array_0[i],
                    forall|i: int|
                        0 <= i < rest.len() ==> json_value(#[trigger] rest@[i])
                            == whole->Array_0[items.len() + i],
                decreases rest.len(),
            {
                let first = rest.remove(0);
                proof {
                    let k = items.len() as int;
                    assert(json_value(first) == whole->Array_0[k]);
                    assert(decreases_to!(whole => whole->Array_0));
                    assert(decreases_to!(whole->Array_0 => whole->Array_0[k]));
                }
                items.push(json_from(first));
            }
            proof {
                each_item_says(items@);
                assert(items_said(items@) =~= whole->Array_0);
            }
            Json::Array(items)
        },
        Level::Object(list) => {
            let mut rest = list;
            let mut members: Vec<(String, Json)> = Vec::new();
            while rest.len() > 0
                invariant
                    whole == json_value(value),
                    whole is Object,
                    members.len() + rest.len() == whole->Object_0.len(),
                    forall|i: int|
                        0 <= i < members.len() ==> (#[trigger] members@[i].0@, members@[i].1@)
                            == whole->Object_0[i],
                    forall|i: int|
                        0 <= i < rest.len() ==> (#[trigger] rest@[i].0@, json_value(rest@[i].1))
                            == whole->Object_0[members.len() + i],
                decreases rest.len(),
            {
                let ghost k = members.len() as int;
                assert((rest@[0].0@, json_value(rest@[0].1)) == whole->Object_0[k]);
                let (name, first) = rest.remove(0);
                proof {
                    assert(json_value(first) == whole->Object_0[k].1);
                    assert(decreases_to!(whole => whole->Object_0));
                    assert(decreases_to!(whole->Object_0 => whole->Object_0[k]));
                    assert(decreases_to!(whole->Object_0[k] => whole->Object_0[k].1));
                }
                members.push((name, json_from(first)));
            }
            proof {
                each_member_says(members@);
                assert(members_said(members@) =~= whole->Object_0);
            }
            Json::Object(members)
        },
    }
}

/// Reads the value that bytes spell in JSON.
pub fn parse_json(bytes: &[u8]) -> (result: Result<Json, String>)
    ensures
        match result {
            Ok(value) => json_of(bytes@) == Some(value@),
            Err(_) => json_of(bytes@) is None,
        },
{
    match parse_value(bytes) {
        Ok(value) => Ok(json_from(value)),
        Err(message) => Err(message),
    }
}

/// The member of this name from member `from` on.
pub open spec fn member(members: Seq<(Seq<char>, JsonView)>, name: Seq<char>, from: int) -> Option<
    JsonView,
>
    decreases members.len() - from,
{
    if from < 0 || from >= members.len() {
        None
    } else if members[from].0 == name {
        Some(members[from].1)
    } else {
        member(members, name, from + 1)
    }
}

/// The member of a name is the first that has it, and there is none where none
/// has it.
pub proof fn first_member_counts(
    members: Seq<(Seq<char>, JsonView)>,
    name: Seq<char>,
    from: int,
    k: int,
)
    requires
        0 <= from <= k <= members.len(),
        forall|j: int| from <= j < k ==> (#[trigger] members[j]).0 != name,
        k < members.len() ==> members[k].0 == name,
    ensures
        member(members, name, from) == if k < members.len() {
            Some(members[k].1)
        } else {
            None
        },
    decreases k - from,
{
    if from < k {
        first_member_counts(members, name, from + 1, k);
    }
}

impl JsonView {
    /// What the value holds under a name: only an object holds anything, and
    /// what is not there is null.
    pub open spec fn field(self, name: Seq<char>) -> JsonView {
        match self {
            JsonView::Object(members) => match member(members, name, 0) {
                Some(value) => value,
                None => JsonView::Null,
            },
            _ => JsonView::Null,
        }
    }

    /// The unsigned integer that the value is, if it is one.
    pub open spec fn unsigned(self) -> Option<u64> {
        match self {
            JsonView::Number(Numeral::Unsigned(n)) => Some(n),
            _ => None,
        }
    }

    /// The items of an array, or none.
    pub open spec fn items(self) -> Seq<JsonView> {
        match self {
            JsonView::Array(list) => list,
            _ => Seq::empty(),
        }
    }
}

impl Json {
    /// What the value holds under a name.
    pub fn get(&self, name: &str) -> (result: &Json)
        ensures
            result@ == self@.field(name@),
    {
        match self {
            Json::Object(members) => {
                let mut i: usize = 0;
                proof {
                    each_member_says(members@);
                }
                while i < members.len()
                    invariant
                        i <= members.len(),
                        members_said(members@).len() == members.len(),
                        forall|k: int|
                            0 <= k < members.len() ==> #[trigger] members_said(members@)[k] == (
                                members@[k].0@,
                                members@[k].1@,
                            ),
                        self@.field(name@) == match member(
                            members_said(members@),
                            name@,
                            i as int,
                        ) {
                            Some(value) => value,
                            None => JsonView::Null,
                        },
                    decreases members.len() - i,
                {
                    assert(members_said(members@)[i as int] == (
                        members@[i as int].0@,
                        members@[i as int].1@,
                    ));
                    if same(members[i].0.as_str(), name) {
                        return &members[i].1;
                    }
                    i = i + 1;
                }
                &Json::Null
            },
            _ => &Json::Null,
        }
    }

    /// The unsigned integer that the value is.
    pub fn as_unsigned(&self) -> (result: Option<u64>)
        ensures
            result == self@.unsigned(),
    {
        match self {
            Json::Number(Numeral::Unsigned(n)) => Some(*n),
            _ => None,
        }
    }

    /// Whether the value is `true`.
    pub fn is_true(&self) -> (result: bool)
        ensures
            result == (self@ == JsonView::Bool(true)),
    {
        match self {
            Json::Bool(b) => *b,
            _ => false,
        }
    }

    /// Whether the value is null.
    pub fn is_null(&self) -> (result: bool)
        ensures
            result == (self@ is Null),
    {
        match self {
            Json::Null => true,
            _ => false,
        }
    }

    /// Whether the value is this text.
    pub fn is_text(&self, text: &str) -> (result: bool)
        ensures
            result == (self@ == JsonView::Text(text@)),
    {
        match self {
            Json::Text(s) => same(s.as_str(), text),
            _ => false,
        }
    }
}

/// Whether two numbers are the same number, written in the same manner.
pub open spec fn same_number(a: Numeral, b: Numeral) -> bool {
    match (a, b) {
        (Numeral::Real(x), Numeral::Real(y)) => bits::equal64(x, y),
        _ => a == b,
    }
}

/// Whether two values are equal: the same kind, and equal part for part.
pub open spec fn same_json(a: JsonView, b: JsonView) -> bool
    decreases a, 0nat,
{
    match (a, b) {
        (JsonView::Null, JsonView::Null) => true,
        (JsonView::Bool(x), JsonView::Bool(y)) => x == y,
        (JsonView::Number(x), JsonView::Number(y)) => same_number(x, y),
        (JsonView::Text(x), JsonView::Text(y)) => x == y,
        (JsonView::Array(x), JsonView::Array(y)) => x.len() == y.len() && same_items(x, y, 0),
        (JsonView::Object(x), JsonView::Object(y)) => x.len() == y.len() && same_members(x, y, 0),
        _ => false,
    }
}

/// Whether two lists are equal from item `i` on.
pub open spec fn same_items(a: Seq<JsonView>, b: Seq<JsonView>, i: int) -> bool
    decreases a, (a.len() - i) as nat,
{
    if 0 <= i < a.len() {
        same_json(a[i], b[i]) && same_items(a, b, i + 1)
    } else {
        true
    }
}

/// Whether two lists of members are equal from member `i` on.
pub open spec fn same_members(
    a: Seq<(Seq<char>, JsonView)>,
    b: Seq<(Seq<char>, JsonView)>,
    i: int,
) -> bool
    decreases a, (a.len() - i) as nat,
{
    if 0 <= i < a.len() {
        a[i].0 == b[i].0 && same_json(a[i].1, b[i].1) && same_members(a, b, i + 1)
    } else {
        true
    }
}

/// Compares two values.
pub fn equal_json(a: &Json, b: &Json) -> (result: bool)
    ensures
        result == same_json(a@, b@),
    decreases *a,
{
    match (a, b) {
        (Json::Null, Json::Null) => true,
        (Json::Bool(x), Json::Bool(y)) => *x == *y,
        (Json::Number(x), Json::Number(y)) => match (*x, *y) {
            (Numeral::Real(p), Numeral::Real(q)) => is_equal64(p, q),
            (p, q) => p == q,
        },
        (Json::Text(x), Json::Text(y)) => same(x.as_str(), y.as_str()),
        (Json::Array(x), Json::Array(y)) => {
            proof {
                each_item_says(x@);
                each_item_says(y@);
            }
            if x.len() != y.len() {
                return false;
            }
            let ghost p = items_said(x@);
            let ghost q = items_said(y@);
            let mut i: usize = 0;
            while i < x.len()
                invariant
                    i <= x.len(),
                    x.len() == y.len(),
                    *a == Json::Array(*x),
                    same_json(a@, b@) == same_items(p, q, i as int),
                    p.len() == x.len(),
                    forall|k: int| 0 <= k < x.len() ==> #[trigger] p[k] == x@[k]@,
                    forall|k: int| 0 <= k < x.len() ==> #[trigger] q[k] == y@[k]@,
                decreases x.len() - i,
            {
                proof {
                    let list = a->Array_0;
                    assert(decreases_to!(*a => a->Array_0@));
                    assert(decreases_to!(list@ => list@[i as int]));
                    assert(decreases_to!(*a => list@[i as int]));
                    assert(p[i as int] == x@[i as int]@ && q[i as int] == y@[i as int]@);
                }
                if !equal_json(&x[i], &y[i]) {
                    return false;
                }
                i = i + 1;
            }
            true
        },
        (Json::Object(x), Json::Object(y)) => {
            proof {
                each_member_says(x@);
                each_member_says(y@);
            }
            if x.len() != y.len() {
                return false;
            }
            let ghost p = members_said(x@);
            let ghost q = members_said(y@);
            let mut i: usize = 0;
            while i < x.len()
                invariant
                    i <= x.len(),
                    x.len() == y.len(),
                    *a == Json::Object(*x),
                    same_json(a@, b@) == same_members(p, q, i as int),
                    p.len() == x.len(),
                    forall|k: int|
                        0 <= k < x.len() ==> #[trigger] p[k] == (x@[k].0@, x@[k].1@),
                    forall|k: int|
                        0 <= k < x.len() ==> #[trigger] q[k] == (y@[k].0@, y@[k].1@),
                decreases x.len() - i,
            {
                proof {
                    let list = a->Object_0;
                    assert(decreases_to!(*a => a->Object_0@));
                    assert(decreases_to!(list@ => list@[i as int]));
                    assert(decreases_to!(list@[i as int] => list@[i as int].1));
                    assert(decreases_to!(*a => list@[i as int].1));
                    assert(p[i as int].1 == x@[i as int].1@ && q[i as int].1 == y@[i as int].1@);
                }
                if !same(x[i].0.as_str(), y[i].0.as_str()) || !equal_json(&x[i].1, &y[i].1) {
                    return false;
                }
                i = i + 1;
            }
            true
        },
        _ => false,
    }
}

/// The bits of the `f64` one hundredth.
pub const HUNDREDTH64: u64 = 0x3f84_7ae1_47ae_147b;

/// Whether a number is at least one hundredth and at most one.
pub open spec fn visible_share(n: Numeral) -> bool {
    match n {
        Numeral::Unsigned(u) => u == 1,
        Numeral::Negative(_) => false,
        Numeral::Real(x) => bits::at_most64(HUNDREDTH64, x) && bits::at_most64(x, ONE64),
    }
}

/// Whether a number is at least one hundredth and at most one.
pub fn is_visible_share(n: Numeral) -> (result: bool)
    ensures
        result == visible_share(n),
{
    match n {
        Numeral::Unsigned(u) => u == 1,
        Numeral::Negative(_) => false,
        Numeral::Real(x) => is_at_most64(HUNDREDTH64, x) && is_at_most64(x, ONE64),
    }
}

/// What a value holds under a name is the member that first has it. There is
/// nothing where no member has it, and nothing where the value is no object.
pub proof fn names_find_their_members(value: Json, name: &str, k: int, result: &Json)
    requires
        call_ensures(Json::get, (&value, name), result),
        0 <= k,
    ensures
        match value@ {
            JsonView::Object(members) => {
                &&& k < members.len() && members[k].0 == name@ && (forall|j: int|
                    0 <= j < k ==> (#[trigger] members[j]).0 != name@) ==> result@ == members[k].1
                &&& (forall|j: int| 0 <= j < members.len() ==> (#[trigger] members[j]).0 != name@)
                    ==> result@ is Null
            },
            _ => result@ is Null,
        },
{
    match value@ {
        JsonView::Object(members) => {
            if k < members.len() && members[k].0 == name@ && (forall|j: int|
                0 <= j < k ==> (#[trigger] members[j]).0 != name@) {
                first_member_counts(members, name@, 0, k);
            }
            if forall|j: int| 0 <= j < members.len() ==> (#[trigger] members[j]).0 != name@ {
                first_member_counts(members, name@, 0, members.len() as int);
            }
        },
        _ => {},
    }
}

proof fn lemma_same_items(a: Seq<JsonView>, b: Seq<JsonView>, i: int)
    requires
        0 <= i <= a.len(),
    ensures
        same_items(a, b, i) <==> forall|k: int|
            i <= k < a.len() ==> same_json(#[trigger] a[k], b[k]),
    decreases a.len() - i,
{
    if i < a.len() {
        lemma_same_items(a, b, i + 1);
        if same_items(a, b, i) {
            assert forall|k: int| i <= k < a.len() implies same_json(#[trigger] a[k], b[k]) by {}
        }
        if forall|k: int| i <= k < a.len() ==> same_json(#[trigger] a[k], b[k]) {
            assert(same_json(a[i], b[i]));
        }
    }
}

proof fn lemma_same_members(
    a: Seq<(Seq<char>, JsonView)>,
    b: Seq<(Seq<char>, JsonView)>,
    i: int,
)
    requires
        0 <= i <= a.len(),
    ensures
        same_members(a, b, i) <==> forall|k: int|
            i <= k < a.len() ==> (#[trigger] a[k]).0 == b[k].0 && same_json(a[k].1, b[k].1),
    decreases a.len() - i,
{
    if i < a.len() {
        lemma_same_members(a, b, i + 1);
        if forall|k: int|
            i <= k < a.len() ==> (#[trigger] a[k]).0 == b[k].0 && same_json(a[k].1, b[k].1) {
            assert(a[i].0 == b[i].0);
        }
    }
}

/// Values are equal exactly if they are of one kind and equal part for part:
/// texts letter for letter, lists item for item at every place, objects member
/// for member, whole numbers as numbers.
pub proof fn equality_goes_part_by_part(a: Json, b: Json, result: bool)
    requires
        call_ensures(equal_json, (&a, &b), result),
    ensures
        match (a@, b@) {
            (JsonView::Null, JsonView::Null) => result,
            (JsonView::Bool(x), JsonView::Bool(y)) => result <==> x == y,
            (JsonView::Number(x), JsonView::Number(y)) => match (x, y) {
                (Numeral::Real(p), Numeral::Real(q)) => result <==> bits::equal64(p, q),
                _ => result <==> x == y,
            },
            (JsonView::Text(x), JsonView::Text(y)) => result <==> x == y,
            (JsonView::Array(x), JsonView::Array(y)) => result <==> x.len() == y.len() && forall|
                k: int,
            |
                0 <= k < x.len() ==> same_json(#[trigger] x[k], y[k]),
            (JsonView::Object(x), JsonView::Object(y)) => result <==> x.len() == y.len() && forall|
                k: int,
            |
                0 <= k < x.len() ==> (#[trigger] x[k]).0 == y[k].0 && same_json(x[k].1, y[k].1),
            _ => !result,
        },
{
    match (a@, b@) {
        (JsonView::Array(x), JsonView::Array(y)) => {
            lemma_same_items(x, y, 0);
        },
        (JsonView::Object(x), JsonView::Object(y)) => {
            lemma_same_members(x, y, 0);
        },
        _ => {},
    }
}

/// A share is visible from one hundredth on, up to one; among whole numbers only
/// one is, and nothing below zero.
pub proof fn shares_are_between_a_hundredth_and_one(n: Numeral, result: bool)
    requires
        call_ensures(is_visible_share, (n,), result),
    ensures
        n matches Numeral::Unsigned(u) ==> (result <==> u == 1),
        n is Negative ==> !result,
        n matches Numeral::Real(x) ==> (result <==> bits::at_most64(HUNDREDTH64, x)
            && bits::at_most64(x, ONE64)),
{
}

} // verus!
