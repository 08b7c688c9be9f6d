//! JSON values, their fields and their compact text.
use vstd::prelude::*;
use vstd::string::*;

use crate::order;
use crate::order::sorted_by;
use crate::text;
use crate::text::{number_of, precedes};
use crate::time;
use crate::time::stamped_if;

verus! {

/// A JSON value. A number is held as the text that stands for it.
#[derive(Debug)]
pub enum Json {
    /// `null`
    Null,
    /// `true` or `false`
    Bool(bool),
    /// A number.
    Number(String),
    /// A string.
    Text(String),
    /// A list of values.
    Array(Vec<Json>),
    /// A list of named values.
    Object(Vec<(String, Json)>),
}

/// The contents of a JSON value.
#[verifier::ext_equal]
pub enum JsonView {
    /// `null`
    Null,
    /// `true` or `false`
    Bool(bool),
    /// A number.
    Number(Seq<char>),
    /// A string.
    Text(Seq<char>),
    /// A list of values.
    Array(Seq<JsonView>),
    /// A list of named values.
    Object(Seq<(Seq<char>, JsonView)>),
}

/// The contents of a JSON value.
pub open spec fn json_view(j: Json) -> JsonView
    decreases j,
{
    match j {
        Json::Null => JsonView::Null,
        Json::Bool(b) => JsonView::Bool(b),
        Json::Number(t) => JsonView::Number(t@),
        Json::Text(t) => JsonView::Text(t@),
        Json::Array(items) => JsonView::Array(items_view(items@)),
        Json::Object(fields) => JsonView::Object(fields_view(fields@)),
    }
}

/// The contents of a list of JSON values.
pub open spec fn items_view(items: Seq<Json>) -> Seq<JsonView>
    decreases items,
{
    if items.len() == 0 {
        Seq::empty()
    } else {
        items_view(items.drop_last()).push(json_view(items.last()))
    }
}

/// The contents of a list of named JSON values.
pub open spec fn fields_view(fields: Seq<(String, Json)>) -> Seq<(Seq<char>, JsonView)>
    decreases fields,
{
    if fields.len() == 0 {
        Seq::empty()
    } else {
        fields_view(fields.drop_last()).push((fields.last().0@, json_view(fields.last().1)))
    }
}

impl View for Json {
    type V = JsonView;

    open spec fn view(&self) -> JsonView {
        json_view(*self)
    }
}

/// The elements of `items_view`.
pub proof fn lemma_items_view(items: Seq<Json>)
    ensures
        items_view(items).len() == items.len(),
        forall|i: int| 0 <= i < items.len() ==> #[trigger] items_view(items)[i] == json_view(items[i]),
    decreases items.len(),
{
    if items.len() > 0 {
        lemma_items_view(items.drop_last());
    }
}

/// The elements of `fields_view`.
pub proof fn lemma_fields_view(fields: Seq<(String, Json)>)
    ensures
        fields_view(fields).len() == fields.len(),
        forall|i: int|
            0 <= i < fields.len() ==> #[trigger] fields_view(fields)[i] == (
                fields[i].0@,
                json_view(fields[i].1),
            ),
    decreases fields.len(),
{
    if fields.len() > 0 {
        lemma_fields_view(fields.drop_last());
    }
}

/// A list of values that grew by one.
pub proof fn lemma_items_push(items: Seq<Json>, j: Json)
    ensures
        items_view(items.push(j)) == items_view(items).push(json_view(j)),
{
    assert(items.push(j).drop_last() =~= items);
}

/// A list of named values that grew by one.
pub proof fn lemma_fields_push(fields: Seq<(String, Json)>, f: (String, Json))
    ensures
        fields_view(fields.push(f)) == fields_view(fields).push((f.0@, json_view(f.1))),
{
    assert(fields.push(f).drop_last() =~= fields);
}

impl Json {
    /// A copy of the value.
    pub fn copy(&self) -> (r: Json)
        ensures
            r@ == self@,
        decreases *self,
    {
        match self {
            Json::Null => Json::Null,
            Json::Bool(b) => Json::Bool(*b),
            Json::Number(t) => Json::Number(t.clone()),
            Json::Text(t) => Json::Text(t.clone()),
            Json::Array(items) => {
                let mut out: Vec<Json> = Vec::new();
                let mut i: usize = 0;
                proof {
                    assert(items@.take(0) =~= Seq::empty());
                }
                while i < items.len()
                    invariant
                        *self == Json::Array(*items),
                        i <= items@.len(),
                        items_view(out@) == items_view(items@.take(i as int)),
                    decreases items@.len() - i,
                {
                    proof {
                        assert(decreases_to!(*self => self->Array_0));
                        assert(decreases_to!(*items => items@));
                        assert(decreases_to!(items@ => items@[i as int]));
                    }
                    let item = items[i].copy();
                    proof {
                        assert(items@.take(i + 1) =~= items@.take(i as int).push(items@[i as int]));
                        lemma_items_push(items@.take(i as int), items@[i as int]);
                        lemma_items_push(out@, item);
                    }
                    out.push(item);
                    i = i + 1;
                }
                proof {
                    assert(items@.take(i as int) =~= items@);
                }
                Json::Array(out)
            },
            Json::Object(fields) => {
                let mut out: Vec<(String, Json)> = Vec::new();
                let mut i: usize = 0;
                proof {
                    assert(fields@.take(0) =~= Seq::empty());
                }
                while i < fields.len()
                    invariant
                        *self == Json::Object(*fields),
                        i <= fields@.len(),
                        fields_view(out@) == fields_view(fields@.take(i as int)),
                    decreases fields@.len() - i,
                {
                    proof {
                        assert(decreases_to!(*self => self->Object_0));
                        assert(decreases_to!(*fields => fields@));
                        assert(decreases_to!(fields@ => fields@[i as int]));
                        assert(decreases_to!(fields@[i as int] => fields@[i as int].1));
                    }
                    let field = (fields[i].0.clone(), fields[i].1.copy());
                    proof {
                        assert(fields@.take(i + 1) =~= fields@.take(i as int).push(
                            fields@[i as int],
                        ));
                        lemma_fields_push(fields@.take(i as int), fields@[i as int]);
                        lemma_fields_push(out@, field);
                    }
                    out.push(field);
                    i = i + 1;
                }
                proof {
                    assert(fields@.take(i as int) =~= fields@);
                }
                Json::Object(out)
            },
        }
    }
}

// ---------------------------------------------------------------------------
// Fields
// ---------------------------------------------------------------------------

/// The value of the first field with a name.
pub open spec fn field(fields: Seq<(Seq<char>, JsonView)>, name: Seq<char>) -> Option<JsonView>
    decreases fields.len(),
{
    if fields.len() == 0 {
        None
    } else if fields[0].0 == name {
        Some(fields[0].1)
    } else {
        field(fields.drop_first(), name)
    }
}

/// The place of the first field with a name, or the number of fields where there is none.
pub open spec fn field_place(fields: Seq<(Seq<char>, JsonView)>, name: Seq<char>) -> int
    decreases fields.len(),
{
    if fields.len() == 0 || fields[0].0 == name {
        0
    } else {
        1 + field_place(fields.drop_first(), name)
    }
}

/// The fields with one of them set: its value is replaced where the name is there, else it is
/// put behind the others.
pub open spec fn with_field(
    fields: Seq<(Seq<char>, JsonView)>,
    name: Seq<char>,
    value: JsonView,
) -> Seq<(Seq<char>, JsonView)> {
    let k = field_place(fields, name);
    if k < fields.len() {
        fields.update(k, (name, value))
    } else {
        fields.push((name, value))
    }
}

proof fn lemma_field_place(fields: Seq<(Seq<char>, JsonView)>, name: Seq<char>, k: int)
    requires
        0 <= k <= fields.len(),
        k < fields.len() ==> fields[k].0 == name,
        forall|j: int| 0 <= j < k ==> (#[trigger] fields[j]).0 != name,
    ensures
        field_place(fields, name) == k,
        field(fields, name) == (if k < fields.len() {
            Some(fields[k].1)
        } else {
            None
        }),
    decreases k,
{
    if k > 0 {
        assert(fields[0].0 != name);
        assert forall|j: int| 0 <= j < k - 1 implies (#[trigger] fields.drop_first()[j]).0
            != name by {
            assert(fields.drop_first()[j] == fields[j + 1]);
        }
        lemma_field_place(fields.drop_first(), name, k - 1);
    }
}

fn find_field(fields: &Vec<(String, Json)>, name: &str) -> (r: usize)
    ensures
        r == field_place(fields_view(fields@), name@),
        r <= fields@.len(),
        field(fields_view(fields@), name@) == (if r < fields@.len() {
            Some(fields@[r as int].1@)
        } else {
            None
        }),
{
    let mut i: usize = 0;
    proof {
        lemma_fields_view(fields@);
    }
    while i < fields.len() && !text::same(fields[i].0.as_str(), name)
        invariant
            i <= fields@.len(),
            forall|j: int| 0 <= j < i ==> (#[trigger] fields@[j]).0@ != name@,
        decreases fields@.len() - i,
    {
        i = i + 1;
    }
    proof {
        let view = fields_view(fields@);
        assert forall|j: int| 0 <= j < i implies (#[trigger] view[j]).0 != name@ by {
            assert(fields@[j].0@ != name@);
        }
        lemma_field_place(view, name@, i as int);
    }
    i
}

/// The value of a field.
pub fn get<'a>(fields: &'a Vec<(String, Json)>, name: &str) -> (r: Option<&'a Json>)
    ensures
        match r {
            Some(j) => field(fields_view(fields@), name@) == Some(j@),
            None => field(fields_view(fields@), name@) is None,
        },
        match r {
            Some(j) => exists|i: int| 0 <= i < fields@.len() && #[trigger] fields@[i].1 == *j,
            None => true,
        },
{
    let i: usize = find_field(fields, name);
    if i < fields.len() {
        Some(&fields[i].1)
    } else {
        None
    }
}

/// Sets a field.
pub fn set_field(fields: &mut Vec<(String, Json)>, name: &str, value: Json)
    ensures
        fields_view(final(fields)@) == with_field(fields_view(old(fields)@), name@, value@),
{
    let i: usize = find_field(fields, name);
    let ghost before = fields@;
    let entry = (name.to_owned(), value);
    proof {
        lemma_fields_view(before);
    }
    if i < fields.len() {
        fields.set(i, entry);
        proof {
            lemma_fields_view(fields@);
            assert(fields_view(fields@) =~= fields_view(before).update(i as int, (name@, value@)));
        }
    } else {
        proof {
            lemma_fields_push(before, entry);
        }
        fields.push(entry);
    }
}

/// Setting a field changes that field alone.
pub proof fn set_fields_are_kept(
    fields: Seq<(Seq<char>, JsonView)>,
    name: Seq<char>,
    value: JsonView,
    other: Seq<char>,
)
    ensures
        field(with_field(fields, name, value), other) == (if other == name {
            Some(value)
        } else {
            field(fields, other)
        }),
    decreases fields.len(),
{
    let after = with_field(fields, name, value);
    if fields.len() == 0 {
        assert(after =~= seq![(name, value)]);
        assert(after.drop_first() =~= Seq::empty());
        assert(field(after.drop_first(), other) is None);
    } else {
        let rest = fields.drop_first();
        lemma_field_place_range(fields, name);
        if fields[0].0 == name {
            assert(after[0] == (name, value));
            assert(after.drop_first() =~= rest);
        } else {
            lemma_field_place_range(rest, name);
            assert(after[0] == fields[0]);
            assert(after.drop_first() =~= with_field(rest, name, value));
            set_fields_are_kept(rest, name, value, other);
        }
    }
}

proof fn lemma_field_place_range(fields: Seq<(Seq<char>, JsonView)>, name: Seq<char>)
    ensures
        0 <= field_place(fields, name) <= fields.len(),
    decreases fields.len(),
{
    if fields.len() > 0 && fields[0].0 != name {
        lemma_field_place_range(fields.drop_first(), name);
    }
}

/// The count that a number stands for.
pub open spec fn count_of(j: JsonView) -> Option<nat> {
    match j {
        JsonView::Number(t) => number_of(t, u64::MAX as nat),
        _ => None,
    }
}

/// The count that a number stands for.
pub fn as_count(j: &Json) -> (r: Option<u64>)
    ensures
        match r {
            Some(n) => count_of(j@) == Some(n as nat),
            None => count_of(j@) is None,
        },
{
    match j {
        Json::Number(t) => text::parse_number(t.as_str(), u64::MAX),
        _ => None,
    }
}

/// The text of a string value.
pub open spec fn text_of(j: Option<JsonView>) -> Option<Seq<char>> {
    match j {
        Some(JsonView::Text(t)) => Some(t),
        _ => None,
    }
}

/// The text of a field that is a string.
pub fn get_text<'a>(fields: &'a Vec<(String, Json)>, name: &str) -> (r: Option<&'a String>)
    ensures
        match r {
            Some(t) => text_of(field(fields_view(fields@), name@)) == Some(t@),
            None => text_of(field(fields_view(fields@), name@)) is None,
        },
{
    match get(fields, name) {
        Some(Json::Text(t)) => Some(t),
        _ => None,
    }
}

// ---------------------------------------------------------------------------
// Sorted objects
// ---------------------------------------------------------------------------

/// One field comes before another by name.
pub open spec fn name_before() -> spec_fn((Seq<char>, JsonView), (Seq<char>, JsonView)) -> bool {
    |a: (Seq<char>, JsonView), b: (Seq<char>, JsonView)| precedes(a.0, b.0)
}

/// The value with the fields of every object in it in the order of their names.
pub open spec fn sorted_json(j: JsonView) -> JsonView
    decreases j,
{
    match j {
        JsonView::Array(items) => JsonView::Array(sorted_items(items)),
        JsonView::Object(fields) => JsonView::Object(
            sorted_by(sorted_fields(fields), name_before()),
        ),
        _ => j,
    }
}

/// Each value of a list with its objects sorted.
pub open spec fn sorted_items(items: Seq<JsonView>) -> Seq<JsonView>
    decreases items,
{
    if items.len() == 0 {
        Seq::empty()
    } else {
        sorted_items(items.drop_last()).push(sorted_json(items.last()))
    }
}

/// Each named value of a list with its objects sorted, the names where they were.
pub open spec fn sorted_fields(fields: Seq<(Seq<char>, JsonView)>) -> Seq<(Seq<char>, JsonView)>
    decreases fields,
{
    if fields.len() == 0 {
        Seq::empty()
    } else {
        sorted_fields(fields.drop_last()).push((fields.last().0, sorted_json(fields.last().1)))
    }
}

proof fn lemma_field_push(
    fields: Seq<(Seq<char>, JsonView)>,
    last: (Seq<char>, JsonView),
    name: Seq<char>,
)
    ensures
        field(fields.push(last), name) == (match field(fields, name) {
            Some(v) => Some(v),
            None => if last.0 == name {
                Some(last.1)
            } else {
                None
            },
        }),
    decreases fields.len(),
{
    let all = fields.push(last);
    if fields.len() == 0 {
        assert(all.drop_first() =~= fields);
    } else {
        assert(all.drop_first() =~= fields.drop_first().push(last));
        lemma_field_push(fields.drop_first(), last, name);
    }
}

proof fn lemma_field_placed(
    fields: Seq<(Seq<char>, JsonView)>,
    x: (Seq<char>, JsonView),
    name: Seq<char>,
)
    ensures
        field(order::placed(fields, x, name_before()), name) == (match field(fields, name) {
            Some(v) => Some(v),
            None => if x.0 == name {
                Some(x.1)
            } else {
                None
            },
        }),
    decreases fields.len(),
{
    let lt = name_before();
    if fields.len() == 0 {
        assert(order::placed(fields, x, lt) =~= fields.push(x));
        lemma_field_push(fields, x, name);
    } else if lt(x, fields.last()) {
        let front = fields.drop_last();
        let y = fields.last();
        lemma_field_placed(front, x, name);
        lemma_field_push(order::placed(front, x, lt), y, name);
        lemma_field_push(front, y, name);
        assert(front.push(y) =~= fields);
        text::precedes_irreflexive(name);
    } else {
        lemma_field_push(fields, x, name);
    }
}

proof fn lemma_field_sorted(fields: Seq<(Seq<char>, JsonView)>, name: Seq<char>)
    ensures
        field(sorted_by(fields, name_before()), name) == field(fields, name),
    decreases fields.len(),
{
    if fields.len() > 0 {
        let front = fields.drop_last();
        lemma_field_sorted(front, name);
        lemma_field_placed(sorted_by(front, name_before()), fields.last(), name);
        lemma_field_push(front, fields.last(), name);
        assert(front.push(fields.last()) =~= fields);
    }
}

proof fn lemma_field_of_sorted(fields: Seq<(Seq<char>, JsonView)>, name: Seq<char>)
    ensures
        field(sorted_fields(fields), name) == (match field(fields, name) {
            Some(v) => Some(sorted_json(v)),
            None => None,
        }),
    decreases fields.len(),
{
    if fields.len() > 0 {
        let front = fields.drop_last();
        let last = fields.last();
        lemma_field_of_sorted(front, name);
        lemma_field_push(sorted_fields(front), (last.0, sorted_json(last.1)), name);
        lemma_field_push(front, last, name);
        assert(front.push(last) =~= fields);
    }
}

/// Sorting an object keeps the value of every field, itself sorted.
pub proof fn sorting_keeps_fields(fields: Seq<(Seq<char>, JsonView)>, name: Seq<char>)
    ensures
        sorted_json(JsonView::Object(fields)) matches JsonView::Object(sorted) && field(
            sorted,
            name,
        ) == (match field(fields, name) {
            Some(v) => Some(sorted_json(v)),
            None => None,
        }),
{
    lemma_field_sorted(sorted_fields(fields), name);
    lemma_field_of_sorted(fields, name);
}

/// Each item of a sorted list is the item sorted.
pub proof fn lemma_sorted_items(items: Seq<JsonView>)
    ensures
        sorted_items(items).len() == items.len(),
        forall|i: int|
            0 <= i < items.len() ==> #[trigger] sorted_items(items)[i] == sorted_json(items[i]),
    decreases items.len(),
{
    if items.len() > 0 {
        lemma_sorted_items(items.drop_last());
    }
}

/// Sorting moves the fields of objects and changes nothing else: a text, a number, a truth and
/// nothing stay as they are, a list keeps its length and the order of its items, and an object has
/// as many fields as before.
pub proof fn sorting_moves_fields_alone(j: JsonView)
    ensures
        match j {
            JsonView::Array(items) => sorted_json(j) matches JsonView::Array(s) && s.len()
                == items.len() && forall|i: int|
                0 <= i < items.len() ==> #[trigger] s[i] == sorted_json(items[i]),
            JsonView::Object(fields) => sorted_json(j) matches JsonView::Object(s) && s.len()
                == fields.len(),
            _ => sorted_json(j) == j,
        },
{
    match j {
        JsonView::Array(items) => {
            lemma_sorted_items(items);
        },
        JsonView::Object(fields) => {
            lemma_sorted_fields_len(fields);
            order::sorting_permutes(sorted_fields(fields), name_before());
        },
        _ => {},
    }
}

proof fn lemma_sorted_fields_len(fields: Seq<(Seq<char>, JsonView)>)
    ensures
        sorted_fields(fields).len() == fields.len(),
        forall|i: int|
            0 <= i < fields.len() ==> (#[trigger] sorted_fields(fields)[i]).0 == fields[i].0,
    decreases fields.len(),
{
    if fields.len() > 0 {
        lemma_sorted_fields_len(fields.drop_last());
    }
}

/// No two fields have the same name.
pub open spec fn names_differ(fields: Seq<(Seq<char>, JsonView)>) -> bool {
    forall|i: int, j: int|
        0 <= i < j < fields.len() ==> (#[trigger] fields[i]).0 != (#[trigger] fields[j]).0
}

/// Every name comes before those behind it.
spec fn fields_ascend(fields: Seq<(Seq<char>, JsonView)>) -> bool {
    forall|i: int, j: int|
        0 <= i < j < fields.len() ==> precedes(
            (#[trigger] fields[i]).0,
            (#[trigger] fields[j]).0,
        )
}

proof fn lemma_placed_ascends(fields: Seq<(Seq<char>, JsonView)>, x: (Seq<char>, JsonView))
    requires
        fields_ascend(fields),
        forall|i: int| 0 <= i < fields.len() ==> (#[trigger] fields[i]).0 != x.0,
    ensures
        fields_ascend(order::placed(fields, x, name_before())),
        order::placed(fields, x, name_before()).len() == fields.len() + 1,
        forall|i: int|
            0 <= i <= fields.len() ==> (#[trigger] order::placed(
                fields,
                x,
                name_before(),
            )[i]).0 == x.0 || exists|k: int|
                0 <= k < fields.len() && (#[trigger] fields[k]).0 == order::placed(
                    fields,
                    x,
                    name_before(),
                )[i].0,
    decreases fields.len(),
{
    let r = order::placed(fields, x, name_before());
    if fields.len() == 0 {
        assert(r =~= seq![x]);
    } else {
        let front = fields.drop_last();
        let last = fields.last();
        assert(fields[fields.len() - 1] == last);
        if precedes(x.0, last.0) {
            assert forall|i: int, j: int| 0 <= i < j < front.len() implies precedes(
                (#[trigger] front[i]).0,
                (#[trigger] front[j]).0,
            ) by {
                assert(front[i] == fields[i] && front[j] == fields[j]);
            }
            assert forall|i: int| 0 <= i < front.len() implies (#[trigger] front[i]).0 != x.0 by {
                assert(front[i] == fields[i]);
            }
            lemma_placed_ascends(front, x);
            let p = order::placed(front, x, name_before());
            assert(r =~= p.push(last));
            assert forall|i: int| 0 <= i < p.len() implies precedes((#[trigger] p[i]).0, last.0) && (
            p[i].0 == x.0 || exists|k: int|
                0 <= k < fields.len() && (#[trigger] fields[k]).0 == p[i].0) by {
                if p[i].0 != x.0 {
                    let k = choose|k: int| 0 <= k < front.len() && (#[trigger] front[k]).0 == p[i].0;
                    assert(front[k] == fields[k]);
                    assert(precedes(fields[k].0, fields[fields.len() - 1].0));
                }
            }
            assert forall|i: int, j: int| 0 <= i < j < r.len() implies precedes(
                (#[trigger] r[i]).0,
                (#[trigger] r[j]).0,
            ) by {
                assert(r[i] == p[i]);
                if j < p.len() {
                    assert(r[j] == p[j]);
                }
            }
            assert forall|i: int| 0 <= i <= fields.len() implies (#[trigger] r[i]).0 == x.0
                || exists|k: int|
                0 <= k < fields.len() && (#[trigger] fields[k]).0 == r[i].0 by {
                if i < p.len() {
                    assert(r[i] == p[i]);
                }
            }
        } else {
            assert(r =~= fields.push(x));
            text::precedes_total(x.0, last.0);
            assert forall|i: int, j: int| 0 <= i < j < r.len() implies precedes(
                (#[trigger] r[i]).0,
                (#[trigger] r[j]).0,
            ) by {
                assert(r[i] == fields[i]);
                if j < fields.len() {
                    assert(r[j] == fields[j]);
                } else if i < fields.len() - 1 {
                    assert(precedes(fields[i].0, fields[fields.len() - 1].0));
                    text::precedes_transitive(fields[i].0, last.0, x.0);
                }
            }
            assert forall|i: int| 0 <= i <= fields.len() implies (#[trigger] r[i]).0 == x.0
                || exists|k: int|
                0 <= k < fields.len() && (#[trigger] fields[k]).0 == r[i].0 by {
                if i < fields.len() {
                    assert(r[i] == fields[i]);
                }
            }
        }
    }
}

proof fn lemma_sorted_ascends(fields: Seq<(Seq<char>, JsonView)>)
    requires
        names_differ(fields),
    ensures
        fields_ascend(sorted_by(fields, name_before())),
        sorted_by(fields, name_before()).len() == fields.len(),
        forall|i: int|
            0 <= i < fields.len() ==> exists|k: int|
                0 <= k < fields.len() && (#[trigger] fields[k]).0 == (#[trigger] sorted_by(
                    fields,
                    name_before(),
                )[i]).0,
    decreases fields.len(),
{
    if fields.len() > 0 {
        let front = fields.drop_last();
        let last = fields.last();
        assert forall|i: int, j: int| 0 <= i < j < front.len() implies (#[trigger] front[i]).0 != (
        #[trigger] front[j]).0 by {
            assert(front[i] == fields[i] && front[j] == fields[j]);
        }
        lemma_sorted_ascends(front);
        let s = sorted_by(front, name_before());
        assert forall|i: int| 0 <= i < s.len() implies (#[trigger] s[i]).0 != last.0 by {
            let k = choose|k: int| 0 <= k < front.len() && (#[trigger] front[k]).0 == s[i].0;
            assert(fields[k] == front[k]);
            assert(fields[k].0 != fields[fields.len() - 1].0);
        }
        lemma_placed_ascends(s, last);
        let r = sorted_by(fields, name_before());
        assert forall|i: int| 0 <= i < fields.len() implies exists|k: int|
            0 <= k < fields.len() && (#[trigger] fields[k]).0 == (#[trigger] r[i]).0 by {
            if r[i].0 == last.0 {
                assert(fields[fields.len() - 1].0 == r[i].0);
            } else {
                let j = choose|j: int| 0 <= j < s.len() && (#[trigger] s[j]).0 == r[i].0;
                let k = choose|k: int| 0 <= k < front.len() && (#[trigger] front[k]).0 == s[j].0;
                assert(fields[k].0 == r[i].0);
            }
        }
    }
}

proof fn lemma_ascending_field(s: Seq<(Seq<char>, JsonView)>, i: int)
    requires
        fields_ascend(s),
        0 <= i < s.len(),
    ensures
        field(s, s[i].0) == Some(s[i].1),
{
    assert forall|j: int| 0 <= j < i implies (#[trigger] s[j]).0 != s[i].0 by {
        assert(precedes(s[j].0, s[i].0));
        text::precedes_irreflexive(s[i].0);
    }
    lemma_field_place(s, s[i].0, i);
}

proof fn lemma_field_there(s: Seq<(Seq<char>, JsonView)>, name: Seq<char>) -> (i: int)
    requires
        field(s, name) is Some,
    ensures
        0 <= i < s.len(),
        s[i].0 == name,
        field(s, name) == Some(s[i].1),
    decreases s.len(),
{
    if s[0].0 == name {
        0
    } else {
        let i = lemma_field_there(s.drop_first(), name);
        i + 1
    }
}

proof fn lemma_ascending_same(s: Seq<(Seq<char>, JsonView)>, t: Seq<(Seq<char>, JsonView)>)
    requires
        fields_ascend(s),
        fields_ascend(t),
        s.len() == t.len(),
        forall|name: Seq<char>| #[trigger] field(s, name) == field(t, name),
    ensures
        s == t,
    decreases s.len(),
{
    if s.len() > 0 {
        let n = s.len() - 1;
        lemma_ascending_field(s, n);
        lemma_ascending_field(t, n);
        assert(field(s, s[n].0) == field(t, s[n].0));
        assert(field(s, t[n].0) == field(t, t[n].0));
        let i = lemma_field_there(t, s[n].0);
        let j = lemma_field_there(s, t[n].0);
        if i < n && j < n {
            assert(precedes(t[i].0, t[n].0));
            assert(precedes(s[j].0, s[n].0));
            text::precedes_transitive(s[n].0, t[n].0, s[n].0);
            text::precedes_irreflexive(s[n].0);
        }
        assert(s[n] == t[n]);
        let (a, b) = (s.drop_last(), t.drop_last());
        assert forall|i: int, j: int| 0 <= i < j < a.len() implies precedes(
            (#[trigger] a[i]).0,
            (#[trigger] a[j]).0,
        ) by {
            assert(a[i] == s[i] && a[j] == s[j]);
        }
        assert forall|i: int, j: int| 0 <= i < j < b.len() implies precedes(
            (#[trigger] b[i]).0,
            (#[trigger] b[j]).0,
        ) by {
            assert(b[i] == t[i] && b[j] == t[j]);
        }
        assert forall|name: Seq<char>| #[trigger] field(a, name) == field(b, name) by {
            assert(field(s, name) == field(t, name));
            lemma_field_push(a, s[n], name);
            lemma_field_push(b, t[n], name);
            assert(a.push(s[n]) =~= s);
            assert(b.push(t[n]) =~= t);
            if name == s[n].0 {
                if field(a, name) is Some {
                    let k = lemma_field_there(a, name);
                    assert(a[k] == s[k]);
                    assert(precedes(s[k].0, s[n].0));
                    text::precedes_irreflexive(name);
                }
                if field(b, name) is Some {
                    let k = lemma_field_there(b, name);
                    assert(b[k] == t[k]);
                    assert(precedes(t[k].0, t[n].0));
                    text::precedes_irreflexive(name);
                }
            }
        }
        lemma_ascending_same(a, b);
        assert(s =~= a.push(s[n]));
        assert(t =~= b.push(t[n]));
    }
}

/// The order of the fields of an object makes no difference once they are sorted: two objects with
/// as many fields, no two of the same name, and the same values under the same names are sorted
/// alike.
pub proof fn order_of_fields_makes_no_difference(
    f: Seq<(Seq<char>, JsonView)>,
    g: Seq<(Seq<char>, JsonView)>,
)
    requires
        names_differ(f),
        names_differ(g),
        f.len() == g.len(),
        forall|name: Seq<char>| #[trigger] field(f, name) == field(g, name),
    ensures
        sorted_json(JsonView::Object(f)) == sorted_json(JsonView::Object(g)),
{
    let (x, y) = (sorted_fields(f), sorted_fields(g));
    lemma_sorted_fields_len(f);
    lemma_sorted_fields_len(g);
    assert forall|i: int, j: int| 0 <= i < j < x.len() implies (#[trigger] x[i]).0 != (
    #[trigger] x[j]).0 by {
        assert(f[i].0 != f[j].0);
    }
    assert forall|i: int, j: int| 0 <= i < j < y.len() implies (#[trigger] y[i]).0 != (
    #[trigger] y[j]).0 by {
        assert(g[i].0 != g[j].0);
    }
    lemma_sorted_ascends(x);
    lemma_sorted_ascends(y);
    let (s, t) = (sorted_by(x, name_before()), sorted_by(y, name_before()));
    assert forall|name: Seq<char>| #[trigger] field(s, name) == field(t, name) by {
        assert(field(f, name) == field(g, name));
        lemma_field_sorted(x, name);
        lemma_field_sorted(y, name);
        lemma_field_of_sorted(f, name);
        lemma_field_of_sorted(g, name);
    }
    lemma_ascending_same(s, t);
}

spec fn entry_before() -> spec_fn((String, Json), (String, Json)) -> bool {
    |a: (String, Json), b: (String, Json)| precedes(a.0@, b.0@)
}

fn entry_is_before(a: &(String, Json), b: &(String, Json)) -> (o: bool)
    ensures
        o == entry_before()(*a, *b),
{
    text::before(a.0.as_str(), b.0.as_str())
}

/// A list of named values in the order of the names.
pub fn sort_fields(fields: Vec<(String, Json)>) -> (r: Vec<(String, Json)>)
    ensures
        fields_view(r@) == sorted_by(fields_view(fields@), name_before()),
{
    let ghost before = fields@;
    let sorted = order::sort(fields, entry_is_before, Ghost(entry_before()));
    proof {
        let f = |e: (String, Json)| (e.0@, json_view(e.1));
        order::sorting_maps(before, f, entry_before(), name_before());
        lemma_fields_view(before);
        lemma_fields_view(sorted@);
        assert(before.map_values(f) =~= fields_view(before));
        assert(sorted@.map_values(f) =~= fields_view(sorted@));
    }
    sorted
}

/// The value with the fields of every object in it in the order of their names.
pub fn sort_json_objects(value: &Json) -> (r: Json)
    ensures
        r@ == sorted_json(value@),
    decreases *value,
{
    match value {
        Json::Array(items) => {
            let mut out: Vec<Json> = Vec::new();
            let mut i: usize = 0;
            proof {
                assert(items@.take(0) =~= Seq::empty());
            }
            while i < items.len()
                invariant
                    *value == Json::Array(*items),
                    i <= items@.len(),
                    items_view(out@) == sorted_items(items_view(items@.take(i as int))),
                decreases items@.len() - i,
            {
                proof {
                    assert(decreases_to!(*value => value->Array_0));
                    assert(decreases_to!(*items => items@));
                    assert(decreases_to!(items@ => items@[i as int]));
                }
                let item = sort_json_objects(&items[i]);
                proof {
                    let part = items@.take(i as int);
                    assert(items@.take(i + 1) =~= part.push(items@[i as int]));
                    lemma_items_push(part, items@[i as int]);
                    lemma_items_push(out@, item);
                    let view = items_view(part);
                    assert(view.push(items@[i as int]@).drop_last() =~= view);
                }
                out.push(item);
                i = i + 1;
            }
            proof {
                assert(items@.take(i as int) =~= items@);
            }
            Json::Array(out)
        },
        Json::Object(fields) => {
            let mut out: Vec<(String, Json)> = Vec::new();
            let mut i: usize = 0;
            proof {
                assert(fields@.take(0) =~= Seq::empty());
            }
            while i < fields.len()
                invariant
                    *value == Json::Object(*fields),
                    i <= fields@.len(),
                    fields_view(out@) == sorted_fields(fields_view(fields@.take(i as int))),
                decreases fields@.len() - i,
            {
                proof {
                    assert(decreases_to!(*value => value->Object_0));
                    assert(decreases_to!(*fields => fields@));
                    assert(decreases_to!(fields@ => fields@[i as int]));
                    assert(decreases_to!(fields@[i as int] => fields@[i as int].1));
                }
                let entry = (fields[i].0.clone(), sort_json_objects(&fields[i].1));
                proof {
                    let part = fields@.take(i as int);
                    assert(fields@.take(i + 1) =~= part.push(fields@[i as int]));
                    lemma_fields_push(part, fields@[i as int]);
                    lemma_fields_push(out@, entry);
                    let view = fields_view(part);
                    let last = (fields@[i as int].0@, fields@[i as int].1@);
                    assert(view.push(last).drop_last() =~= view);
                }
                out.push(entry);
                i = i + 1;
            }
            proof {
                assert(fields@.take(i as int) =~= fields@);
            }
            Json::Object(sort_fields(out))
        },
        _ => value.copy(),
    }
}

// ---------------------------------------------------------------------------
// Compact text
// ---------------------------------------------------------------------------

/// The lowercase hexadecimal digit with a value below sixteen.
pub open spec fn hex_digit(d: int) -> char {
    if d < 10 {
        text::digit(d)
    } else if d == 10 {
        'a'
    } else if d == 11 {
        'b'
    } else if d == 12 {
        'c'
    } else if d == 13 {
        'd'
    } else if d == 14 {
        'e'
    } else {
        'f'
    }
}

/// What stands for a character inside a JSON string.
pub open spec fn escaped_char(c: char) -> Seq<char> {
    if c == '"' {
        seq!['\\', '"']
    } else if c == '\\' {
        seq!['\\', '\\']
    } else if c == '\u{8}' {
        seq!['\\', 'b']
    } else if c == '\u{9}' {
        seq!['\\', 't']
    } else if c == '\u{a}' {
        seq!['\\', 'n']
    } else if c == '\u{c}' {
        seq!['\\', 'f']
    } else if c == '\u{d}' {
        seq!['\\', 'r']
    } else if (c as int) < 32 {
        seq!['\\', 'u', '0', '0', hex_digit(c as int / 16), hex_digit(c as int % 16)]
    } else {
        seq![c]
    }
}

/// What stands for a text inside a JSON string.
pub open spec fn escaped(s: Seq<char>) -> Seq<char>
    decreases s.len(),
{
    if s.len() == 0 {
        Seq::empty()
    } else {
        escaped_char(s[0]) + escaped(s.drop_first())
    }
}

/// A text as a JSON string.
pub open spec fn quoted(s: Seq<char>) -> Seq<char> {
    seq!['"'] + escaped(s) + seq!['"']
}

/// `serde_json::to_string` of a string: the text between double quotes, with the quote, the
/// backslash and the control characters below U+0020 escaped, and every other character as
/// it is.
#[verifier::external_body]
pub(crate) fn json_string(s: &str) -> (r: String)
    ensures
        r@ == quoted(s@),
{
    serde_json::to_string(s).expect("a string always serializes")
}

/// The compact text of a JSON value.
pub open spec fn rendered(j: JsonView) -> Seq<char>
    decreases j,
{
    match j {
        JsonView::Null => "null"@,
        JsonView::Bool(b) => if b {
            "true"@
        } else {
            "false"@
        },
        JsonView::Number(t) => t,
        JsonView::Text(t) => quoted(t),
        JsonView::Array(items) => seq!['['] + rendered_items(items) + seq![']'],
        JsonView::Object(fields) => seq!['{'] + rendered_fields(fields) + seq!['}'],
    }
}

/// The compact texts of a list of values, with commas between them.
pub open spec fn rendered_items(items: Seq<JsonView>) -> Seq<char>
    decreases items,
{
    if items.len() == 0 {
        Seq::empty()
    } else if items.len() == 1 {
        rendered(items[0])
    } else {
        rendered_items(items.drop_last()) + seq![','] + rendered(items.last())
    }
}

/// The compact text of a named value.
pub open spec fn rendered_field(f: (Seq<char>, JsonView)) -> Seq<char>
    decreases f,
{
    quoted(f.0) + seq![':'] + rendered(f.1)
}

/// The compact texts of a list of named values, with commas between them.
pub open spec fn rendered_fields(fields: Seq<(Seq<char>, JsonView)>) -> Seq<char>
    decreases fields,
{
    if fields.len() == 0 {
        Seq::empty()
    } else if fields.len() == 1 {
        rendered_field(fields[0])
    } else {
        rendered_fields(fields.drop_last()) + seq![','] + rendered_field(fields.last())
    }
}

/// The compact text of a JSON value.
pub fn render(value: &Json) -> (r: String)
    ensures
        r@ == rendered(value@),
    decreases *value,
{
    match value {
        Json::Null => "null".to_owned(),
        Json::Bool(b) => if *b {
            "true".to_owned()
        } else {
            "false".to_owned()
        },
        Json::Number(t) => t.clone(),
        Json::Text(t) => json_string(t.as_str()),
        Json::Array(items) => {
            let mut out = String::new();
            out.push('[');
            let ghost mut inner: Seq<char> = Seq::empty();
            let mut i: usize = 0;
            proof {
                assert(items@.take(0) =~= Seq::empty());
                assert(out@ =~= seq!['['] + inner);
            }
            while i < items.len()
                invariant
                    *value == Json::Array(*items),
                    i <= items@.len(),
                    inner == rendered_items(items_view(items@.take(i as int))),
                    out@ == seq!['['] + inner,
                decreases items@.len() - i,
            {
                proof {
                    let part = items@.take(i as int);
                    lemma_items_view(part);
                    assert(items@.take(i + 1) =~= part.push(items@[i as int]));
                    lemma_items_push(part, items@[i as int]);
                    let view = items_view(part);
                    assert(view.push(items@[i as int]@).drop_last() =~= view);
                }
                if i > 0 {
                    out.push(',');
                }
                proof {
                    assert(decreases_to!(*value => value->Array_0));
                    assert(decreases_to!(*items => items@));
                    assert(decreases_to!(items@ => items@[i as int]));
                }
                let item = render(&items[i]);
                out.append(item.as_str());
                proof {
                    inner = rendered_items(items_view(items@.take(i + 1)));
                    assert(out@ =~= seq!['['] + inner);
                }
                i = i + 1;
            }
            proof {
                assert(items@.take(i as int) =~= items@);
            }
            out.push(']');
            proof {
                assert(out@ =~= seq!['['] + inner + seq![']']);
            }
            out
        },
        Json::Object(fields) => {
            let mut out = String::new();
            out.push('{');
            let ghost mut inner: Seq<char> = Seq::empty();
            let mut i: usize = 0;
            proof {
                assert(fields@.take(0) =~= Seq::empty());
                assert(out@ =~= seq!['{'] + inner);
            }
            while i < fields.len()
                invariant
                    *value == Json::Object(*fields),
                    i <= fields@.len(),
                    inner == rendered_fields(fields_view(fields@.take(i as int))),
                    out@ == seq!['{'] + inner,
                decreases fields@.len() - i,
            {
                proof {
                    let part = fields@.take(i as int);
                    lemma_fields_view(part);
                    assert(fields@.take(i + 1) =~= part.push(fields@[i as int]));
                    lemma_fields_push(part, fields@[i as int]);
                    let view = fields_view(part);
                    let last = (fields@[i as int].0@, fields@[i as int].1@);
                    assert(view.push(last).drop_last() =~= view);
                }
                if i > 0 {
                    out.push(',');
                }
                let name = json_string(fields[i].0.as_str());
                out.append(name.as_str());
                out.push(':');
                proof {
                    assert(decreases_to!(*value => value->Object_0));
                    assert(decreases_to!(*fields => fields@));
                    assert(decreases_to!(fields@ => fields@[i as int]));
                    assert(decreases_to!(fields@[i as int] => fields@[i as int].1));
                }
                let item = render(&fields[i].1);
                out.append(item.as_str());
                proof {
                    inner = rendered_fields(fields_view(fields@.take(i + 1)));
                    let last = (fields@[i as int].0@, fields@[i as int].1@);
                    assert(rendered_field(last) == quoted(last.0) + seq![':'] + rendered(last.1));
                    assert(out@ =~= seq!['{'] + inner);
                }
                i = i + 1;
            }
            proof {
                assert(fields@.take(i as int) =~= fields@);
            }
            out.push('}');
            proof {
                assert(out@ =~= seq!['{'] + inner + seq!['}']);
            }
            out
        },
    }
}

// ---------------------------------------------------------------------------
// The compact text tells values apart
// ---------------------------------------------------------------------------

/// A character of a number.
pub open spec fn is_numeral(c: char) -> bool {
    ||| text::is_digit(c)
    ||| c == '-'
    ||| c == '+'
    ||| c == '.'
    ||| c == 'e'
    ||| c == 'E'
}

/// Every number in the value is a text of numerals, and none is empty.
pub open spec fn numbers_ok(j: JsonView) -> bool
    decreases j,
{
    match j {
        JsonView::Number(t) => t.len() > 0 && forall|i: int|
            0 <= i < t.len() ==> is_numeral(#[trigger] t[i]),
        JsonView::Array(items) => items_ok(items),
        JsonView::Object(fields) => fields_ok(fields),
        _ => true,
    }
}

/// Every number in the values is a text of numerals.
pub open spec fn items_ok(items: Seq<JsonView>) -> bool
    decreases items,
{
    items.len() == 0 || (items_ok(items.drop_last()) && numbers_ok(items.last()))
}

/// Every number in the named values is a text of numerals.
pub open spec fn fields_ok(fields: Seq<(Seq<char>, JsonView)>) -> bool
    decreases fields,
{
    fields.len() == 0 || (fields_ok(fields.drop_last()) && numbers_ok(fields.last().1))
}

/// `items_ok`, value by value.
pub proof fn lemma_items_ok(items: Seq<JsonView>)
    ensures
        items_ok(items) <==> forall|i: int| 0 <= i < items.len() ==> numbers_ok(#[trigger] items[i]),
    decreases items.len(),
{
    if items.len() > 0 {
        let front = items.drop_last();
        lemma_items_ok(front);
        if items_ok(items) {
            assert forall|i: int| 0 <= i < items.len() implies numbers_ok(#[trigger] items[i]) by {
                if i < front.len() {
                    assert(front[i] == items[i]);
                }
            }
        }
        if forall|i: int| 0 <= i < items.len() ==> numbers_ok(#[trigger] items[i]) {
            assert forall|i: int| 0 <= i < front.len() implies numbers_ok(#[trigger] front[i]) by {
                assert(front[i] == items[i]);
            }
            assert(numbers_ok(items[items.len() - 1]));
        }
    }
}

/// `fields_ok`, value by value.
pub proof fn lemma_fields_ok(fields: Seq<(Seq<char>, JsonView)>)
    ensures
        fields_ok(fields) <==> forall|i: int|
            0 <= i < fields.len() ==> numbers_ok((#[trigger] fields[i]).1),
    decreases fields.len(),
{
    if fields.len() > 0 {
        let front = fields.drop_last();
        lemma_fields_ok(front);
        if fields_ok(fields) {
            assert forall|i: int| 0 <= i < fields.len() implies numbers_ok(
                (#[trigger] fields[i]).1,
            ) by {
                if i < front.len() {
                    assert(front[i] == fields[i]);
                }
            }
        }
        if forall|i: int| 0 <= i < fields.len() ==> numbers_ok((#[trigger] fields[i]).1) {
            assert forall|i: int| 0 <= i < front.len() implies numbers_ok(
                (#[trigger] front[i]).1,
            ) by {
                assert(front[i] == fields[i]);
            }
            assert(numbers_ok(fields[fields.len() - 1].1));
        }
    }
}

/// What may follow a value: nothing, or a character that ends it.
pub open spec fn ends_value(s: Seq<char>) -> bool {
    s.len() == 0 || s[0] == ',' || s[0] == ']' || s[0] == '}'
}

proof fn lemma_cancel(a: Seq<char>, s: Seq<char>, t: Seq<char>)
    requires
        a + s == a + t,
    ensures
        s == t,
{
    assert((a + s).skip(a.len() as int) =~= s);
    assert((a + t).skip(a.len() as int) =~= t);
}

proof fn lemma_escaped_unique(x: Seq<char>, y: Seq<char>, s: Seq<char>, t: Seq<char>)
    requires
        escaped(x) + seq!['"'] + s == escaped(y) + seq!['"'] + t,
    ensures
        x == y,
        s == t,
    decreases x.len(),
{
    let left = escaped(x) + seq!['"'] + s;
    let right = escaped(y) + seq!['"'] + t;
    if x.len() == 0 {
        assert(left[0] == '"');
        if y.len() > 0 {
            assert(escaped(y)[0] == escaped_char(y[0])[0]);
            assert(right[0] == escaped_char(y[0])[0]);
        }
        assert(x =~= y);
        assert(left =~= seq!['"'] + s);
        assert(right =~= seq!['"'] + t);
        lemma_cancel(seq!['"'], s, t);
    } else if y.len() == 0 {
        assert(right[0] == '"');
        assert(escaped(x)[0] == escaped_char(x[0])[0]);
        assert(left[0] == escaped_char(x[0])[0]);
    } else {
        let a = escaped_char(x[0]);
        let b = escaped_char(y[0]);
        let left_rest = escaped(x.drop_first()) + seq!['"'] + s;
        let right_rest = escaped(y.drop_first()) + seq!['"'] + t;
        assert(left =~= a + left_rest);
        assert(right =~= b + right_rest);
        assert(left[0] == a[0] && right[0] == b[0]);
        if a.len() > 1 {
            assert(left[1] == a[1]);
        }
        if b.len() > 1 {
            assert(right[1] == b[1]);
        }
        if a.len() == 6 {
            assert(left[4] == a[4] && left[5] == a[5]);
        }
        if b.len() == 6 {
            assert(right[4] == b[4] && right[5] == b[5]);
        }
        assert(x[0] == y[0]) by {
            lemma_escape_unique(x[0], y[0]);
        }
        lemma_cancel(a, left_rest, right_rest);
        lemma_escaped_unique(x.drop_first(), y.drop_first(), s, t);
        assert(x =~= seq![x[0]] + x.drop_first());
        assert(y =~= seq![y[0]] + y.drop_first());
    }
}

proof fn lemma_escape_unique(c: char, d: char)
    ensures
        ({
            let a = escaped_char(c);
            let b = escaped_char(d);
            ||| c == d
            ||| a[0] != b[0]
            ||| (a.len() > 1 && b.len() > 1 && a[1] != b[1])
            ||| (a.len() == 6 && b.len() == 6 && (a[4] != b[4] || a[5] != b[5]))
        }),
        escaped_char(c).len() > 1 <==> escaped_char(c)[0] == '\\',
        escaped_char(d).len() > 1 <==> escaped_char(d)[0] == '\\',
{
    let a = escaped_char(c);
    let b = escaped_char(d);
    if a.len() == 6 && b.len() == 6 && a[4] == b[4] && a[5] == b[5] {
        let x = c as int;
        let y = d as int;
        assert(hex_digit(x / 16) == hex_digit(y / 16));
        assert(hex_digit(x % 16) == hex_digit(y % 16));
        assert(0 <= x / 16 < 2 && 0 <= y / 16 < 2);
        lemma_hex_unique(x / 16, y / 16);
        lemma_hex_unique(x % 16, y % 16);
        assert(x == (x / 16) * 16 + x % 16);
        assert(y == (y / 16) * 16 + y % 16);
    }
}

proof fn lemma_hex_unique(x: int, y: int)
    requires
        0 <= x < 16,
        0 <= y < 16,
        hex_digit(x) == hex_digit(y),
    ensures
        x == y,
{
}

/// The first character of the text of a value says what sort of value it is.
proof fn lemma_first_char(j: JsonView)
    requires
        numbers_ok(j),
    ensures
        rendered(j).len() > 0,
        match j {
            JsonView::Null => rendered(j)[0] == 'n',
            JsonView::Bool(b) => rendered(j)[0] == (if b {
                't'
            } else {
                'f'
            }),
            JsonView::Number(_) => is_numeral(rendered(j)[0]),
            JsonView::Text(_) => rendered(j)[0] == '"',
            JsonView::Array(_) => rendered(j)[0] == '[',
            JsonView::Object(_) => rendered(j)[0] == '{',
        },
{
    reveal_strlit("null");
    reveal_strlit("true");
    reveal_strlit("false");
}

proof fn lemma_items_front(items: Seq<JsonView>)
    requires
        items.len() >= 2,
    ensures
        rendered_items(items) == rendered(items[0]) + seq![','] + rendered_items(
            items.drop_first(),
        ),
    decreases items.len(),
{
    let front = items.drop_last();
    let rest = items.drop_first();
    if items.len() == 2 {
        assert(front =~= seq![items[0]]);
        assert(rest =~= seq![items[1]]);
        assert(rendered_items(front) == rendered(items[0]));
        assert(rendered_items(rest) == rendered(items[1]));
    } else {
        lemma_items_front(front);
        assert(front.drop_first() =~= rest.drop_last());
        assert(rest.last() == items.last());
        assert(rendered_items(items) =~= rendered(items[0]) + seq![','] + (rendered_items(
            rest.drop_last(),
        ) + seq![','] + rendered(items.last())));
    }
}

proof fn lemma_fields_front(fields: Seq<(Seq<char>, JsonView)>)
    requires
        fields.len() >= 2,
    ensures
        rendered_fields(fields) == rendered_field(fields[0]) + seq![','] + rendered_fields(
            fields.drop_first(),
        ),
    decreases fields.len(),
{
    let front = fields.drop_last();
    let rest = fields.drop_first();
    if fields.len() == 2 {
        assert(front =~= seq![fields[0]]);
        assert(rest =~= seq![fields[1]]);
        assert(rendered_fields(front) == rendered_field(fields[0]));
        assert(rendered_fields(rest) == rendered_field(fields[1]));
    } else {
        lemma_fields_front(front);
        assert(front.drop_first() =~= rest.drop_last());
        assert(rest.last() == fields.last());
        assert(rendered_fields(fields) =~= rendered_field(fields[0]) + seq![','] + (
        rendered_fields(rest.drop_last()) + seq![','] + rendered_field(fields.last())));
    }
}

proof fn lemma_rendered_unique(a: JsonView, b: JsonView, s: Seq<char>, t: Seq<char>)
    requires
        numbers_ok(a),
        numbers_ok(b),
        ends_value(s),
        ends_value(t),
        rendered(a) + s == rendered(b) + t,
    ensures
        a == b,
        s == t,
    decreases a,
{
    lemma_first_char(a);
    lemma_first_char(b);
    let left = rendered(a) + s;
    let right = rendered(b) + t;
    assert(left[0] == rendered(a)[0]);
    assert(right[0] == rendered(b)[0]);
    match (a, b) {
        (JsonView::Null, JsonView::Null) => {
            lemma_cancel(rendered(a), s, t);
        },
        (JsonView::Bool(_), JsonView::Bool(_)) => {
            lemma_cancel(rendered(a), s, t);
        },
        (JsonView::Number(x), JsonView::Number(y)) => {
            if x.len() < y.len() {
                assert(right[x.len() as int] == y[x.len() as int]);
                assert(is_numeral(y[x.len() as int]));
                if s.len() > 0 {
                    assert(left[x.len() as int] == s[0]);
                }
                assert(false);
            }
            if y.len() < x.len() {
                assert(left[y.len() as int] == x[y.len() as int]);
                assert(is_numeral(x[y.len() as int]));
                if t.len() > 0 {
                    assert(right[y.len() as int] == t[0]);
                }
                assert(false);
            }
            assert(left.take(x.len() as int) =~= x);
            assert(right.take(x.len() as int) =~= y);
            lemma_cancel(x, s, t);
        },
        (JsonView::Text(x), JsonView::Text(y)) => {
            let l = escaped(x) + seq!['"'] + s;
            let r = escaped(y) + seq!['"'] + t;
            assert(left =~= seq!['"'] + l);
            assert(right =~= seq!['"'] + r);
            lemma_cancel(seq!['"'], l, r);
            lemma_escaped_unique(x, y, s, t);
        },
        (JsonView::Array(x), JsonView::Array(y)) => {
            let l = rendered_items(x) + seq![']'] + s;
            let r = rendered_items(y) + seq![']'] + t;
            assert(left =~= seq!['['] + l);
            assert(right =~= seq!['['] + r);
            lemma_cancel(seq!['['], l, r);
            lemma_items_unique(x, y, s, t);
        },
        (JsonView::Object(x), JsonView::Object(y)) => {
            let l = rendered_fields(x) + seq!['}'] + s;
            let r = rendered_fields(y) + seq!['}'] + t;
            assert(left =~= seq!['{'] + l);
            assert(right =~= seq!['{'] + r);
            lemma_cancel(seq!['{'], l, r);
            lemma_fields_unique(x, y, s, t);
        },
        _ => {},
    }
}

#[verifier::rlimit(40)]
#[verifier::spinoff_prover]
proof fn lemma_items_unique(
    x: Seq<JsonView>,
    y: Seq<JsonView>,
    s: Seq<char>,
    t: Seq<char>,
)
    requires
        items_ok(x),
        items_ok(y),
        rendered_items(x) + seq![']'] + s == rendered_items(y) + seq![']'] + t,
    ensures
        x == y,
        s == t,
    decreases x,
{
    let left = rendered_items(x) + seq![']'] + s;
    let right = rendered_items(y) + seq![']'] + t;
    lemma_items_ok(x);
    lemma_items_ok(y);
    if x.len() > 0 {
        lemma_first_char(x[0]);
        if x.len() >= 2 {
            lemma_items_front(x);
        }
        assert(left[0] == rendered(x[0])[0]);
    } else {
        assert(left[0] == ']');
    }
    if y.len() > 0 {
        lemma_first_char(y[0]);
        if y.len() >= 2 {
            lemma_items_front(y);
        }
        assert(right[0] == rendered(y[0])[0]);
    } else {
        assert(right[0] == ']');
    }
    if x.len() == 0 || y.len() == 0 {
        assert(x =~= y);
        assert(left =~= seq![']'] + s);
        assert(right =~= seq![']'] + t);
        lemma_cancel(seq![']'], s, t);
    } else {
        let tail_x = if x.len() >= 2 {
            seq![','] + (rendered_items(x.drop_first()) + seq![']'] + s)
        } else {
            seq![']'] + s
        };
        let tail_y = if y.len() >= 2 {
            seq![','] + (rendered_items(y.drop_first()) + seq![']'] + t)
        } else {
            seq![']'] + t
        };
        assert(left =~= rendered(x[0]) + tail_x);
        assert(right =~= rendered(y[0]) + tail_y);
        assert(decreases_to!(x => x[0]));
        lemma_rendered_unique(x[0], y[0], tail_x, tail_y);
        assert(tail_x[0] == tail_y[0]);
        if x.len() >= 2 {
            assert(y.len() >= 2);
            let l = rendered_items(x.drop_first()) + seq![']'] + s;
            let r = rendered_items(y.drop_first()) + seq![']'] + t;
            lemma_cancel(seq![','], l, r);
            lemma_items_ok(x.drop_first());
            lemma_items_ok(y.drop_first());
            assert forall|i: int| 0 <= i < x.drop_first().len() implies numbers_ok(
                #[trigger] x.drop_first()[i],
            ) by {
                assert(x.drop_first()[i] == x[i + 1]);
            }
            assert forall|i: int| 0 <= i < y.drop_first().len() implies numbers_ok(
                #[trigger] y.drop_first()[i],
            ) by {
                assert(y.drop_first()[i] == y[i + 1]);
            }
            lemma_items_unique(x.drop_first(), y.drop_first(), s, t);
        } else {
            assert(y.len() == 1);
            lemma_cancel(seq![']'], s, t);
            assert(x.drop_first() =~= y.drop_first());
        }
        assert(x =~= seq![x[0]] + x.drop_first());
        assert(y =~= seq![y[0]] + y.drop_first());
    }
}

#[verifier::rlimit(60)]
#[verifier::spinoff_prover]
proof fn lemma_fields_unique(
    x: Seq<(Seq<char>, JsonView)>,
    y: Seq<(Seq<char>, JsonView)>,
    s: Seq<char>,
    t: Seq<char>,
)
    requires
        fields_ok(x),
        fields_ok(y),
        rendered_fields(x) + seq!['}'] + s == rendered_fields(y) + seq!['}'] + t,
    ensures
        x == y,
        s == t,
    decreases x,
{
    let left = rendered_fields(x) + seq!['}'] + s;
    let right = rendered_fields(y) + seq!['}'] + t;
    lemma_fields_ok(x);
    lemma_fields_ok(y);
    if x.len() > 0 {
        if x.len() >= 2 {
            lemma_fields_front(x);
        }
        assert(rendered_field(x[0])[0] == '"');
        assert(left[0] == '"');
    } else {
        assert(left[0] == '}');
    }
    if y.len() > 0 {
        if y.len() >= 2 {
            lemma_fields_front(y);
        }
        assert(rendered_field(y[0])[0] == '"');
        assert(right[0] == '"');
    } else {
        assert(right[0] == '}');
    }
    if x.len() == 0 || y.len() == 0 {
        assert(x =~= y);
        assert(left =~= seq!['}'] + s);
        assert(right =~= seq!['}'] + t);
        lemma_cancel(seq!['}'], s, t);
    } else {
        let tail_x = if x.len() >= 2 {
            seq![','] + (rendered_fields(x.drop_first()) + seq!['}'] + s)
        } else {
            seq!['}'] + s
        };
        let tail_y = if y.len() >= 2 {
            seq![','] + (rendered_fields(y.drop_first()) + seq!['}'] + t)
        } else {
            seq!['}'] + t
        };
        let value_x = seq![':'] + (rendered(x[0].1) + tail_x);
        let value_y = seq![':'] + (rendered(y[0].1) + tail_y);
        let l = escaped(x[0].0) + seq!['"'] + value_x;
        let r = escaped(y[0].0) + seq!['"'] + value_y;
        assert(left =~= seq!['"'] + l);
        assert(right =~= seq!['"'] + r);
        lemma_cancel(seq!['"'], l, r);
        lemma_escaped_unique(x[0].0, y[0].0, value_x, value_y);
        lemma_cancel(seq![':'], rendered(x[0].1) + tail_x, rendered(y[0].1) + tail_y);
        assert(decreases_to!(x => x[0]));
        assert(decreases_to!(x[0] => x[0].1));
        lemma_rendered_unique(x[0].1, y[0].1, tail_x, tail_y);
        assert(tail_x[0] == tail_y[0]);
        if x.len() >= 2 {
            assert(y.len() >= 2);
            let lr = rendered_fields(x.drop_first()) + seq!['}'] + s;
            let rr = rendered_fields(y.drop_first()) + seq!['}'] + t;
            lemma_cancel(seq![','], lr, rr);
            lemma_fields_ok(x.drop_first());
            lemma_fields_ok(y.drop_first());
            assert forall|i: int| 0 <= i < x.drop_first().len() implies numbers_ok(
                (#[trigger] x.drop_first()[i]).1,
            ) by {
                assert(x.drop_first()[i] == x[i + 1]);
            }
            assert forall|i: int| 0 <= i < y.drop_first().len() implies numbers_ok(
                (#[trigger] y.drop_first()[i]).1,
            ) by {
                assert(y.drop_first()[i] == y[i + 1]);
            }
            lemma_fields_unique(x.drop_first(), y.drop_first(), s, t);
        } else {
            assert(y.len() == 1);
            lemma_cancel(seq!['}'], s, t);
            assert(x.drop_first() =~= y.drop_first());
        }
        assert(x[0] == y[0]);
        assert(x =~= seq![x[0]] + x.drop_first());
        assert(y =~= seq![y[0]] + y.drop_first());
    }
}

/// Two values have the same compact text only where they are the same value.
pub proof fn text_tells_values_apart(a: JsonView, b: JsonView)
    requires
        numbers_ok(a),
        numbers_ok(b),
    ensures
        rendered(a) == rendered(b) <==> a == b,
{
    if rendered(a) == rendered(b) {
        assert(rendered(a) + Seq::empty() =~= rendered(a));
        assert(rendered(b) + Seq::empty() =~= rendered(b));
        lemma_rendered_unique(a, b, Seq::empty(), Seq::empty());
    }
}

/// Sorting the fields of objects keeps the numbers as they are.
pub proof fn lemma_sorted_ok(j: JsonView)
    requires
        numbers_ok(j),
    ensures
        numbers_ok(sorted_json(j)),
    decreases j,
{
    match j {
        JsonView::Array(items) => {
            lemma_sorted_items_ok(items);
        },
        JsonView::Object(fields) => {
            lemma_sorted_fields_ok(fields);
            let inner = sorted_fields(fields);
            let r = sorted_by(inner, name_before());
            lemma_fields_ok(inner);
            lemma_fields_ok(r);
            assert forall|i: int| 0 <= i < r.len() implies numbers_ok((#[trigger] r[i]).1) by {
                order::lemma_sorted_contains(inner, name_before(), r[i]);
                assert(r.contains(r[i]));
                let k = choose|k: int| 0 <= k < inner.len() && inner[k] == r[i];
                assert(numbers_ok(inner[k].1));
            }
        },
        _ => {},
    }
}

proof fn lemma_sorted_items_ok(items: Seq<JsonView>)
    requires
        items_ok(items),
    ensures
        items_ok(sorted_items(items)),
    decreases items,
{
    if items.len() > 0 {
        lemma_sorted_items_ok(items.drop_last());
        lemma_sorted_ok(items.last());
        let before = sorted_items(items.drop_last());
        assert(before.push(sorted_json(items.last())).drop_last() =~= before);
    }
}

proof fn lemma_sorted_fields_ok(fields: Seq<(Seq<char>, JsonView)>)
    requires
        fields_ok(fields),
    ensures
        fields_ok(sorted_fields(fields)),
    decreases fields,
{
    if fields.len() > 0 {
        lemma_sorted_fields_ok(fields.drop_last());
        lemma_sorted_ok(fields.last().1);
        let before = sorted_fields(fields.drop_last());
        let last = (fields.last().0, sorted_json(fields.last().1));
        assert(before.push(last).drop_last() =~= before);
    }
}

// ---------------------------------------------------------------------------
// Building values
// ---------------------------------------------------------------------------

/// Puts a named value behind the others.
pub fn put(fields: &mut Vec<(String, Json)>, name: &str, value: Json)
    ensures
        fields_view(final(fields)@) == fields_view(old(fields)@).push((name@, value@)),
{
    let entry = (name.to_owned(), value);
    proof {
        lemma_fields_push(fields@, entry);
    }
    fields.push(entry);
}

/// A number as a value.
pub open spec fn number_json(n: nat) -> JsonView {
    JsonView::Number(text::decimal(n))
}

/// A number as a value.
pub fn of_size(n: usize) -> (r: Json)
    ensures
        r@ == number_json(n as nat),
{
    Json::Number(text::size(n))
}

/// A number of any size as a value.
pub fn of_large(n: u128) -> (r: Json)
    ensures
        r@ == number_json(n as nat),
{
    Json::Number(text::large(n))
}

/// A number as a value.
pub fn of_number(n: u64) -> (r: Json)
    ensures
        r@ == number_json(n as nat),
{
    Json::Number(text::number(n))
}

/// A text as a value.
pub fn of_text(s: &str) -> (r: Json)
    ensures
        r@ == JsonView::Text(s@),
{
    Json::Text(s.to_owned())
}

/// An optional text as a value, `null` where it is missing.
pub open spec fn optional_text(s: Option<String>) -> JsonView {
    match s {
        Some(t) => JsonView::Text(t@),
        None => JsonView::Null,
    }
}

/// An optional text as a value.
pub fn of_option(s: &Option<String>) -> (r: Json)
    ensures
        r@ == optional_text(*s),
{
    match s {
        Some(t) => Json::Text(t.clone()),
        None => Json::Null,
    }
}

/// A list of texts as a value.
pub open spec fn texts_json(texts: Seq<Seq<char>>) -> JsonView {
    JsonView::Array(Seq::new(texts.len(), |i: int| JsonView::Text(texts[i])))
}

/// A list of texts as a value.
pub fn of_texts(texts: &Vec<String>) -> (r: Json)
    ensures
        r@ == texts_json(text::views(texts@)),
{
    let mut out: Vec<Json> = Vec::new();
    let mut i: usize = 0;
    while i < texts.len()
        invariant
            i <= texts@.len(),
            out@.len() == i,
            forall|k: int| 0 <= k < i ==> (#[trigger] out@[k])@ == JsonView::Text(texts@[k]@),
        decreases texts@.len() - i,
    {
        out.push(Json::Text(texts[i].clone()));
        i = i + 1;
    }
    proof {
        lemma_items_view(out@);
        let all = text::views(texts@);
        assert(items_view(out@) =~= Seq::new(all.len(), |k: int| JsonView::Text(all[k])));
    }
    Json::Array(out)
}

/// A list of numbers as a value.
pub open spec fn sizes_json(sizes: Seq<usize>) -> JsonView {
    JsonView::Array(Seq::new(sizes.len(), |i: int| number_json(sizes[i] as nat)))
}

/// A list of numbers as a value.
pub fn of_sizes(sizes: &Vec<usize>) -> (r: Json)
    ensures
        r@ == sizes_json(sizes@),
{
    let mut out: Vec<Json> = Vec::new();
    let mut i: usize = 0;
    while i < sizes.len()
        invariant
            i <= sizes@.len(),
            out@.len() == i,
            forall|k: int| 0 <= k < i ==> (#[trigger] out@[k])@ == number_json(sizes@[k] as nat),
        decreases sizes@.len() - i,
    {
        out.push(of_size(sizes[i]));
        i = i + 1;
    }
    proof {
        lemma_items_view(out@);
        assert(items_view(out@) =~= Seq::new(sizes@.len(), |k: int| number_json(sizes@[k] as nat)));
    }
    Json::Array(out)
}

/// A list of values. `write` gives the value `g` of an item.
pub(crate) fn of_list<T, F: Fn(&T) -> Json>(
    items: &Vec<T>,
    write: F,
    Ghost(g): Ghost<spec_fn(T) -> JsonView>,
) -> (r: Json)
    requires
        forall|i: int| 0 <= i < items@.len() ==> call_requires(write, (&(#[trigger] items@[i]),)),
        forall|a: &T, o: Json| #[trigger] call_ensures(write, (a,), o) ==> o@ == g(*a),
    ensures
        r@ == JsonView::Array(items@.map_values(g)),
{
    let mut out: Vec<Json> = Vec::new();
    let mut i: usize = 0;
    while i < items.len()
        invariant
            i <= items@.len(),
            out@.len() == i,
            forall|k: int| 0 <= k < i ==> (#[trigger] out@[k])@ == g(items@[k]),
            forall|i: int|
                0 <= i < items@.len() ==> call_requires(write, (&(#[trigger] items@[i]),)),
            forall|a: &T, o: Json| #[trigger] call_ensures(write, (a,), o) ==> o@ == g(*a),
        decreases items@.len() - i,
    {
        out.push(write(&items[i]));
        i = i + 1;
    }
    proof {
        lemma_items_view(out@);
        assert(items_view(out@) =~= items@.map_values(g));
    }
    Json::Array(out)
}

/// A field for a text that may be missing.
pub open spec fn given_text(name: Seq<char>, s: Option<String>) -> Seq<(Seq<char>, JsonView)> {
    match s {
        Some(t) => seq![(name, JsonView::Text(t@))],
        None => Seq::empty(),
    }
}

/// Puts a field behind the others where there is a text.
pub fn put_given_text(fields: &mut Vec<(String, Json)>, name: &str, s: &Option<String>)
    ensures
        fields_view(final(fields)@) == fields_view(old(fields)@) + given_text(name@, *s),
{
    let ghost start = fields_view(fields@);
    match s {
        Some(t) => put(fields, name, of_text(t.as_str())),
        None => {},
    }
    proof {
        assert(fields_view(fields@) =~= start + given_text(name@, *s));
    }
}

/// A field for a number that may be missing.
pub open spec fn given_number(name: Seq<char>, n: Option<u64>) -> Seq<(Seq<char>, JsonView)> {
    match n {
        Some(x) => seq![(name, number_json(x as nat))],
        None => Seq::empty(),
    }
}

/// Puts a field behind the others where there is a number.
pub fn put_given_number(fields: &mut Vec<(String, Json)>, name: &str, n: Option<u64>)
    ensures
        fields_view(final(fields)@) == fields_view(old(fields)@) + given_number(name@, n),
{
    let ghost start = fields_view(fields@);
    match n {
        Some(x) => put(fields, name, of_number(x)),
        None => {},
    }
    proof {
        assert(fields_view(fields@) =~= start + given_number(name@, n));
    }
}

/// A field for a list of texts that may be missing.
pub open spec fn given_texts(name: Seq<char>, list: Option<Vec<String>>) -> Seq<
    (Seq<char>, JsonView),
> {
    match list {
        Some(v) => seq![(name, texts_json(text::views(v@)))],
        None => Seq::empty(),
    }
}

/// Puts a field behind the others where there is a list of texts.
pub fn put_given_texts(fields: &mut Vec<(String, Json)>, name: &str, list: &Option<Vec<String>>)
    ensures
        fields_view(final(fields)@) == fields_view(old(fields)@) + given_texts(name@, *list),
{
    let ghost start = fields_view(fields@);
    match list {
        Some(v) => put(fields, name, of_texts(v)),
        None => {},
    }
    proof {
        assert(fields_view(fields@) =~= start + given_texts(name@, *list));
    }
}

proof fn lemma_fields_join(a: Seq<(String, Json)>, b: Seq<(String, Json)>)
    ensures
        fields_view(a + b) == fields_view(a) + fields_view(b),
    decreases b.len(),
{
    if b.len() == 0 {
        assert(a + b =~= a);
        assert(fields_view(a) + fields_view(b) =~= fields_view(a));
    } else {
        let front = b.drop_last();
        lemma_fields_join(a, front);
        assert(a + b =~= (a + front).push(b.last()));
        assert(b =~= front.push(b.last()));
        lemma_fields_push(a + front, b.last());
        lemma_fields_push(front, b.last());
        assert(fields_view(a + b) =~= fields_view(a) + fields_view(b));
    }
}

/// Puts fields behind the others.
pub fn put_all(fields: &mut Vec<(String, Json)>, more: Vec<(String, Json)>)
    ensures
        fields_view(final(fields)@) == fields_view(old(fields)@) + fields_view(more@),
{
    let mut more = more;
    proof {
        lemma_fields_join(fields@, more@);
    }
    fields.append(&mut more);
}

/// An optional number as a value, `null` where it is missing.
pub open spec fn optional_size(n: Option<usize>) -> JsonView {
    match n {
        Some(x) => number_json(x as nat),
        None => JsonView::Null,
    }
}

/// An optional number as a value.
pub fn of_optional_size(n: Option<usize>) -> (r: Json)
    ensures
        r@ == optional_size(n),
{
    match n {
        Some(x) => of_size(x),
        None => Json::Null,
    }
}

/// A field for a number that may be missing.
pub open spec fn given_size(name: Seq<char>, n: Option<usize>) -> Seq<(Seq<char>, JsonView)> {
    match n {
        Some(x) => seq![(name, number_json(x as nat))],
        None => Seq::empty(),
    }
}

/// Puts a field behind the others where there is a number.
pub fn put_given_size(fields: &mut Vec<(String, Json)>, name: &str, n: Option<usize>)
    ensures
        fields_view(final(fields)@) == fields_view(old(fields)@) + given_size(name@, n),
{
    let ghost start = fields_view(fields@);
    match n {
        Some(x) => put(fields, name, of_size(x)),
        None => {},
    }
    proof {
        assert(fields_view(fields@) =~= start + given_size(name@, n));
    }
}

/// A field for a truth value that may be missing.
pub open spec fn given_truth(name: Seq<char>, b: Option<bool>) -> Seq<(Seq<char>, JsonView)> {
    match b {
        Some(x) => seq![(name, JsonView::Bool(x))],
        None => Seq::empty(),
    }
}

/// Puts a field behind the others where there is a truth value.
pub fn put_given_truth(fields: &mut Vec<(String, Json)>, name: &str, b: Option<bool>)
    ensures
        fields_view(final(fields)@) == fields_view(old(fields)@) + given_truth(name@, b),
{
    let ghost start = fields_view(fields@);
    match b {
        Some(x) => put(fields, name, Json::Bool(x)),
        None => {},
    }
    proof {
        assert(fields_view(fields@) =~= start + given_truth(name@, b));
    }
}

/// A field for a list of texts, left out where the list is empty.
pub open spec fn some_texts(name: Seq<char>, list: Seq<String>) -> Seq<(Seq<char>, JsonView)> {
    if list.len() == 0 {
        Seq::empty()
    } else {
        seq![(name, texts_json(text::views(list)))]
    }
}

/// Puts a field behind the others where the list is not empty.
pub fn put_some_texts(fields: &mut Vec<(String, Json)>, name: &str, list: &Vec<String>)
    ensures
        fields_view(final(fields)@) == fields_view(old(fields)@) + some_texts(name@, list@),
{
    let ghost start = fields_view(fields@);
    if list.len() > 0 {
        put(fields, name, of_texts(list));
    }
    proof {
        assert(fields_view(fields@) =~= start + some_texts(name@, list@));
    }
}

/// A field for a list of values, left out where the list is empty.
pub open spec fn some_items(name: Seq<char>, items: Seq<JsonView>) -> Seq<(Seq<char>, JsonView)> {
    if items.len() == 0 {
        Seq::empty()
    } else {
        seq![(name, JsonView::Array(items))]
    }
}

/// Puts a field behind the others where the list is not empty.
pub fn put_some_items(fields: &mut Vec<(String, Json)>, name: &str, list: Json)
    requires
        list@ is Array,
    ensures
        fields_view(final(fields)@) == fields_view(old(fields)@) + some_items(
            name@,
            list@->Array_0,
        ),
{
    let ghost start = fields_view(fields@);
    let ghost items = list@->Array_0;
    match list {
        Json::Array(v) => {
            let any: bool = v.len() > 0;
            let ghost held = v@;
            proof {
                lemma_items_view(held);
            }
            let value = Json::Array(v);
            if any {
                put(fields, name, value);
            }
            proof {
                assert(fields_view(fields@) =~= start + some_items(name@, items));
            }
        },
        _ => {},
    }
}

/// A point in time as a value, `null` where there is none.
pub open spec fn time_json(time: Option<i128>, use_z: bool) -> JsonView {
    match stamped_if(time, use_z) {
        Some(s) => JsonView::Text(s),
        None => JsonView::Null,
    }
}

/// A point in time as a value.
pub fn of_time(time: Option<i128>, use_z: bool) -> (r: Json)
    ensures
        r@ == time_json(time, use_z),
{
    match time::stamp_if(time, use_z) {
        Some(s) => Json::Text(s),
        None => Json::Null,
    }
}

/// A field for a point in time that may be missing.
pub open spec fn given_time(name: Seq<char>, time: Option<i128>) -> Seq<(Seq<char>, JsonView)> {
    match stamped_if(time, false) {
        Some(s) => seq![(name, JsonView::Text(s))],
        None => Seq::empty(),
    }
}

/// Puts a field behind the others where there is a point in time.
pub fn put_given_time(fields: &mut Vec<(String, Json)>, name: &str, time: Option<i128>)
    ensures
        fields_view(final(fields)@) == fields_view(old(fields)@) + given_time(name@, time),
{
    let ghost start = fields_view(fields@);
    match time::stamp_if(time, false) {
        Some(s) => put(fields, name, Json::Text(s)),
        None => {},
    }
    proof {
        assert(fields_view(fields@) =~= start + given_time(name@, time));
    }
}

} // verus!
