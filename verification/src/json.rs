//! JSON values as the library builds and rewrites them.

use crate::text::same;
use vstd::prelude::*;

verus! {

/// A JSON value. The fields of an object keep their order.
#[derive(Debug, PartialEq, Eq)]
pub enum Json {
    Null,
    Bool(bool),
    Number(u64),
    /// A number that is negative or no integer, as it is spelled.
    Numeral(String),
    Text(String),
    List(Vec<Json>),
    Object(Vec<(String, Json)>),
}

/// What a [`Json`] holds.
pub enum JsonModel {
    Null,
    Bool(bool),
    Number(u64),
    Numeral(Seq<char>),
    Text(Seq<char>),
    List(Seq<JsonModel>),
    Object(Seq<(Seq<char>, JsonModel)>),
}

pub open spec fn json_model(j: Json) -> JsonModel
    decreases j,
{
    match j {
        Json::Null => JsonModel::Null,
        Json::Bool(b) => JsonModel::Bool(b),
        Json::Number(n) => JsonModel::Number(n),
        Json::Numeral(s) => JsonModel::Numeral(s@),
        Json::Text(s) => JsonModel::Text(s@),
        Json::List(items) => JsonModel::List(items_model(items@)),
        Json::Object(fields) => JsonModel::Object(fields_model(fields@)),
    }
}

pub open spec fn items_model(items: Seq<Json>) -> Seq<JsonModel>
    decreases items,
{
    if items.len() == 0 {
        Seq::empty()
    } else {
        items_model(items.drop_last()).push(json_model(items[items.len() - 1]))
    }
}

pub open spec fn fields_model(fields: Seq<(String, Json)>) -> Seq<(Seq<char>, JsonModel)>
    decreases fields,
{
    if fields.len() == 0 {
        Seq::empty()
    } else {
        fields_model(fields.drop_last()).push((fields[fields.len() - 1].0@, json_model(fields[fields.len() - 1].1)))
    }
}

impl DeepView for Json {
    type V = JsonModel;

    open spec fn deep_view(&self) -> JsonModel {
        json_model(*self)
    }
}

pub fn push_item(items: &mut Vec<Json>, item: Json)
    ensures
        items_model(final(items)@) == items_model(old(items)@).push(json_model(item)),
{
    let ghost before = items@;
    items.push(item);
    assert(items@.drop_last() =~= before);
}

pub fn push_field(fields: &mut Vec<(String, Json)>, key: &str, value: Json)
    ensures
        fields_model(final(fields)@) == fields_model(old(fields)@).push((key@, json_model(value))),
{
    let ghost before = fields@;
    fields.push((key.to_owned(), value));
    assert(fields@.drop_last() =~= before);
}

pub fn push_text(fields: &mut Vec<(String, Json)>, key: &str, value: &str)
    ensures
        fields_model(final(fields)@) == fields_model(old(fields)@).push((key@, JsonModel::Text(value@))),
{
    push_field(fields, key, Json::Text(value.to_owned()));
}

/// A text, or null.
pub open spec fn text_or_null(value: Option<Seq<char>>) -> JsonModel {
    match value {
        Some(s) => JsonModel::Text(s),
        None => JsonModel::Null,
    }
}

pub fn push_optional(fields: &mut Vec<(String, Json)>, key: &str, value: &Option<String>)
    ensures
        fields_model(final(fields)@) == fields_model(old(fields)@).push((key@, text_or_null(value.deep_view()))),
{
    match value {
        Some(s) => push_text(fields, key, s.as_str()),
        None => push_field(fields, key, Json::Null),
    }
}

/// A list of texts.
pub open spec fn texts(list: Seq<Seq<char>>) -> JsonModel {
    JsonModel::List(list.map_values(|s: Seq<char>| JsonModel::Text(s)))
}

/// The first texts of a list, at most `cap` of them, as a JSON list.
pub fn text_list(list: &Vec<String>, cap: usize) -> (r: Json)
    ensures
        json_model(r) == texts(list.deep_view().take(if list@.len() < cap { list@.len() as int } else { cap as int })),
{
    let ghost all = list.deep_view();
    let n: usize = if list.len() < cap {
        list.len()
    } else {
        cap
    };
    let mut items: Vec<Json> = Vec::new();
    let mut i: usize = 0;
    assert(items_model(items@) =~= all.take(0).map_values(|s: Seq<char>| JsonModel::Text(s)));
    while i < n
        invariant
            i <= n <= list.len(),
            all == list.deep_view(),
            items_model(items@) == all.take(i as int).map_values(|s: Seq<char>| JsonModel::Text(s)),
        decreases n - i,
    {
        push_item(&mut items, Json::Text(list[i].clone()));
        assert(all.take(i + 1) =~= all.take(i as int).push(list@[i as int]@));
        assert(items_model(items@) =~= all.take(i + 1).map_values(|s: Seq<char>| JsonModel::Text(s)));
        i += 1;
    }
    Json::List(items)
}


/// The fields of an object stand at their places in its model.
pub proof fn fields_model_places(fields: Seq<(String, Json)>)
    ensures
        fields_model(fields).len() == fields.len(),
        forall|i: int|
            0 <= i < fields.len() ==> #[trigger] fields_model(fields)[i] == (fields[i].0@, json_model(fields[i].1)),
    decreases fields.len(),
{
    if fields.len() > 0 {
        let init = fields.drop_last();
        fields_model_places(init);
        assert forall|i: int| 0 <= i < fields.len() implies #[trigger] fields_model(fields)[i] == (
            fields[i].0@,
            json_model(fields[i].1),
        ) by {
            if i < init.len() {
                assert(fields_model(fields)[i] == fields_model(init)[i]);
            }
        }
    }
}

/// The items of a list stand at their places in its model.
pub proof fn items_model_places(items: Seq<Json>)
    ensures
        items_model(items).len() == items.len(),
        forall|i: int| 0 <= i < items.len() ==> #[trigger] items_model(items)[i] == json_model(items[i]),
    decreases items.len(),
{
    if items.len() > 0 {
        let init = items.drop_last();
        items_model_places(init);
        assert forall|i: int| 0 <= i < items.len() implies #[trigger] items_model(items)[i] == json_model(items[i]) by {
            if i < init.len() {
                assert(items_model(items)[i] == items_model(init)[i]);
            }
        }
    }
}

/// Fields with one set: a key that is there keeps its place.
pub open spec fn with_field(fields: Seq<(Seq<char>, JsonModel)>, key: Seq<char>, value: JsonModel) -> Seq<(Seq<char>, JsonModel)>
    decreases fields.len(),
{
    if fields.len() == 0 {
        seq![(key, value)]
    } else if fields.last().0 == key {
        fields.drop_last().push((key, value))
    } else {
        let rest = with_field(fields.drop_last(), key, value);
        if rest.len() < fields.len() {
            rest.push(fields.last())
        } else {
            fields.push((key, value))
        }
    }
}

proof fn with_field_replaces(fields: Seq<(Seq<char>, JsonModel)>, key: Seq<char>, value: JsonModel, i: int)
    requires
        0 <= i < fields.len(),
        fields[i].0 == key,
        forall|j: int| i < j < fields.len() ==> (#[trigger] fields[j]).0 != key,
    ensures
        with_field(fields, key, value) == fields.update(i, (key, value)),
    decreases fields.len(),
{
    let init = fields.drop_last();
    if i == fields.len() - 1 {
        assert(init.push((key, value)) =~= fields.update(i, (key, value)));
    } else {
        assert(fields[fields.len() - 1].0 != key);
        with_field_replaces(init, key, value, i);
        assert(init.update(i, (key, value)).push(fields.last()) =~= fields.update(i, (key, value)));
    }
}

proof fn with_field_appends(fields: Seq<(Seq<char>, JsonModel)>, key: Seq<char>, value: JsonModel)
    requires
        forall|j: int| 0 <= j < fields.len() ==> (#[trigger] fields[j]).0 != key,
    ensures
        with_field(fields, key, value) == fields.push((key, value)),
    decreases fields.len(),
{
    if fields.len() > 0 {
        assert(fields[fields.len() - 1].0 != key);
        with_field_appends(fields.drop_last(), key, value);
    } else {
        assert(fields.push((key, value)) =~= seq![(key, value)]);
    }
}

pub fn set_field(fields: &mut Vec<(String, Json)>, key: String, value: Json)
    ensures
        fields_model(final(fields)@) == with_field(fields_model(old(fields)@), key@, json_model(value)),
{
    let ghost before = fields@;
    let ghost model = fields_model(before);
    proof {
        fields_model_places(before);
    }
    let mut i: usize = fields.len();
    while i > 0
        invariant
            i <= fields.len(),
            fields@ == before,
            before == old(fields)@,
            model == fields_model(before),
            model.len() == before.len(),
            forall|j: int| 0 <= j < before.len() ==> #[trigger] model[j] == (before[j].0@, json_model(before[j].1)),
            forall|j: int| i <= j < before.len() ==> (#[trigger] model[j]).0 != key@,
        decreases i,
    {
        i -= 1;
        if same(fields[i].0.as_str(), key.as_str()) {
            proof {
                with_field_replaces(model, key@, json_model(value), i as int);
            }
            fields.set(i, (key, value));
            proof {
                fields_model_places(fields@);
                assert(fields_model(fields@) =~= model.update(i as int, (key@, json_model(value))));
            }
            return;
        }
        assert(model[i as int].0 != key@);
    }
    proof {
        with_field_appends(model, key@, json_model(value));
    }
    fields.push((key, value));
    assert(fields@.drop_last() =~= before);
}

/// The last field of that name, as a reader of the object sees it.
pub open spec fn field_named(fields: Seq<(Seq<char>, JsonModel)>, name: Seq<char>) -> Option<JsonModel>
    decreases fields.len(),
{
    if fields.len() == 0 {
        None
    } else if fields.last().0 == name {
        Some(fields.last().1)
    } else {
        field_named(fields.drop_last(), name)
    }
}

/// The value of a field of an object; nothing else has fields.
pub open spec fn member(value: JsonModel, name: Seq<char>) -> Option<JsonModel> {
    match value {
        JsonModel::Object(fields) => field_named(fields, name),
        _ => None,
    }
}

pub fn get_member<'a>(value: &'a Json, name: &str) -> (r: Option<&'a Json>)
    ensures
        match r {
            Some(v) => member(json_model(*value), name@) == Some(json_model(*v)) && decreases_to!(*value => *v),
            None => member(json_model(*value), name@) is None,
        },
{
    match value {
        Json::Object(fields) => {
            let ghost all = fields_model(fields@);
            let mut i: usize = fields.len();
            proof {
                fields_model_places(fields@);
                assert(all.take(all.len() as int) =~= all);
            }
            while i > 0
                invariant
                    i <= fields.len(),
                    all == fields_model(fields@),
                    all.len() == fields@.len(),
                    json_model(*value) == JsonModel::Object(all),
                    *value == Json::Object(*fields),
                    field_named(all, name@) == field_named(all.take(i as int), name@),
                decreases i,
            {
                i -= 1;
                proof {
                    fields_model_places(fields@);
                    assert(all.take(i + 1).drop_last() =~= all.take(i as int));
                    assert(all.take(i + 1).last() == all[i as int]);
                }
                if same(fields[i].0.as_str(), name) {
                    assert(decreases_to!(*value => value->Object_0));
                    assert(decreases_to!(*value => fields@[i as int].1));
                    return Some(&fields[i].1);
                }
            }
            None
        },
        _ => None,
    }
}

} // verus!
