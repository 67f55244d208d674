use vstd::prelude::*;

verus! {

use crate::document::EntryModel;
use crate::document::ItemPlacement;
use crate::document::LocationEntry;
use crate::document::SpoilerDocument;
use crate::document::WorldLocations;
use crate::document::world_entries_fn;
use crate::document::world_model_entries;
use crate::document::doc_entries;
use crate::strings::str_eq;

/// Why parsing failed: the input was not well-formed JSON at all, or it
/// was well-formed JSON that does not match the spoiler-log schema.
#[derive(Debug, PartialEq, Eq, Structural, Clone, Copy)]
pub enum ParseError {
    SyntaxError,
    SchemaError,
}

/// The abstract content of a JSON value, as far as this library reads
/// it: a number carries `Some` exactly when it is a nonnegative integer
/// representable in 64 bits, and an object is its key/value sequence.
pub ghost enum JsonModel {
    Null,
    Bool(bool),
    Num(Option<u64>),
    Text(Seq<char>),
    Arr(Seq<JsonModel>),
    Obj(Seq<(Seq<char>, JsonModel)>),
}

/// Whether `serde_json::from_str::<serde_json::Value>` accepts the
/// text as a JSON document (well-formed JSON within the parser's
/// nesting limit); a deterministic function of the text alone.
pub uninterp spec fn json_syntax_ok(s: Seq<char>) -> bool;

/// The abstract content of the JSON document that
/// `serde_json::from_str::<serde_json::Value>` reads from the text;
/// deterministic in the text alone (objects keep distinct keys, a
/// duplicated key in the text keeps its last value).
pub uninterp spec fn json_doc_of(s: Seq<char>) -> JsonModel;

/// The abstract content of one `serde_json::Value`.
pub uninterp spec fn json_view(v: serde_json::Value) -> JsonModel;

/// The abstract content of an object's field list.
pub open spec fn entries_model(es: Seq<(String, serde_json::Value)>) -> Seq<
    (Seq<char>, JsonModel),
> {
    es.map_values(|p: (String, serde_json::Value)| (p.0@, json_view(p.1)))
}

/// The abstract content of an array's element list.
pub open spec fn elems_model(es: Seq<serde_json::Value>) -> Seq<JsonModel> {
    es.map_values(|v: serde_json::Value| json_view(v))
}

#[verifier::external_type_specification]
#[verifier::external_body]
pub struct ExJsonValue(serde_json::Value);

#[verifier::external_type_specification]
#[verifier::external_body]
pub struct ExJsonError(serde_json::Error);

/// Relies on serde_json::from_str::<serde_json::Value>: whether it
/// returns Ok depends on the input text alone, and the value it returns
/// abstracts to the document that the text denotes.
#[verifier::external_body]
fn json_from_str(s: &str) -> (r: Result<serde_json::Value, serde_json::Error>)
    ensures
        r is Ok <==> json_syntax_ok(s@),
        r matches Ok(v) ==> json_view(v) == json_doc_of(s@),
{
    serde_json::from_str(s)
}

/// Relies on serde_json::Value::as_object and on serde_json::Map being
/// backed by a BTreeMap: Some exactly for a JSON object; the entries
/// carry pairwise distinct keys and abstract to the object's content.
#[verifier::external_body]
fn value_entries(v: &serde_json::Value) -> (r: Option<Vec<(String, serde_json::Value)>>)
    ensures
        r is Some <==> (json_view(*v) is Obj),
        r matches Some(es) ==> entries_model(es@) == json_view(*v)->Obj_0,
        r matches Some(es) ==> forall|i: int, j: int|
            0 <= i < j < es@.len() ==> (#[trigger] es@[i].0@) != (#[trigger] es@[j].0@),
{
    match v.as_object() {
        Some(m) => Some(m.iter().map(|(k, x)| (k.clone(), x.clone())).collect()),
        None => None,
    }
}

/// Relies on serde_json::Value::as_str: Some exactly for a JSON string,
/// carrying its text.
#[verifier::external_body]
fn value_as_str(v: &serde_json::Value) -> (r: Option<String>)
    ensures
        r is Some <==> (json_view(*v) is Text),
        r matches Some(s) ==> json_view(*v)->Text_0 == s@,
{
    v.as_str().map(|s| s.to_string())
}

/// Relies on serde_json::Value::as_u64: Some exactly for a JSON number
/// that is a nonnegative integer representable in 64 bits, carrying it.
#[verifier::external_body]
fn value_as_u64(v: &serde_json::Value) -> (r: Option<u64>)
    ensures
        r is Some <==> (json_view(*v) is Num && json_view(*v)->Num_0 is Some),
        r matches Some(n) ==> json_view(*v)->Num_0 == Some(n),
{
    v.as_u64()
}

/// Relies on serde_json::Value::as_bool: Some exactly for a JSON
/// boolean, carrying it.
#[verifier::external_body]
fn value_as_bool(v: &serde_json::Value) -> (r: Option<bool>)
    ensures
        r is Some <==> (json_view(*v) is Bool),
        r matches Some(b) ==> json_view(*v) == JsonModel::Bool(b),
{
    v.as_bool()
}

/// Relies on serde_json::Value::is_null: true exactly for JSON null.
#[verifier::external_body]
fn value_is_null(v: &serde_json::Value) -> (r: bool)
    ensures
        r == (json_view(*v) is Null),
{
    v.is_null()
}

/// Relies on serde_json::Value::as_array: Some exactly for a JSON
/// array, carrying elements that abstract to the array's content.
#[verifier::external_body]
fn value_array_elems(v: &serde_json::Value) -> (r: Option<Vec<serde_json::Value>>)
    ensures
        r is Some <==> (json_view(*v) is Arr),
        r matches Some(es) ==> elems_model(es@) == json_view(*v)->Arr_0,
{
    match v.as_array() {
        Some(a) => Some(a.clone()),
        None => None,
    }
}

/// The first value of a field list carrying `key`, looked up from
/// position `i` on.
pub open spec fn lookup_from(es: Seq<(Seq<char>, JsonModel)>, key: Seq<char>, i: int) -> Option<
    JsonModel,
>
    decreases es.len() - i,
{
    if i >= es.len() {
        None
    } else if es[i].0 == key {
        Some(es[i].1)
    } else {
        lookup_from(es, key, i + 1)
    }
}

/// The value of the field `key` of an object's content, if present.
pub open spec fn lookup_field(es: Seq<(Seq<char>, JsonModel)>, key: Seq<char>) -> Option<
    JsonModel,
> {
    lookup_from(es, key, 0)
}

/// The field `key` is present and is a string.
pub open spec fn string_field_ok(es: Seq<(Seq<char>, JsonModel)>, key: Seq<char>) -> bool {
    match lookup_field(es, key) {
        Some(v) => v is Text,
        None => false,
    }
}

/// The field `key` is present and is a boolean.
pub open spec fn bool_field_ok(es: Seq<(Seq<char>, JsonModel)>, key: Seq<char>) -> bool {
    match lookup_field(es, key) {
        Some(v) => v is Bool,
        None => false,
    }
}

/// The field `key` is present and is an object.
pub open spec fn object_field_ok(es: Seq<(Seq<char>, JsonModel)>, key: Seq<char>) -> bool {
    match lookup_field(es, key) {
        Some(v) => v is Obj,
        None => false,
    }
}

/// Every value of an object's content is itself an object.
pub open spec fn all_objects(es: Seq<(Seq<char>, JsonModel)>) -> bool {
    forall|i: int| 0 <= i < es.len() ==> (#[trigger] es[i]).1 is Obj
}

/// Every value of an object's content is an array.
pub open spec fn all_arrays(es: Seq<(Seq<char>, JsonModel)>) -> bool {
    forall|i: int| 0 <= i < es.len() ==> (#[trigger] es[i]).1 is Arr
}

/// Every element of an array's content is a string.
pub open spec fn all_texts(xs: Seq<JsonModel>) -> bool {
    forall|i: int| 0 <= i < xs.len() ==> (#[trigger] xs[i]) is Text
}

/// The field `key` is present and is an object whose values are objects.
pub open spec fn object_of_objects_field_ok(
    es: Seq<(Seq<char>, JsonModel)>,
    key: Seq<char>,
) -> bool {
    match lookup_field(es, key) {
        Some(v) => v is Obj && all_objects(v->Obj_0),
        None => false,
    }
}

/// The field `key` is present and is an object whose values are arrays.
pub open spec fn object_of_arrays_field_ok(
    es: Seq<(Seq<char>, JsonModel)>,
    key: Seq<char>,
) -> bool {
    match lookup_field(es, key) {
        Some(v) => v is Obj && all_arrays(v->Obj_0),
        None => false,
    }
}

/// The field `key` is present and is an array of strings.
pub open spec fn string_array_field_ok(es: Seq<(Seq<char>, JsonModel)>, key: Seq<char>) -> bool {
    match lookup_field(es, key) {
        Some(v) => v is Arr && all_texts(v->Arr_0),
        None => false,
    }
}

/// An optional `price` field may be absent, null, or an integer that
/// fits 32 bits.
pub open spec fn price_ok(o: Option<JsonModel>) -> bool {
    match o {
        Some(v) => v is Null || (v is Num && (match v->Num_0 {
            Some(n) => n <= 0xFFFF_FFFFu64,
            None => false,
        })),
        None => true,
    }
}

/// A placement object: `item` a string, `player` a positive integer
/// fitting 32 bits, `price` optional.
pub open spec fn placement_ok(j: JsonModel) -> bool {
    &&& j is Obj
    &&& (match lookup_field(j->Obj_0, "item"@) {
        Some(v) => v is Text,
        None => false,
    })
    &&& (match lookup_field(j->Obj_0, "player"@) {
        Some(v) => v is Num && (match v->Num_0 {
            Some(n) => 1 <= n <= 0xFFFF_FFFFu64,
            None => false,
        }),
        None => false,
    })
    &&& price_ok(lookup_field(j->Obj_0, "price"@))
}

/// The item name of a schema-conforming placement object.
pub open spec fn placement_item(j: JsonModel) -> Seq<char> {
    match lookup_field(j->Obj_0, "item"@) {
        Some(v) => v->Text_0,
        None => Seq::empty(),
    }
}

/// The owning player of a schema-conforming placement object.
pub open spec fn placement_player(j: JsonModel) -> u32 {
    match lookup_field(j->Obj_0, "player"@) {
        Some(v) => (match v->Num_0 {
            Some(n) => n as u32,
            None => 0u32,
        }),
        None => 0u32,
    }
}

/// One world's location map: an object whose values are placements.
pub open spec fn world_ok(j: JsonModel) -> bool {
    j is Obj && forall|i: int| 0 <= i < j->Obj_0.len() ==> placement_ok((#[trigger] j->Obj_0[i]).1)
}

/// The `locations` field: an object of worlds.
pub open spec fn locations_ok(j: JsonModel) -> bool {
    j is Obj && forall|i: int| 0 <= i < j->Obj_0.len() ==> world_ok((#[trigger] j->Obj_0[i]).1)
}

/// A document conforming to the spoiler-log schema: every required
/// top-level field present with its shape, and the `locations` map
/// fully typed.
pub open spec fn schema_ok(j: JsonModel) -> bool {
    &&& j is Obj
    &&& string_field_ok(j->Obj_0, ":version"@)
    &&& string_array_field_ok(j->Obj_0, "file_hash"@)
    &&& string_field_ok(j->Obj_0, ":seed"@)
    &&& string_field_ok(j->Obj_0, ":settings_string"@)
    &&& bool_field_ok(j->Obj_0, ":enable_distribution_file"@)
    &&& object_field_ok(j->Obj_0, "settings"@)
    &&& object_of_objects_field_ok(j->Obj_0, "randomized_settings"@)
    &&& object_of_objects_field_ok(j->Obj_0, "item_pool"@)
    &&& object_of_objects_field_ok(j->Obj_0, "dungeons"@)
    &&& object_of_objects_field_ok(j->Obj_0, "empty_dungeons"@)
    &&& object_of_objects_field_ok(j->Obj_0, "trials"@)
    &&& object_of_objects_field_ok(j->Obj_0, ":skipped_locations"@)
    &&& object_of_objects_field_ok(j->Obj_0, ":woth_locations"@)
    &&& object_field_ok(j->Obj_0, ":goal_locations"@)
    &&& object_of_arrays_field_ok(j->Obj_0, ":barren_regions"@)
    &&& object_of_objects_field_ok(j->Obj_0, "gossip_stones"@)
    &&& object_of_objects_field_ok(j->Obj_0, ":playthrough"@)
    &&& (match lookup_field(j->Obj_0, "locations"@) {
        Some(v) => locations_ok(v),
        None => false,
    })
}

/// The placement record of one location entry of one world.
pub open spec fn entry_of(world: Seq<char>, loc: (Seq<char>, JsonModel)) -> EntryModel {
    EntryModel {
        world,
        location: loc.0,
        item: placement_item(loc.1),
        player: placement_player(loc.1),
    }
}

/// The placements of one world of the document's `locations` map.
pub open spec fn world_entries_of(wp: (Seq<char>, JsonModel)) -> Seq<EntryModel> {
    wp.1->Obj_0.map_values(|loc: (Seq<char>, JsonModel)| entry_of(wp.0, loc))
}

/// `world_entries_of` as a first-class spec function.
pub open spec fn worlds_fn() -> spec_fn((Seq<char>, JsonModel)) -> Seq<EntryModel> {
    |wp: (Seq<char>, JsonModel)| world_entries_of(wp)
}

/// The worlds of a schema-conforming document's `locations` map.
pub open spec fn locations_entries(j: JsonModel) -> Seq<(Seq<char>, JsonModel)> {
    match lookup_field(j->Obj_0, "locations"@) {
        Some(v) => v->Obj_0,
        None => Seq::empty(),
    }
}

/// Every placement of a schema-conforming document, world by world,
/// location by location.
pub open spec fn entries_of(j: JsonModel) -> Seq<EntryModel> {
    locations_entries(j).flat_map(worlds_fn())
}

/// One parsed location entry carries the content of its model entry.
pub open spec fn loc_matches(le: LocationEntry, m: (Seq<char>, JsonModel)) -> bool {
    &&& le.location_name@ == m.0
    &&& le.placement.item_name@ == placement_item(m.1)
    &&& le.placement.owning_player == placement_player(m.1)
}

/// One parsed world carries the content of its model entry.
pub open spec fn world_matches(w: WorldLocations, m: (Seq<char>, JsonModel)) -> bool {
    &&& w.world_name@ == m.0
    &&& w.locations@.len() == m.1->Obj_0.len()
    &&& forall|k: int|
        0 <= k < w.locations@.len() ==> loc_matches(#[trigger] w.locations@[k], m.1->Obj_0[k])
}

/// Finds the entry of an object's field list whose key is `key`.
fn find_field(entries: &Vec<(String, serde_json::Value)>, key: &str) -> (r: Option<usize>)
    ensures
        r matches Some(i) ==> i < entries@.len() && entries@[i as int].0@ == key@
            && lookup_field(entries_model(entries@), key@) == Some(
            json_view(entries@[i as int].1),
        ),
        r is None ==> (lookup_field(entries_model(entries@), key@) is None),
{
    let ghost em = entries_model(entries@);
    let mut i: usize = 0;
    while i < entries.len()
        invariant
            i <= entries@.len(),
            em == entries_model(entries@),
            lookup_from(em, key@, 0) == lookup_from(em, key@, i as int),
        decreases entries@.len() - i,
    {
        if str_eq(entries[i].0.as_str(), key) {
            proof {
                assert(em[i as int] == (entries@[i as int].0@, json_view(entries@[i as int].1)));
            }
            return Some(i);
        }
        proof {
            assert(em[i as int].0 == entries@[i as int].0@);
        }
        i = i + 1;
    }
    None
}

/// The field is present and is a JSON string.
fn check_string_field(entries: &Vec<(String, serde_json::Value)>, key: &str) -> (r: bool)
    ensures
        r == string_field_ok(entries_model(entries@), key@),
{
    match find_field(entries, key) {
        Some(i) => value_as_str(&entries[i].1).is_some(),
        None => false,
    }
}

/// The field is present and is a JSON boolean.
fn check_bool_field(entries: &Vec<(String, serde_json::Value)>, key: &str) -> (r: bool)
    ensures
        r == bool_field_ok(entries_model(entries@), key@),
{
    match find_field(entries, key) {
        Some(i) => value_as_bool(&entries[i].1).is_some(),
        None => false,
    }
}

/// The field is present and is a JSON object.
fn check_object_field(entries: &Vec<(String, serde_json::Value)>, key: &str) -> (r: bool)
    ensures
        r == object_field_ok(entries_model(entries@), key@),
{
    match find_field(entries, key) {
        Some(i) => value_entries(&entries[i].1).is_some(),
        None => false,
    }
}

/// The field is present and is a JSON object whose values are objects.
fn check_object_of_objects_field(entries: &Vec<(String, serde_json::Value)>, key: &str) -> (r:
    bool)
    ensures
        r == object_of_objects_field_ok(entries_model(entries@), key@),
{
    let idx = match find_field(entries, key) {
        Some(i) => i,
        None => {
            return false;
        },
    };
    let outer = match value_entries(&entries[idx].1) {
        Some(es) => es,
        None => {
            return false;
        },
    };
    let ghost ov = json_view(entries@[idx as int].1);
    let mut k: usize = 0;
    while k < outer.len()
        invariant
            k <= outer@.len(),
            ov == json_view(entries@[idx as int].1),
            ov is Obj,
            entries_model(outer@) == ov->Obj_0,
            lookup_field(entries_model(entries@), key@) == Some(ov),
            forall|j: int| 0 <= j < k ==> (#[trigger] ov->Obj_0[j]).1 is Obj,
        decreases outer@.len() - k,
    {
        let inner_is_obj = value_entries(&outer[k].1).is_some();
        proof {
            assert(ov->Obj_0[k as int].1 == json_view(outer@[k as int].1));
        }
        if !inner_is_obj {
            return false;
        }
        k = k + 1;
    }
    true
}

/// The field is present and is a JSON object whose values are arrays.
fn check_object_of_arrays_field(entries: &Vec<(String, serde_json::Value)>, key: &str) -> (r:
    bool)
    ensures
        r == object_of_arrays_field_ok(entries_model(entries@), key@),
{
    let idx = match find_field(entries, key) {
        Some(i) => i,
        None => {
            return false;
        },
    };
    let outer = match value_entries(&entries[idx].1) {
        Some(es) => es,
        None => {
            return false;
        },
    };
    let ghost ov = json_view(entries@[idx as int].1);
    let mut k: usize = 0;
    while k < outer.len()
        invariant
            k <= outer@.len(),
            ov == json_view(entries@[idx as int].1),
            ov is Obj,
            entries_model(outer@) == ov->Obj_0,
            lookup_field(entries_model(entries@), key@) == Some(ov),
            forall|j: int| 0 <= j < k ==> (#[trigger] ov->Obj_0[j]).1 is Arr,
        decreases outer@.len() - k,
    {
        let inner_is_arr = value_array_elems(&outer[k].1).is_some();
        proof {
            assert(ov->Obj_0[k as int].1 == json_view(outer@[k as int].1));
        }
        if !inner_is_arr {
            return false;
        }
        k = k + 1;
    }
    true
}

/// The field is present and is a JSON array whose elements are strings.
fn check_string_array_field(entries: &Vec<(String, serde_json::Value)>, key: &str) -> (r: bool)
    ensures
        r == string_array_field_ok(entries_model(entries@), key@),
{
    let idx = match find_field(entries, key) {
        Some(i) => i,
        None => {
            return false;
        },
    };
    let elems = match value_array_elems(&entries[idx].1) {
        Some(es) => es,
        None => {
            return false;
        },
    };
    let ghost av = json_view(entries@[idx as int].1);
    let mut k: usize = 0;
    while k < elems.len()
        invariant
            k <= elems@.len(),
            av == json_view(entries@[idx as int].1),
            av is Arr,
            elems_model(elems@) == av->Arr_0,
            lookup_field(entries_model(entries@), key@) == Some(av),
            forall|j: int| 0 <= j < k ==> (#[trigger] av->Arr_0[j]) is Text,
        decreases elems@.len() - k,
    {
        let elem_is_text = value_as_str(&elems[k]).is_some();
        proof {
            assert(av->Arr_0[k as int] == json_view(elems@[k as int]));
        }
        if !elem_is_text {
            return false;
        }
        k = k + 1;
    }
    true
}

/// Reads one placement object: `item` (string, required), `player`
/// (positive integer fitting 32 bits, required) and `price` (integer
/// fitting 32 bits, optional, null allowed).
fn parse_placement(v: &serde_json::Value) -> (r: Result<ItemPlacement, ParseError>)
    ensures
        r is Ok <==> placement_ok(json_view(*v)),
        r matches Ok(p) ==> p.owning_player >= 1,
        r matches Ok(p) ==> p.item_name@ == placement_item(json_view(*v)),
        r matches Ok(p) ==> p.owning_player == placement_player(json_view(*v)),
        r matches Err(e) ==> e == ParseError::SchemaError,
{
    let fields = match value_entries(v) {
        Some(es) => es,
        None => {
            return Err(ParseError::SchemaError);
        },
    };
    let item_name = match find_field(&fields, "item") {
        Some(i) => match value_as_str(&fields[i].1) {
            Some(s) => s,
            None => {
                return Err(ParseError::SchemaError);
            },
        },
        None => {
            return Err(ParseError::SchemaError);
        },
    };
    let player64 = match find_field(&fields, "player") {
        Some(i) => match value_as_u64(&fields[i].1) {
            Some(n) => n,
            None => {
                return Err(ParseError::SchemaError);
            },
        },
        None => {
            return Err(ParseError::SchemaError);
        },
    };
    if player64 < 1 || player64 > 0xFFFF_FFFFu64 {
        return Err(ParseError::SchemaError);
    }
    let owning_player = player64 as u32;
    let price = match find_field(&fields, "price") {
        Some(i) => {
            if value_is_null(&fields[i].1) {
                None
            } else {
                match value_as_u64(&fields[i].1) {
                    Some(n) => {
                        if n > 0xFFFF_FFFFu64 {
                            return Err(ParseError::SchemaError);
                        }
                        Some(n as u32)
                    },
                    None => {
                        return Err(ParseError::SchemaError);
                    },
                }
            }
        },
        None => None,
    };
    Ok(ItemPlacement { item_name, owning_player, price })
}

/// Reads one world's location map.
fn parse_world(v: &serde_json::Value) -> (r: Result<Vec<LocationEntry>, ParseError>)
    ensures
        r is Ok <==> world_ok(json_view(*v)),
        r matches Ok(ls) ==> ls@.len() == json_view(*v)->Obj_0.len(),
        r matches Ok(ls) ==> forall|k: int|
            0 <= k < ls@.len() ==> loc_matches(#[trigger] ls@[k], json_view(*v)->Obj_0[k]),
        r matches Ok(ls) ==> (forall|i: int, j: int|
            0 <= i < j < ls@.len() ==> (#[trigger] ls@[i].location_name@) != (
            #[trigger] ls@[j].location_name@)) && (forall|i: int|
            0 <= i < ls@.len() ==> (#[trigger] ls@[i]).placement.owning_player >= 1),
        r matches Err(e) ==> e == ParseError::SchemaError,
{
    let locs = match value_entries(v) {
        Some(es) => es,
        None => {
            return Err(ParseError::SchemaError);
        },
    };
    let ghost wm = json_view(*v);
    let mut out: Vec<LocationEntry> = Vec::new();
    let mut k: usize = 0;
    while k < locs.len()
        invariant
            k <= locs@.len(),
            wm == json_view(*v),
            wm is Obj,
            entries_model(locs@) == wm->Obj_0,
            out@.len() == k,
            forall|i: int| 0 <= i < k ==> placement_ok((#[trigger] wm->Obj_0[i]).1),
            forall|i: int| 0 <= i < k ==> loc_matches(#[trigger] out@[i], wm->Obj_0[i]),
            forall|i: int| 0 <= i < k ==> (#[trigger] out@[i].location_name@) == locs@[i].0@,
            forall|i: int| 0 <= i < k ==> (#[trigger] out@[i]).placement.owning_player >= 1,
            forall|i: int, j: int|
                0 <= i < j < locs@.len() ==> (#[trigger] locs@[i].0@) != (#[trigger] locs@[j].0@),
        decreases locs@.len() - k,
    {
        proof {
            assert(wm->Obj_0[k as int] == (locs@[k as int].0@, json_view(locs@[k as int].1)));
        }
        let placement = match parse_placement(&locs[k].1) {
            Ok(p) => p,
            Err(e) => {
                proof {
                    assert(!placement_ok((wm->Obj_0[k as int]).1));
                }
                return Err(e);
            },
        };
        out.push(LocationEntry { location_name: locs[k].0.clone(), placement });
        k = k + 1;
    }
    Ok(out)
}

/// Reads the `locations` field: world name to location map.
fn parse_locations(v: &serde_json::Value) -> (r: Result<Vec<WorldLocations>, ParseError>)
    ensures
        r is Ok <==> locations_ok(json_view(*v)),
        r matches Ok(ws) ==> ws@.len() == json_view(*v)->Obj_0.len(),
        r matches Ok(ws) ==> forall|k: int|
            0 <= k < ws@.len() ==> world_matches(#[trigger] ws@[k], json_view(*v)->Obj_0[k]),
        r matches Ok(ws) ==> (forall|i: int, j: int|
            0 <= i < j < ws@.len() ==> (#[trigger] ws@[i].world_name@) != (
            #[trigger] ws@[j].world_name@)) && (forall|i: int|
            0 <= i < ws@.len() ==> (#[trigger] ws@[i]).wf_world()),
        r matches Err(e) ==> e == ParseError::SchemaError,
{
    let worlds_json = match value_entries(v) {
        Some(es) => es,
        None => {
            return Err(ParseError::SchemaError);
        },
    };
    let ghost lm = json_view(*v);
    let mut out: Vec<WorldLocations> = Vec::new();
    let mut k: usize = 0;
    while k < worlds_json.len()
        invariant
            k <= worlds_json@.len(),
            lm == json_view(*v),
            lm is Obj,
            entries_model(worlds_json@) == lm->Obj_0,
            out@.len() == k,
            forall|i: int| 0 <= i < k ==> world_ok((#[trigger] lm->Obj_0[i]).1),
            forall|i: int| 0 <= i < k ==> world_matches(#[trigger] out@[i], lm->Obj_0[i]),
            forall|i: int| 0 <= i < k ==> (#[trigger] out@[i].world_name@) == worlds_json@[i].0@,
            forall|i: int| 0 <= i < k ==> (#[trigger] out@[i]).wf_world(),
            forall|i: int, j: int|
                0 <= i < j < worlds_json@.len() ==> (#[trigger] worlds_json@[i].0@) != (
                #[trigger] worlds_json@[j].0@),
        decreases worlds_json@.len() - k,
    {
        proof {
            assert(lm->Obj_0[k as int] == (worlds_json@[k as int].0@, json_view(
                worlds_json@[k as int].1,
            )));
        }
        let locations = match parse_world(&worlds_json[k].1) {
            Ok(ls) => ls,
            Err(e) => {
                proof {
                    assert(!world_ok((lm->Obj_0[k as int]).1));
                }
                return Err(e);
            },
        };
        out.push(WorldLocations { world_name: worlds_json[k].0.clone(), locations });
        k = k + 1;
    }
    Ok(out)
}

/// Parsed worlds that match their model entries flatten to the model's
/// placements.
proof fn lemma_worlds_entries_match(ws: Seq<WorldLocations>, ms: Seq<(Seq<char>, JsonModel)>)
    requires
        ws.len() == ms.len(),
        forall|k: int| 0 <= k < ws.len() ==> world_matches(#[trigger] ws[k], ms[k]),
    ensures
        ws.flat_map(world_entries_fn()) == ms.flat_map(worlds_fn()),
{
    let a = ws.map_values(world_entries_fn());
    let b = ms.map_values(worlds_fn());
    assert forall|k: int| 0 <= k < a.len() implies a[k] == b[k] by {
        assert(world_matches(ws[k], ms[k]));
        assert(world_model_entries(ws[k]) =~= world_entries_of(ms[k]));
    }
    assert(a =~= b);
}

/// Validates the shape of a parsed spoiler-log document and extracts
/// its location map.
fn build_document(root: &serde_json::Value) -> (r: Result<SpoilerDocument, ParseError>)
    ensures
        r is Ok <==> schema_ok(json_view(*root)),
        r matches Ok(d) ==> d.wf(),
        r matches Ok(d) ==> doc_entries(d) == entries_of(json_view(*root)),
        r matches Err(e) ==> e == ParseError::SchemaError,
{
    let entries = match value_entries(root) {
        Some(es) => es,
        None => {
            return Err(ParseError::SchemaError);
        },
    };
    if !check_string_field(&entries, ":version") {
        return Err(ParseError::SchemaError);
    }
    if !check_string_array_field(&entries, "file_hash") {
        return Err(ParseError::SchemaError);
    }
    if !check_string_field(&entries, ":seed") {
        return Err(ParseError::SchemaError);
    }
    if !check_string_field(&entries, ":settings_string") {
        return Err(ParseError::SchemaError);
    }
    if !check_bool_field(&entries, ":enable_distribution_file") {
        return Err(ParseError::SchemaError);
    }
    if !check_object_field(&entries, "settings") {
        return Err(ParseError::SchemaError);
    }
    if !check_object_of_objects_field(&entries, "randomized_settings") {
        return Err(ParseError::SchemaError);
    }
    if !check_object_of_objects_field(&entries, "item_pool") {
        return Err(ParseError::SchemaError);
    }
    if !check_object_of_objects_field(&entries, "dungeons") {
        return Err(ParseError::SchemaError);
    }
    if !check_object_of_objects_field(&entries, "empty_dungeons") {
        return Err(ParseError::SchemaError);
    }
    if !check_object_of_objects_field(&entries, "trials") {
        return Err(ParseError::SchemaError);
    }
    if !check_object_of_objects_field(&entries, ":skipped_locations") {
        return Err(ParseError::SchemaError);
    }
    if !check_object_of_objects_field(&entries, ":woth_locations") {
        return Err(ParseError::SchemaError);
    }
    if !check_object_field(&entries, ":goal_locations") {
        return Err(ParseError::SchemaError);
    }
    if !check_object_of_arrays_field(&entries, ":barren_regions") {
        return Err(ParseError::SchemaError);
    }
    if !check_object_of_objects_field(&entries, "gossip_stones") {
        return Err(ParseError::SchemaError);
    }
    if !check_object_of_objects_field(&entries, ":playthrough") {
        return Err(ParseError::SchemaError);
    }
    let locations_value_idx = match find_field(&entries, "locations") {
        Some(i) => i,
        None => {
            return Err(ParseError::SchemaError);
        },
    };
    let worlds = match parse_locations(&entries[locations_value_idx].1) {
        Ok(ws) => ws,
        Err(e) => {
            return Err(e);
        },
    };
    let ghost jm = json_view(*root);
    let ghost lv = json_view(entries@[locations_value_idx as int].1);
    let doc = SpoilerDocument { worlds };
    proof {
        assert(locations_entries(jm) == lv->Obj_0);
        lemma_worlds_entries_match(doc.worlds@, lv->Obj_0);
    }
    Ok(doc)
}

/// Parses raw text into a validated spoiler-log document.
///
/// Fails with `SyntaxError` exactly when the text is not well-formed
/// JSON, and with `SchemaError` exactly when it is well-formed JSON
/// whose content does not match the spoiler-log schema; otherwise the
/// document returned carries exactly the placements of the text's
/// `locations` map.
pub fn parse_spoiler_document(text: &str) -> (r: Result<SpoilerDocument, ParseError>)
    ensures
        r == Err::<SpoilerDocument, ParseError>(ParseError::SyntaxError) <==> !json_syntax_ok(
            text@,
        ),
        r == Err::<SpoilerDocument, ParseError>(ParseError::SchemaError) <==> (json_syntax_ok(
            text@,
        ) && !schema_ok(json_doc_of(text@))),
        r is Ok <==> (json_syntax_ok(text@) && schema_ok(json_doc_of(text@))),
        r matches Ok(d) ==> d.wf(),
        r matches Ok(d) ==> doc_entries(d) == entries_of(json_doc_of(text@)),
{
    let root = match json_from_str(text) {
        Ok(v) => v,
        Err(_) => {
            return Err(ParseError::SyntaxError);
        },
    };
    match build_document(&root) {
        Ok(d) => Ok(d),
        Err(e) => Err(e),
    }
}

} // verus!
