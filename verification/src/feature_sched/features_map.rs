//! The feature map: for each feature one number at every coverage site.

use vstd::prelude::*;

use super::metadata::{arrays, copy_numbers, FeatureSchemaFile, FeatureSpec, FeatureSpecView};
use super::schema::aliases_of;
use crate::double::Double;
use crate::json::{
    json_columns, json_object, members_map, parse_columns, parse_object, JsonShape, JsonValue,
};
use crate::table::{distinct_names, entries_map, Table};
use crate::text::{chars_of, decimal, decimal_text, find, first_occurrence, occurs_at, texts};

verus! {

/// What is wrong with the array of one feature.
pub ghost enum ColumnFault {
    /// There is none, neither under the name nor under an alias.
    Missing,
    /// It is not an array.
    NotArray,
    /// The element at this place is not a number.
    NotNumeric(int),
    /// The element at this place is infinite or NaN.
    NotFinite(int),
    /// It has this length, where the arrays before have that one.
    Length(nat, nat),
}

/// What is wrong with a feature map.
pub ghost enum MapFault {
    /// It is of the kind that lists all numbers under one key.
    SingleList,
    /// The array of the feature at this place of the schema is at fault.
    Column(int, ColumnFault),
    /// The arrays have this length, not one element for each coverage site.
    Sites(nat),
}

/// The first of the names, from place `k` on, that is a key.
pub open spec fn first_key(keys: Set<Seq<char>>, names: Seq<Seq<char>>, k: int) -> Option<Seq<char>>
    decreases names.len() - k,
{
    if k >= names.len() {
        None
    } else if keys.contains(names[k]) {
        Some(names[k])
    } else {
        first_key(keys, names, k + 1)
    }
}

/// The key under which a feature stands: its name, or else the first of its aliases that is one.
pub open spec fn key_of(keys: Set<Seq<char>>, f: FeatureSpecView) -> Option<Seq<char>> {
    if keys.contains(f.name) {
        Some(f.name)
    } else {
        first_key(keys, aliases_of(f), 0)
    }
}

/// The first place of `items`, from `k` on, that holds no number.
pub open spec fn first_non_number(items: Seq<Option<Double>>, k: int) -> Option<int>
    decreases items.len() - k,
{
    if k >= items.len() {
        None
    } else if items[k] is None {
        Some(k)
    } else {
        first_non_number(items, k + 1)
    }
}

/// The first place of `items`, from `k` on, that holds no finite number.
pub open spec fn first_non_finite(items: Seq<Option<Double>>, k: int) -> Option<int>
    decreases items.len() - k,
{
    if k >= items.len() {
        None
    } else if !(items[k]->0).finite() {
        Some(k)
    } else {
        first_non_finite(items, k + 1)
    }
}

/// The array of one feature.
pub open spec fn column_of(map: Map<Seq<char>, JsonShape>, f: FeatureSpecView) -> Result<
    Seq<Double>,
    ColumnFault,
> {
    match key_of(map.dom(), f) {
        None => Err(ColumnFault::Missing),
        Some(key) => match map[key] {
            JsonShape::Other => Err(ColumnFault::NotArray),
            JsonShape::Array(items) => match first_non_number(items, 0) {
                Some(k) => Err(ColumnFault::NotNumeric(k)),
                None => match first_non_finite(items, 0) {
                    Some(k) => Err(ColumnFault::NotFinite(k)),
                    None => Ok(Seq::new(items.len(), |i: int| items[i]->0)),
                },
            },
        },
    }
}

/// The arrays of the features by name. They are looked at in the order of the schema, and each
/// must be as long as the first.
pub open spec fn columns_of(map: Map<Seq<char>, JsonShape>, fs: Seq<FeatureSpecView>) -> Result<
    Map<Seq<char>, Seq<Double>>,
    MapFault,
>
    decreases fs.len(),
{
    if fs.len() == 0 {
        Ok(Map::empty())
    } else {
        match columns_of(map, fs.drop_last()) {
            Err(f) => Err(f),
            Ok(before) => match column_of(map, fs.last()) {
                Err(c) => Err(MapFault::Column(fs.len() - 1, c)),
                Ok(values) => if values.len() != first_length(map, fs) {
                    Err(
                        MapFault::Column(
                            fs.len() - 1,
                            ColumnFault::Length(values.len(), first_length(map, fs)),
                        ),
                    )
                } else {
                    Ok(before.insert(fs.last().name, values))
                },
            },
        }
    }
}

/// The length of the first feature's array.
pub open spec fn first_length(map: Map<Seq<char>, JsonShape>, fs: Seq<FeatureSpecView>) -> nat {
    column_of(map, fs[0])->Ok_0.len()
}

/// The feature map over `sites` coverage sites that the members of a JSON object stand for.
pub open spec fn feature_map_of(
    map: Map<Seq<char>, JsonShape>,
    fs: Seq<FeatureSpecView>,
    sites: nat,
) -> Result<Map<Seq<char>, Seq<Double>>, MapFault> {
    if map.dom().contains("features"@) {
        Err(MapFault::SingleList)
    } else {
        match columns_of(map, fs) {
            Err(f) => Err(f),
            Ok(columns) => if fs.len() > 0 && first_length(map, fs) != sites {
                Err(MapFault::Sites(first_length(map, fs)))
            } else {
                Ok(columns)
            },
        }
    }
}

/// The words of a feature's fault.
pub open spec fn column_fault_text(f: FeatureSpecView, c: ColumnFault) -> Seq<char> {
    match c {
        ColumnFault::Missing => "BOFuzz feature-map error: missing feature "@ + f.id + " "@
            + f.name,
        ColumnFault::NotArray => "BOFuzz feature-map error: feature "@ + f.id + " "@ + f.name
            + " is not an array"@,
        ColumnFault::NotNumeric(i) => "BOFuzz feature-map error: feature "@ + f.id + " "@ + f.name
            + " contains non-numeric value at index "@ + decimal(i as nat),
        ColumnFault::NotFinite(i) => "BOFuzz feature-map error: feature "@ + f.id + " "@ + f.name
            + " contains non-finite value at index "@ + decimal(i as nat),
        ColumnFault::Length(n, e) => "BOFuzz feature-map error: feature "@ + f.id + " "@ + f.name
            + " length "@ + decimal(n) + " != expected "@ + decimal(e),
    }
}

/// The words of a feature map's fault.
pub open spec fn map_fault_text(fs: Seq<FeatureSpecView>, sites: nat, m: MapFault) -> Seq<char> {
    match m {
        MapFault::SingleList =>
            "BOFuzz feature-map error: legacy {{\"features\": [...]}} format not supported"@,
        MapFault::Column(i, c) => column_fault_text(fs[i], c),
        MapFault::Sites(n) => "BOFuzz feature-map error: feature array length "@ + decimal(n)
            + " != sancov_sites "@ + decimal(sites),
    }
}

/// The shapes of the members of a table.
pub open spec fn shapes(t: Map<Seq<char>, JsonValue>) -> Map<Seq<char>, JsonShape> {
    t.map_values(|v: JsonValue| v@)
}

/// The key under which a feature stands in a table.
pub fn resolve_feature_key<T>(map: &Table<T>, spec: &FeatureSpec) -> (r: Option<String>)
    ensures
        match r {
            Some(key) => key_of(map@.dom(), spec@) == Some(key@),
            None => key_of(map@.dom(), spec@) is None,
        },
        r matches Some(key) ==> map@.dom().contains(key@),
{
    if map.contains(&spec.name) {
        return Some(spec.name.clone());
    }
    match &spec.aliases {
        Some(aliases) => {
            let ghost names = texts(aliases@);
            assert(aliases_of(spec@) == names);
            let mut k: usize = 0;
            while k < aliases.len()
                invariant
                    k <= aliases@.len(),
                    names == texts(aliases@),
                    aliases_of(spec@) == names,
                    !map@.dom().contains(spec.name@),
                    first_key(map@.dom(), names, k as int) == first_key(map@.dom(), names, 0),
                decreases aliases@.len() - k,
            {
                assert(names[k as int] == aliases@[k as int]@);
                if map.contains(&aliases[k]) {
                    return Some(aliases[k].clone());
                }
                k = k + 1;
            }
            None
        },
        None => None,
    }
}

/// The beginning of a message about a feature.
fn about(f: &FeatureSpec) -> (r: String)
    ensures
        r@ == "BOFuzz feature-map error: feature "@ + f@.id + " "@ + f@.name,
{
    let mut e: String = "BOFuzz feature-map error: feature ".to_owned();
    e.append(f.id.as_str());
    e.append(" ");
    e.append(f.name.as_str());
    e
}

/// The numbers of an array.
fn read_numbers(items: &Vec<Option<Double>>, f: &FeatureSpec) -> (r: Result<Vec<Double>, String>)
    ensures
        match r {
            Ok(v) => first_non_number(items@, 0) is None && first_non_finite(items@, 0) is None
                && v@ == Seq::new(items@.len(), |i: int| items@[i]->0),
            Err(e) => match first_non_number(items@, 0) {
                Some(k) => e@ == column_fault_text(f@, ColumnFault::NotNumeric(k)),
                None => first_non_finite(items@, 0) is Some && e@ == column_fault_text(
                    f@,
                    ColumnFault::NotFinite(first_non_finite(items@, 0)->0),
                ),
            },
        },
{
    let mut v: Vec<Double> = Vec::new();
    let mut i: usize = 0;
    while i < items.len()
        invariant
            i <= items@.len(),
            v@.len() == i,
            forall|k: int| 0 <= k < i ==> (#[trigger] items@[k]) == Some(v@[k]),
            first_non_number(items@, i as int) == first_non_number(items@, 0),
        decreases items@.len() - i,
    {
        match items[i] {
            Some(x) => {
                v.push(x);
            },
            None => {
                let mut e: String = about(f);
                e.append(" contains non-numeric value at index ");
                e.append(decimal_text(i as u64).as_str());
                return Err(e);
            },
        }
        i = i + 1;
    }
    i = 0;
    while i < v.len()
        invariant
            i <= v@.len(),
            v@.len() == items@.len(),
            forall|k: int| 0 <= k < v@.len() ==> (#[trigger] items@[k]) == Some(v@[k]),
            first_non_number(items@, 0) is None,
            first_non_finite(items@, i as int) == first_non_finite(items@, 0),
        decreases v@.len() - i,
    {
        assert(items@[i as int] == Some(v@[i as int]));
        if !v[i].is_finite() {
            let mut e: String = about(f);
            e.append(" contains non-finite value at index ");
            e.append(decimal_text(i as u64).as_str());
            return Err(e);
        }
        i = i + 1;
    }
    assert(v@ =~= Seq::new(items@.len(), |k: int| items@[k]->0));
    Ok(v)
}

/// The array of one feature.
fn read_column(map: &Table<JsonValue>, f: &FeatureSpec) -> (r: Result<Vec<Double>, String>)
    ensures
        match r {
            Ok(v) => column_of(shapes(map@), f@) == Ok::<Seq<Double>, ColumnFault>(v@),
            Err(e) => column_of(shapes(map@), f@) is Err && e@ == column_fault_text(
                f@,
                column_of(shapes(map@), f@)->Err_0,
            ),
        },
{
    assert(shapes(map@).dom() =~= map@.dom());
    let key: String = match resolve_feature_key(map, f) {
        Some(key) => key,
        None => {
            let mut e: String = "BOFuzz feature-map error: missing feature ".to_owned();
            e.append(f.id.as_str());
            e.append(" ");
            e.append(f.name.as_str());
            return Err(e);
        },
    };
    match map.get(&key) {
        Some(JsonValue::Array(items)) => {
            assert(shapes(map@)[key@] == JsonShape::Array(items@));
            read_numbers(items, f)
        },
        _ => {
            assert(shapes(map@)[key@] == JsonShape::Other);
            let mut e: String = about(f);
            e.append(" is not an array");
            Err(e)
        },
    }
}

/// Checks the members of a JSON object against a schema: an array of finite numbers for each
/// feature, all of them as long as there are coverage sites. The result holds the arrays under
/// the names of the features.
pub fn validate_feature_map(
    map: &Table<JsonValue>,
    schema: &FeatureSchemaFile,
    sancov_sites: usize,
) -> (r: Result<Table<Vec<Double>>, String>)
    ensures
        match r {
            Ok(t) => feature_map_of(shapes(map@), schema@.features, sancov_sites as nat) == Ok::<
                Map<Seq<char>, Seq<Double>>,
                MapFault,
            >(arrays(t@)),
            Err(e) => feature_map_of(shapes(map@), schema@.features, sancov_sites as nat) is Err
                && e@ == map_fault_text(
                schema@.features,
                sancov_sites as nat,
                feature_map_of(shapes(map@), schema@.features, sancov_sites as nat)->Err_0,
            ),
        },
{
    let ghost m = shapes(map@);
    let ghost fs = schema@.features;
    assert(m.dom() =~= map@.dom());
    let single: String = "features".to_owned();
    if map.contains(&single) {
        return Err(
            "BOFuzz feature-map error: legacy {{\"features\": [...]}} format not supported".to_owned(),
        );
    }
    let mut result: Table<Vec<Double>> = Table::new();
    let mut expected: usize = 0;
    let mut i: usize = 0;
    assert(arrays(result@) =~= Map::empty());
    while i < schema.features.len()
        invariant
            i <= schema.features@.len(),
            m == shapes(map@),
            fs == schema@.features,
            !m.dom().contains("features"@),
            columns_of(m, fs.take(i as int)) == Ok::<Map<Seq<char>, Seq<Double>>, MapFault>(
                arrays(result@),
            ),
            i > 0 ==> column_of(m, fs[0]) is Ok && expected == first_length(m, fs),
        decreases schema.features@.len() - i,
    {
        let f: &FeatureSpec = &schema.features[i];
        let ghost next = fs.take(i + 1);
        proof {
            assert(fs[i as int] == f@);
            assert(next.drop_last() =~= fs.take(i as int));
            assert(next.last() == f@);
            assert(next[0] == fs[0]);
        }
        let column: Result<Vec<Double>, String> = read_column(map, f);
        match column {
            Err(e) => {
                proof {
                    fault_stays(m, fs, i + 1);
                }
                return Err(e);
            },
            Ok(values) => {
                if i == 0 {
                    expected = values.len();
                } else if values.len() != expected {
                    let mut e: String = about(f);
                    e.append(" length ");
                    e.append(decimal_text(values.len() as u64).as_str());
                    e.append(" != expected ");
                    e.append(decimal_text(expected as u64).as_str());
                    proof {
                        fault_stays(m, fs, i + 1);
                    }
                    return Err(e);
                }
                let ghost before = result@;
                result.insert(f.name.clone(), values);
                assert(arrays(result@) =~= arrays(before).insert(f@.name, values@));
            },
        }
        i = i + 1;
    }
    assert(fs.take(fs.len() as int) =~= fs);
    if schema.features.len() > 0 && expected != sancov_sites {
        let mut e: String = "BOFuzz feature-map error: feature array length ".to_owned();
        e.append(decimal_text(expected as u64).as_str());
        e.append(" != sancov_sites ");
        e.append(decimal_text(sancov_sites as u64).as_str());
        return Err(e);
    }
    Ok(result)
}

/// A fault among the first features is the fault of the whole.
proof fn fault_stays(m: Map<Seq<char>, JsonShape>, fs: Seq<FeatureSpecView>, i: int)
    requires
        0 < i <= fs.len(),
        columns_of(m, fs.take(i)) is Err,
    ensures
        columns_of(m, fs) == columns_of(m, fs.take(i)),
    decreases fs.len(),
{
    if i == fs.len() {
        assert(fs.take(i) =~= fs);
    } else {
        let front = fs.drop_last();
        assert(front.take(i) =~= fs.take(i));
        fault_stays(m, front, i);
    }
}

/// The members of a JSON object, as a table and as a map of shapes, agree.
proof fn members_are_entries(members: Seq<(String, JsonValue)>)
    ensures
        shapes(entries_map(members)) == members_map(members),
    decreases members.len(),
{
    if members.len() > 0 {
        members_are_entries(members.drop_last());
    }
    assert(shapes(entries_map(members)) =~= members_map(members));
}

/// The feature map over `sites` coverage sites that a JSON text stands for, given what the text was
/// read as; where there is none, what is said of it.
pub open spec fn map_read(
    json: Result<Map<Seq<char>, JsonShape>, Seq<char>>,
    fs: Seq<FeatureSpecView>,
    sites: nat,
) -> Result<Map<Seq<char>, Seq<Double>>, Seq<char>> {
    match json {
        Err(e) => Err("BOFuzz feature-map error: invalid JSON: "@ + e),
        Ok(map) => match feature_map_of(map, fs, sites) {
            Err(f) => Err(map_fault_text(fs, sites, f)),
            Ok(columns) => Ok(columns),
        },
    }
}

/// Reads a feature map from its JSON text and checks it against a schema.
pub fn parse_feature_map(text: &str, schema: &FeatureSchemaFile, sancov_sites: usize) -> (r: Result<
    Table<Vec<Double>>,
    String,
>)
    ensures
        map_read(json_object(text@), schema@.features, sancov_sites as nat) == match r {
            Ok(t) => Ok::<Map<Seq<char>, Seq<Double>>, Seq<char>>(arrays(t@)),
            Err(e) => Err::<Map<Seq<char>, Seq<Double>>, Seq<char>>(e@),
        },
{
    match parse_object(text) {
        Err(e) => {
            let mut f: String = "BOFuzz feature-map error: invalid JSON: ".to_owned();
            f.append(e.as_str());
            Err(f)
        },
        Ok(members) => {
            proof {
                members_are_entries(members@);
            }
            let map: Table<JsonValue> = Table::from_entries(members);
            validate_feature_map(&map, schema, sancov_sites)
        },
    }
}

/// Numbers as elements of a JSON array.
pub open spec fn items_of(v: Seq<Double>) -> Seq<Option<Double>> {
    Seq::new(v.len(), |i: int| Some(v[i]))
}

/// Arrays of numbers as members of a JSON object.
pub open spec fn shaped(columns: Map<Seq<char>, Seq<Double>>) -> Map<Seq<char>, JsonShape> {
    columns.map_values(|v: Seq<Double>| JsonShape::Array(items_of(v)))
}

/// Arrays of numbers under one name each, and the same as members of a JSON object, agree.
proof fn shaped_entries(a: Seq<(String, JsonValue)>, b: Seq<(String, Vec<Double>)>)
    requires
        a.len() == b.len(),
        forall|i: int|
            #![trigger a[i]]
            0 <= i < a.len() ==> a[i].0@ == b[i].0@ && a[i].1@ == JsonShape::Array(
                items_of(b[i].1@),
            ),
    ensures
        shapes(entries_map(a)) == shaped(arrays(entries_map(b))),
    decreases a.len(),
{
    if a.len() > 0 {
        let f = a.drop_last();
        let g = b.drop_last();
        assert forall|i: int| #![trigger f[i]] 0 <= i < f.len() implies f[i].0@ == g[i].0@
            && f[i].1@ == JsonShape::Array(items_of(g[i].1@)) by {
            assert(f[i] == a[i] && g[i] == b[i]);
        }
        shaped_entries(f, g);
        let x = a[a.len() - 1];
        let y = b[b.len() - 1];
        assert(x.0@ == y.0@);
        assert(shapes(entries_map(a)) =~= shapes(entries_map(f)).insert(x.0@, x.1@));
        assert(shaped(arrays(entries_map(b))) =~= shaped(arrays(entries_map(g))).insert(
            y.0@,
            JsonShape::Array(items_of(y.1@)),
        ));
    } else {
        assert(shapes(entries_map(a)) =~= shaped(arrays(entries_map(b))));
    }
}

/// Numbers as elements of a JSON array.
fn as_items(v: &Vec<Double>) -> (r: Vec<Option<Double>>)
    ensures
        r@ == items_of(v@),
{
    let mut r: Vec<Option<Double>> = Vec::new();
    let mut i: usize = 0;
    while i < v.len()
        invariant
            i <= v@.len(),
            r@.len() == i,
            forall|k: int| 0 <= k < i ==> r@[k] == Some(v@[k]),
        decreases v@.len() - i,
    {
        r.push(Some(v[i]));
        i = i + 1;
    }
    assert(r@ =~= items_of(v@));
    r
}

/// Arrays of numbers as members of a JSON object.
fn as_members(list: &Vec<(String, Vec<Double>)>) -> (r: Table<JsonValue>)
    requires
        distinct_names(list@),
    ensures
        shapes(r@) == shaped(arrays(entries_map(list@))),
{
    let mut members: Vec<(String, JsonValue)> = Vec::new();
    let mut i: usize = 0;
    while i < list.len()
        invariant
            i <= list@.len(),
            members@.len() == i,
            forall|k: int|
                #![trigger members@[k]]
                0 <= k < i ==> members@[k].0@ == list@[k].0@ && members@[k].1@ == JsonShape::Array(
                    items_of(list@[k].1@),
                ),
        decreases list@.len() - i,
    {
        members.push((list[i].0.clone(), JsonValue::Array(as_items(&list[i].1))));
        i = i + 1;
    }
    proof {
        shaped_entries(members@, list@);
        assert forall|a: int, b: int| 0 <= a < b < members@.len() implies members@[a].0@
            != members@[b].0@ by {
            assert(list@[a].0@ != list@[b].0@);
        }
    }
    Table::from_entries(members)
}

/// Is the name one of the first `n`?
pub open spec fn named_before<T>(entries: Seq<(Seq<char>, T)>, n: int, name: Seq<char>) -> bool {
    exists|j: int| 0 <= j < n && (#[trigger] entries[j]).0 == name
}

/// Puts the arrays of one table into another.
fn put_all(map: &mut Table<Vec<Double>>, more: &Table<Vec<Double>>)
    ensures
        arrays(final(map)@) == arrays(old(map)@).union_prefer_right(arrays(more@)),
{
    let ghost before = arrays(map@);
    let ghost added = arrays(more@);
    let ghost list = more.listed();
    let n: usize = more.len();
    let mut i: usize = 0;
    while i < n
        invariant
            i <= n,
            n == list.len(),
            list == more.listed(),
            added == arrays(more@),
            forall|k: Seq<char>| #[trigger]
                arrays(map@).dom().contains(k) <==> before.dom().contains(k) || named_before(
                    list,
                    i as int,
                    k,
                ),
            forall|k: Seq<char>| #[trigger]
                named_before(list, i as int, k) ==> added.dom().contains(k),
            forall|k: Seq<char>| #[trigger]
                arrays(map@).dom().contains(k) ==> arrays(map@)[k] == if named_before(
                    list,
                    i as int,
                    k,
                ) {
                    added[k]
                } else {
                    before[k]
                },
        decreases n - i,
    {
        let e: (&String, &Vec<Double>) = more.entry(i);
        let ghost then = arrays(map@);
        let ghost name = e.0@;
        map.insert(e.0.clone(), copy_numbers(e.1));
        proof {
            assert(list[i as int].0 == name);
            assert(added[name] == e.1@);
            assert(arrays(map@) =~= then.insert(name, added[name]));
            assert forall|k: Seq<char>| #[trigger] named_before(list, i + 1, k) <==> (named_before(
                list,
                i as int,
                k,
            ) || k == name) by {
                if named_before(list, i + 1, k) && k != name {
                    let j = choose|j: int| 0 <= j < i + 1 && (#[trigger] list[j]).0 == k;
                    assert(j < i);
                }
            }
        }
        i = i + 1;
    }
    proof {
        assert forall|k: Seq<char>| #[trigger] added.dom().contains(k) implies named_before(
            list,
            n as int,
            k,
        ) by {
            assert(more@.dom().contains(k));
        }
        let all = before.union_prefer_right(added);
        assert forall|k: Seq<char>| arrays(map@).dom().contains(k) <==> #[trigger] all.dom().contains(
            k,
        ) by {}
        assert(arrays(map@) =~= all);
    }
}

/// The arrays of a feature map over `sites` coverage sites, given what its text was read as: all
/// that it holds, and each feature of the schema under its canonical name. Where the map does not
/// fit the schema, what is said of it.
pub open spec fn arrays_read(
    json: Result<Map<Seq<char>, Seq<Double>>, Seq<char>>,
    fs: Seq<FeatureSpecView>,
    sites: nat,
) -> Result<Map<Seq<char>, Seq<Double>>, Seq<char>> {
    match json {
        Err(e) => Err("json parse err: "@ + e),
        Ok(columns) => match feature_map_of(shaped(columns), fs, sites) {
            Err(f) => Err(map_fault_text(fs, sites, f)),
            Ok(named) => Ok(columns.union_prefer_right(named)),
        },
    }
}

/// Reads the arrays of a feature map from its JSON text and checks them against a schema. What the
/// map holds beside the features of the schema is kept.
pub fn parse_feature_arrays(text: &str, schema: &FeatureSchemaFile, sancov_sites: usize) -> (r:
    Result<Table<Vec<Double>>, String>)
    ensures
        arrays_read(json_columns(text@), schema@.features, sancov_sites as nat) == match r {
            Ok(t) => Ok::<Map<Seq<char>, Seq<Double>>, Seq<char>>(arrays(t@)),
            Err(e) => Err::<Map<Seq<char>, Seq<Double>>, Seq<char>>(e@),
        },
{
    match parse_columns(text) {
        Err(e) => {
            let mut f: String = "json parse err: ".to_owned();
            f.append(e.as_str());
            Err(f)
        },
        Ok(list) => match validate_feature_map(&as_members(&list), schema, sancov_sites) {
            Err(e) => Err(e),
            Ok(named) => {
                let mut map: Table<Vec<Double>> = Table::from_entries(list);
                put_all(&mut map, &named);
                Ok(map)
            },
        },
    }
}

/// A map that has every feature of the schema under its canonical name is taken as it is.
pub proof fn canonical_maps_are_kept(
    columns: Map<Seq<char>, Seq<Double>>,
    fs: Seq<FeatureSpecView>,
    sites: nat,
)
    requires
        arrays_read(Ok(columns), fs, sites) is Ok,
        forall|i: int| 0 <= i < fs.len() ==> columns.dom().contains((#[trigger] fs[i]).name),
    ensures
        arrays_read(Ok(columns), fs, sites) == Ok::<Map<Seq<char>, Seq<Double>>, Seq<char>>(
            columns,
        ),
{
    let map = shaped(columns);
    let named = columns_of(map, fs)->Ok_0;
    canonical_columns(columns, fs);
    assert(columns.union_prefer_right(named) =~= columns);
}

/// The arrays that are found under canonical names are those of the map.
proof fn canonical_columns(columns: Map<Seq<char>, Seq<Double>>, fs: Seq<FeatureSpecView>)
    requires
        columns_of(shaped(columns), fs) is Ok,
        forall|i: int| 0 <= i < fs.len() ==> columns.dom().contains((#[trigger] fs[i]).name),
    ensures
        forall|k: Seq<char>| #[trigger]
            columns_of(shaped(columns), fs)->Ok_0.dom().contains(k) ==> columns.dom().contains(k)
                && columns_of(shaped(columns), fs)->Ok_0[k] == columns[k],
    decreases fs.len(),
{
    if fs.len() > 0 {
        let map = shaped(columns);
        let front = fs.drop_last();
        assert forall|i: int| 0 <= i < front.len() implies columns.dom().contains(
            (#[trigger] front[i]).name,
        ) by {
            assert(front[i] == fs[i]);
        }
        canonical_columns(columns, front);
        let f = fs[fs.len() - 1];
        assert(columns.dom().contains(f.name));
        assert(map.dom().contains(f.name));
        let items = items_of(columns[f.name]);
        assert(map[f.name] == JsonShape::Array(items));
        assert(Seq::new(items.len(), |i: int| items[i]->0) =~= columns[f.name]);
    }
}

/// No number is missing or infinite where no such place is found.
proof fn all_finite_numbers(items: Seq<Option<Double>>, k: int)
    requires
        0 <= k,
        first_non_number(items, k) is None,
        first_non_finite(items, k) is None,
    ensures
        forall|i: int| k <= i < items.len() ==> (#[trigger] items[i]) is Some && (
        items[i]->0).finite(),
    decreases items.len() - k,
{
    if k < items.len() {
        all_finite_numbers(items, k + 1);
    }
}

/// What the arrays of the features are, one feature after the other.
proof fn columns_hold(map: Map<Seq<char>, JsonShape>, fs: Seq<FeatureSpecView>)
    requires
        columns_of(map, fs) is Ok,
        forall|i: int, j: int| 0 <= i < j < fs.len() ==> fs[i].name != fs[j].name,
    ensures
        forall|i: int|
            #![trigger fs[i]]
            0 <= i < fs.len() ==> column_of(map, fs[i]) is Ok && columns_of(
                map,
                fs,
            )->Ok_0.dom().contains(fs[i].name) && columns_of(map, fs)->Ok_0[fs[i].name]
                == column_of(map, fs[i])->Ok_0 && column_of(map, fs[i])->Ok_0.len() == first_length(
                map,
                fs,
            ),
        forall|name: Seq<char>| #[trigger]
            columns_of(map, fs)->Ok_0.dom().contains(name) ==> exists|i: int|
                0 <= i < fs.len() && (#[trigger] fs[i]).name == name,
    decreases fs.len(),
{
    if fs.len() > 0 {
        let front = fs.drop_last();
        columns_hold(map, front);
        let all = columns_of(map, fs)->Ok_0;
        let before = columns_of(map, front)->Ok_0;
        assert forall|i: int| #![trigger fs[i]] 0 <= i < fs.len() implies column_of(
            map,
            fs[i],
        ) is Ok && all.dom().contains(fs[i].name) && all[fs[i].name] == column_of(
            map,
            fs[i],
        )->Ok_0 && column_of(map, fs[i])->Ok_0.len() == first_length(map, fs) by {
            if i < front.len() {
                assert(front[i] == fs[i]);
                assert(front[0] == fs[0]);
                assert(fs[i].name != fs.last().name);
            }
        }
        assert forall|name: Seq<char>| #[trigger] all.dom().contains(name) implies exists|i: int|
            0 <= i < fs.len() && (#[trigger] fs[i]).name == name by {
            if name == fs.last().name {
                assert(fs[fs.len() - 1].name == name);
            } else {
                assert(before.dom().contains(name));
                let i = choose|i: int| 0 <= i < front.len() && (#[trigger] front[i]).name == name;
                assert(fs[i].name == name);
            }
        }
    }
}

/// An accepted feature map holds exactly the features of the schema, each under its canonical
/// name, with one finite number for every coverage site.
pub proof fn accepted_maps_are_complete(
    map: Map<Seq<char>, JsonShape>,
    fs: Seq<FeatureSpecView>,
    sites: nat,
)
    requires
        feature_map_of(map, fs, sites) is Ok,
        forall|i: int, j: int| 0 <= i < j < fs.len() ==> fs[i].name != fs[j].name,
    ensures
        ({
            let t = feature_map_of(map, fs, sites)->Ok_0;
            &&& forall|name: Seq<char>| #[trigger]
                t.dom().contains(name) <==> exists|i: int|
                    0 <= i < fs.len() && (#[trigger] fs[i]).name == name
            &&& forall|i: int|
                #![trigger fs[i]]
                0 <= i < fs.len() ==> t[fs[i].name].len() == sites && column_of(map, fs[i]) == Ok::<
                    Seq<Double>,
                    ColumnFault,
                >(t[fs[i].name])
            &&& forall|i: int, k: int|
                0 <= i < fs.len() && 0 <= k < sites ==> (#[trigger] t[fs[i].name][k]).finite()
        }),
{
    columns_hold(map, fs);
    let t = feature_map_of(map, fs, sites)->Ok_0;
    assert forall|i: int, k: int| 0 <= i < fs.len() && 0 <= k < sites implies (
    #[trigger] t[fs[i].name][k]).finite() by {
        let key = key_of(map.dom(), fs[i])->0;
        match map[key] {
            JsonShape::Array(items) => {
                all_finite_numbers(items, 0);
                assert(items[k] is Some);
            },
            JsonShape::Other => {},
        }
    }
}

/// A faultless list of arrays has one for each feature.
proof fn columns_exist(map: Map<Seq<char>, JsonShape>, fs: Seq<FeatureSpecView>, i: int)
    requires
        columns_of(map, fs) is Ok,
        0 <= i < fs.len(),
    ensures
        column_of(map, fs[i]) is Ok,
    decreases fs.len(),
{
    if i < fs.len() - 1 {
        columns_exist(map, fs.drop_last(), i);
    }
}

/// A map that lacks a feature, under its name and under all its aliases, is refused, and so is one
/// of the kind that lists all numbers under one key.
pub proof fn other_maps_are_refused(
    map: Map<Seq<char>, JsonShape>,
    fs: Seq<FeatureSpecView>,
    sites: nat,
    i: int,
)
    requires
        0 <= i < fs.len(),
    ensures
        key_of(map.dom(), fs[i]) is None ==> feature_map_of(map, fs, sites) is Err,
        map.dom().contains("features"@) ==> feature_map_of(map, fs, sites) is Err,
{
    if columns_of(map, fs) is Ok {
        columns_exist(map, fs, i);
    }
}

/// A feature is looked up under its own name first: its aliases matter only where that name is no
/// key.
pub proof fn canonical_name_wins(keys: Set<Seq<char>>, f: FeatureSpecView)
    requires
        keys.contains(f.name),
    ensures
        key_of(keys, f) == Some(f.name),
{
}

/// What a feature map's file name has behind the name of its target.
pub open spec fn map_suffix() -> Seq<char> {
    "_features_map"@
}

/// The directory and the target that the path of a feature map names. The target is what stands
/// before the first `_features_map` in the file name, and the file name without its extension
/// where that does not occur; `at` is the place of that first occurrence. A path without a
/// directory names none.
pub open spec fn target_at<D>(
    parent: Option<D>,
    file: Seq<char>,
    file_stem: Option<Seq<char>>,
    at: Option<int>,
) -> Option<(D, Seq<char>)> {
    match parent {
        Some(dir) => match at {
            Some(i) => Some((dir, file.take(i))),
            None => match file_stem {
                Some(stem) => Some((dir, stem)),
                None => None,
            },
        },
        None => None,
    }
}

/// The text of an optional string.
pub open spec fn optional_text(s: Option<String>) -> Option<Seq<char>> {
    match s {
        Some(t) => Some(t@),
        None => None,
    }
}

/// The directory and the target that the path of a feature map names, given the parts of the path.
pub fn derive_dir_and_target<D>(
    parent: Option<D>,
    file_name: Option<String>,
    file_stem: Option<String>,
) -> (r: Option<(D, String)>)
    ensures
        file_name is None ==> r is None,
        file_name is Some ==> exists|at: Option<int>| #[trigger]
            first_occurrence((file_name->0)@, map_suffix(), at) && {
                let wanted = target_at(parent, (file_name->0)@, optional_text(file_stem), at);
                match r {
                    Some(p) => wanted == Some((p.0, p.1@)),
                    None => wanted is None,
                }
            },
{
    let file: String = match file_name {
        Some(f) => f,
        None => {
            return None;
        },
    };
    let cs: Vec<char> = chars_of(file.as_str());
    let needle: Vec<char> = chars_of("_features_map");
    let found: Option<usize> = find(&cs, &needle);
    let ghost at = match found {
        Some(i) => Some(i as int),
        None => None,
    };
    assert(first_occurrence(file@, map_suffix(), at));
    let dir: D = match parent {
        Some(d) => d,
        None => {
            return None;
        },
    };
    match found {
        Some(i) => {
            let target: String = file.as_str().substring_char(0, i).to_owned();
            assert(target@ =~= file@.take(i as int));
            Some((dir, target))
        },
        None => match file_stem {
            Some(stem) => Some((dir, stem)),
            None => None,
        },
    }
}

/// The name of the file that holds the feature map of a target.
pub open spec fn features_map_file(target: Seq<char>) -> Seq<char> {
    target + "_features_map.json"@
}

/// The name of the file that holds the candidates of a target.
pub open spec fn v_candidates_file(target: Seq<char>) -> Seq<char> {
    target + "_v_candidates.json"@
}

/// The name of the file that holds the prior order of a target.
pub open spec fn prior_order_file(target: Seq<char>) -> Seq<char> {
    target + "_prior_order.json"@
}

/// The name of the file that holds the feature map of a target.
pub fn features_map_name(target: &str) -> (r: String)
    ensures
        r@ == features_map_file(target@),
{
    let mut r: String = target.to_owned();
    r.append("_features_map.json");
    r
}

/// The name of the file that holds the candidates of a target.
pub fn v_candidates_name(target: &str) -> (r: String)
    ensures
        r@ == v_candidates_file(target@),
{
    let mut r: String = target.to_owned();
    r.append("_v_candidates.json");
    r
}

/// The name of the file that holds the prior order of a target.
pub fn prior_order_name(target: &str) -> (r: String)
    ensures
        r@ == prior_order_file(target@),
{
    let mut r: String = target.to_owned();
    r.append("_prior_order.json");
    r
}

/// The file that holds the feature map of a target names that target, unless the target's own name
/// holds `_features_map`.
pub proof fn map_file_names_target<D>(
    dir: D,
    target: Seq<char>,
    stem: Option<Seq<char>>,
    at: Option<int>,
)
    requires
        forall|j: int| !occurs_at(target, map_suffix(), j),
        first_occurrence(features_map_file(target), map_suffix(), at),
    ensures
        target_at(Some(dir), features_map_file(target), stem, at) == Some((dir, target)),
{
    reveal_strlit("_features_map");
    reveal_strlit("_features_map.json");
    let file = features_map_file(target);
    let suffix = map_suffix();
    let n = target.len() as int;
    assert(file.subrange(n, n + suffix.len()) =~= suffix);
    assert(occurs_at(file, suffix, n));
    assert forall|j: int| 0 <= j < n implies !occurs_at(file, suffix, j) by {
        if occurs_at(file, suffix, j) {
            let part = file.subrange(j, j + suffix.len());
            if j + suffix.len() <= n {
                assert(target.subrange(j, j + suffix.len()) =~= part);
                assert(occurs_at(target, suffix, j));
            } else {
                assert(part[n - j] == file[n]);
                assert(n - j + 1 < suffix.len() ==> part[n - j + 1] == file[n + 1]);
            }
        }
    }
    assert(at == Some(n));
    assert(file.take(n) =~= target);
}

/// The first name that is a key is found.
proof fn first_key_is_first(keys: Set<Seq<char>>, names: Seq<Seq<char>>, k: int)
    requires
        0 <= k,
    ensures
        match first_key(keys, names, k) {
            Some(key) => exists|m: int|
                k <= m < names.len() && #[trigger] names[m] == key && keys.contains(key) && forall|
                    j: int,
                |
                    k <= j < m ==> !keys.contains(#[trigger] names[j]),
            None => forall|j: int| k <= j < names.len() ==> !keys.contains(#[trigger] names[j]),
        },
    decreases names.len() - k,
{
    if k < names.len() {
        first_key_is_first(keys, names, k + 1);
        if !keys.contains(names[k]) && first_key(keys, names, k + 1) is Some {
            let m = choose|m: int|
                k + 1 <= m < names.len() && #[trigger] names[m] == first_key(keys, names, k + 1)->0
                    && forall|j: int| k + 1 <= j < m ==> !keys.contains(#[trigger] names[j]);
            assert(names[m] == first_key(keys, names, k)->0);
        }
    }
}

/// A feature is found under its name. Where the map does not have that, it is found under the first of
/// its aliases that the map has, and where it has none, not at all.
pub proof fn aliases_stand_in(keys: Set<Seq<char>>, f: FeatureSpecView)
    ensures
        keys.contains(f.name) ==> key_of(keys, f) == Some(f.name),
        !keys.contains(f.name) && f.aliases is None ==> key_of(keys, f) is None,
        !keys.contains(f.name) && f.aliases is Some ==> match key_of(keys, f) {
            Some(key) => exists|m: int|
                0 <= m < (f.aliases->0).len() && #[trigger] (f.aliases->0)[m] == key
                    && keys.contains(key) && forall|j: int|
                    0 <= j < m ==> !keys.contains(#[trigger] (f.aliases->0)[j]),
            None => forall|j: int|
                0 <= j < (f.aliases->0).len() ==> !keys.contains(#[trigger] (f.aliases->0)[j]),
        },
{
    first_key_is_first(keys, aliases_of(f), 0);
}

/// Nothing is found amiss among finite numbers.
proof fn nothing_amiss(items: Seq<Option<Double>>, k: int)
    requires
        0 <= k,
        forall|i: int|
            0 <= i < items.len() ==> (#[trigger] items[i]) is Some && (items[i]->0).finite(),
    ensures
        first_non_number(items, k) is None,
        first_non_finite(items, k) is None,
    decreases items.len() - k,
{
    if k < items.len() {
        assert(items[k] is Some);
        nothing_amiss(items, k + 1);
    }
}

/// What is found amiss is so, and nothing before it.
proof fn amiss_at_first(items: Seq<Option<Double>>, k: int)
    requires
        0 <= k,
    ensures
        first_non_number(items, k) matches Some(m) ==> k <= m < items.len() && items[m] is None
            && forall|i: int| k <= i < m ==> (#[trigger] items[i]) is Some,
        first_non_finite(items, k) matches Some(m) ==> k <= m < items.len()
            && !(items[m]->0).finite() && forall|i: int|
            k <= i < m ==> (#[trigger] items[i]->0).finite(),
    decreases items.len() - k,
{
    if k < items.len() {
        amiss_at_first(items, k + 1);
    }
}

/// The array of a feature is what the map has under its key, number for number. It is refused where it
/// is missing, is no array, or holds something that is no finite number, and the first such place is
/// told.
pub proof fn arrays_are_read_as_they_are(
    map: Map<Seq<char>, JsonShape>,
    f: FeatureSpecView,
    key: Seq<char>,
    items: Seq<Option<Double>>,
    i: int,
)
    requires
        key_of(map.dom(), f) == Some(key),
        map[key] == JsonShape::Array(items),
        0 <= i < items.len(),
    ensures
        (forall|k: int|
            0 <= k < items.len() ==> (#[trigger] items[k]) is Some && (items[k]->0).finite())
            ==> column_of(map, f) is Ok && (column_of(map, f)->Ok_0).len() == items.len() && (
        column_of(map, f)->Ok_0)[i] == items[i]->0,
        items[i] is None || !(items[i]->0).finite() ==> column_of(map, f) is Err,
        column_of(map, f) matches Err(ColumnFault::NotNumeric(k)) ==> 0 <= k < items.len()
            && items[k] is None && forall|m: int| 0 <= m < k ==> (#[trigger] items[m]) is Some,
        column_of(map, f) matches Err(ColumnFault::NotFinite(k)) ==> 0 <= k < items.len()
            && items[k] is Some && !(items[k]->0).finite() && forall|m: int|
            0 <= m < k ==> (#[trigger] items[m]) is Some && (items[m]->0).finite(),
        !(column_of(map, f) matches Err(ColumnFault::Missing)),
        !(column_of(map, f) matches Err(ColumnFault::NotArray)),
{
    amiss_at_first(items, 0);
    if forall|k: int|
        0 <= k < items.len() ==> (#[trigger] items[k]) is Some && (items[k]->0).finite() {
        nothing_amiss(items, 0);
    }
    if first_non_number(items, 0) is None && first_non_finite(items, 0) is None {
        all_finite_numbers(items, 0);
        assert(items[i] is Some && (items[i]->0).finite());
    }
    if first_non_number(items, 0) is None {
        all_numbers(items, 0);
        if first_non_finite(items, 0) is Some {
            let k = first_non_finite(items, 0)->0;
            assert(items[k] is Some);
            assert forall|m: int| 0 <= m < k implies (#[trigger] items[m]) is Some && (
            items[m]->0).finite() by {
                assert((items[m]->0).finite());
            }
        }
    }
}

/// Without a place that holds no number, all hold one.
proof fn all_numbers(items: Seq<Option<Double>>, k: int)
    requires
        0 <= k,
        first_non_number(items, k) is None,
    ensures
        forall|i: int| k <= i < items.len() ==> (#[trigger] items[i]) is Some,
    decreases items.len() - k,
{
    if k < items.len() {
        all_numbers(items, k + 1);
    }
}

/// A feature that the map does not have, and one that is no array there, is refused.
pub proof fn missing_arrays_are_told(map: Map<Seq<char>, JsonShape>, f: FeatureSpecView)
    ensures
        key_of(map.dom(), f) is None <==> column_of(map, f) matches Err(ColumnFault::Missing),
        key_of(map.dom(), f) matches Some(key) ==> (map[key] is Other <==> column_of(
            map,
            f,
        ) matches Err(ColumnFault::NotArray)),
{
}

/// Arrays of one length are all taken.
proof fn even_columns(map: Map<Seq<char>, JsonShape>, fs: Seq<FeatureSpecView>, sites: nat)
    requires
        forall|i: int|
            0 <= i < fs.len() ==> column_of(map, #[trigger] fs[i]) is Ok && (column_of(
                map,
                fs[i],
            )->Ok_0).len() == sites,
    ensures
        columns_of(map, fs) is Ok,
    decreases fs.len(),
{
    if fs.len() > 0 {
        let front = fs.drop_last();
        assert forall|i: int| 0 <= i < front.len() implies column_of(map, #[trigger] front[i]) is Ok
            && (column_of(map, front[i])->Ok_0).len() == sites by {
            assert(front[i] == fs[i]);
        }
        even_columns(map, front, sites);
        assert(column_of(map, fs[0]) is Ok);
        assert(column_of(map, fs[fs.len() - 1]) is Ok);
    }
}

/// A map in which every feature has an array of finite numbers, one for each coverage site, is
/// accepted, and each feature has exactly these numbers under its name.
pub proof fn fitting_maps_are_accepted(
    map: Map<Seq<char>, JsonShape>,
    fs: Seq<FeatureSpecView>,
    sites: nat,
)
    requires
        !map.dom().contains("features"@),
        forall|i: int, j: int| 0 <= i < j < fs.len() ==> fs[i].name != fs[j].name,
        forall|i: int|
            #![trigger fs[i]]
            0 <= i < fs.len() ==> key_of(map.dom(), fs[i]) is Some && (map[key_of(
                map.dom(),
                fs[i],
            )->0] matches JsonShape::Array(items) && items.len() == sites && forall|k: int|
                0 <= k < items.len() ==> (#[trigger] items[k]) is Some && (items[k]->0).finite()),
    ensures
        feature_map_of(map, fs, sites) is Ok,
        forall|i: int, k: int|
            0 <= i < fs.len() && 0 <= k < sites ==> #[trigger] (feature_map_of(
                map,
                fs,
                sites,
            )->Ok_0)[fs[i].name][k] == map[key_of(map.dom(), fs[i])->0]->Array_0[k]->0,
{
    assert forall|i: int| 0 <= i < fs.len() implies column_of(map, #[trigger] fs[i]) is Ok && (
    column_of(map, fs[i])->Ok_0).len() == sites by {
        let items = map[key_of(map.dom(), fs[i])->0]->Array_0;
        nothing_amiss(items, 0);
    }
    even_columns(map, fs, sites);
    if fs.len() > 0 {
        assert(column_of(map, fs[0]) is Ok);
    }
    accepted_maps_are_complete(map, fs, sites);
    assert forall|i: int, k: int| 0 <= i < fs.len() && 0 <= k < sites implies #[trigger] (
    feature_map_of(map, fs, sites)->Ok_0)[fs[i].name][k] == map[key_of(
        map.dom(),
        fs[i],
    )->0]->Array_0[k]->0 by {
        let items = map[key_of(map.dom(), fs[i])->0]->Array_0;
        nothing_amiss(items, 0);
        assert(column_of(map, fs[i]) == Ok::<Seq<Double>, ColumnFault>(
            (feature_map_of(map, fs, sites)->Ok_0)[fs[i].name],
        ));
    }
}

/// A map in which some feature has an array of another length than there are coverage sites is refused.
pub proof fn uneven_maps_are_refused(
    map: Map<Seq<char>, JsonShape>,
    fs: Seq<FeatureSpecView>,
    sites: nat,
    i: int,
)
    requires
        forall|i: int, j: int| 0 <= i < j < fs.len() ==> fs[i].name != fs[j].name,
        0 <= i < fs.len(),
        key_of(map.dom(), fs[i]) is None || map[key_of(map.dom(), fs[i])->0] is Other || (map[key_of(
            map.dom(),
            fs[i],
        )->0]->Array_0).len() != sites,
    ensures
        feature_map_of(map, fs, sites) is Err,
{
    if feature_map_of(map, fs, sites) is Ok {
        accepted_maps_are_complete(map, fs, sites);
        assert(column_of(map, fs[i]) is Ok);
    }
}

/// In a map that is accepted each feature of the schema has, under its name, the array that the file
/// has under the feature's key. Every other array of the file stays under its own name.
pub proof fn features_are_found_under_their_names(
    columns: Map<Seq<char>, Seq<Double>>,
    fs: Seq<FeatureSpecView>,
    sites: nat,
    i: int,
    other: Seq<char>,
)
    requires
        arrays_read(Ok(columns), fs, sites) is Ok,
        forall|i: int, j: int| 0 <= i < j < fs.len() ==> fs[i].name != fs[j].name,
        0 <= i < fs.len(),
        columns.dom().contains(other),
        forall|j: int| 0 <= j < fs.len() ==> (#[trigger] fs[j]).name != other,
    ensures
        ({
            let t = arrays_read(Ok(columns), fs, sites)->Ok_0;
            &&& key_of(columns.dom(), fs[i]) is Some
            &&& columns.dom().contains(key_of(columns.dom(), fs[i])->0)
            &&& t.dom().contains(fs[i].name)
            &&& t[fs[i].name] == columns[key_of(columns.dom(), fs[i])->0]
            &&& t[fs[i].name].len() == sites
            &&& t.dom().contains(other)
            &&& t[other] == columns[other]
        }),
{
    let map = shaped(columns);
    accepted_maps_are_complete(map, fs, sites);
    assert(map.dom() =~= columns.dom());
    aliases_stand_in(columns.dom(), fs[i]);
    let named = feature_map_of(map, fs, sites)->Ok_0;
    assert(column_of(map, fs[i]) == Ok::<Seq<Double>, ColumnFault>(named[fs[i].name]));
    let key = key_of(columns.dom(), fs[i])->0;
    assert(map[key] == JsonShape::Array(items_of(columns[key])));
    assert(named[fs[i].name] =~= columns[key]);
    assert(named.dom().contains(fs[i].name));
    assert(!named.dom().contains(other));
}

/// The target is the part of the file name before the suffix of feature maps. A name without it gives
/// its stem, and without a directory there is no target.
pub proof fn targets_come_before_the_suffix<D>(
    dir: D,
    target: Seq<char>,
    rest: Seq<char>,
    stem: Option<Seq<char>>,
)
    ensures
        target_at(
            Some(dir),
            target + "_features_map"@ + rest,
            stem,
            Some(target.len() as int),
        ) == Some((dir, target)),
        stem matches Some(s) ==> target_at(Some(dir), target, stem, None) == Some((dir, s)),
        stem is None ==> target_at(Some(dir), target, stem, None) is None,
        target_at(None::<D>, target, stem, Some(target.len() as int)) is None,
        map_suffix() == "_features_map"@,
{
    let file = target + "_features_map"@ + rest;
    assert(file.take(target.len() as int) =~= target);
}

/// The models of what a file holds keep each value under its name, and each number in its place.
pub proof fn files_are_modelled(
    values: Map<Seq<char>, JsonValue>,
    columns: Map<Seq<char>, Seq<Double>>,
    name: Seq<char>,
    text: Option<String>,
    i: int,
)
    ensures
        shapes(values).dom() == values.dom(),
        values.dom().contains(name) ==> shapes(values)[name] == values[name]@,
        shaped(columns).dom() == columns.dom(),
        columns.dom().contains(name) ==> shaped(columns)[name] is Array && (shaped(
            columns,
        )[name]->Array_0).len() == columns[name].len() && (0 <= i < columns[name].len() ==> (shaped(
            columns,
        )[name]->Array_0)[i] == Some(columns[name][i])),
        text is None <==> optional_text(text) is None,
        text matches Some(t) ==> optional_text(text) == Some(t@),
{
}

} // verus!
