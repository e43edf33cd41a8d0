use vstd::prelude::*;
use crate::value::{Value, sequence_values, sequence_refs, is_int_key};

verus! {

/// A JSON value. Numbers parsed from JSON text arrive as floats, by the text the
/// runtime displays for them (`Number`); integers come from script integers.
#[derive(Debug, PartialEq)]
pub enum Json {
    Null,
    Bool(bool),
    Integer(i64),
    Number(String),
    Str(String),
    Array(Vec<Json>),
    /// An object, by its fields in order.
    Object(Vec<(String, Json)>),
}

/// The mathematical view of a JSON value.
pub enum JsonModel {
    Null,
    Bool(bool),
    Integer(i64),
    Number(Seq<char>),
    Str(Seq<char>),
    Array(Seq<JsonModel>),
    Object(Seq<(Seq<char>, JsonModel)>),
}

/// Why a value could not be converted.
#[derive(Debug, PartialEq, Eq, Structural)]
pub enum JsonError {
    /// A string that is not valid UTF-8.
    InvalidUtf8,
    /// A value with no JSON form (a function, userdata, ...).
    Unsupported,
}

pub open spec fn jview(j: Json) -> JsonModel
    decreases j, 0nat,
{
    match j {
        Json::Null => JsonModel::Null,
        Json::Bool(b) => JsonModel::Bool(b),
        Json::Integer(i) => JsonModel::Integer(i),
        Json::Number(t) => JsonModel::Number(t@),
        Json::Str(s) => JsonModel::Str(s@),
        Json::Array(items) => JsonModel::Array(jview_items(items, items@.len())),
        Json::Object(fields) => JsonModel::Object(jview_fields(fields, fields@.len())),
    }
}

pub open spec fn jview_items(items: Vec<Json>, n: nat) -> Seq<JsonModel>
    decreases items, n,
{
    if n == 0 || n > items@.len() {
        Seq::empty()
    } else {
        jview_items(items, (n - 1) as nat).push(jview(items@[n - 1]))
    }
}

pub open spec fn jview_fields(fields: Vec<(String, Json)>, n: nat) -> Seq<(Seq<char>, JsonModel)>
    decreases fields, n,
{
    if n == 0 || n > fields@.len() {
        Seq::empty()
    } else {
        jview_fields(fields, (n - 1) as nat).push((fields@[n - 1].0@, jview(fields@[n - 1].1)))
    }
}

/// Where the integer key `i` first stands in a table's pairs.
pub open spec fn key_pos(pairs: Seq<(Value, Value)>, i: int) -> Option<int>
    decreases pairs.len(),
{
    if pairs.len() == 0 {
        None
    } else {
        match key_pos(pairs.drop_last(), i) {
            Some(k) => Some(k),
            None => if is_int_key(pairs.last().0, i) {
                Some(pairs.len() - 1)
            } else {
                None
            },
        }
    }
}

proof fn lemma_key_pos(pairs: Seq<(Value, Value)>, i: int)
    ensures
        key_pos(pairs, i) matches Some(k) ==> 0 <= k < pairs.len() && is_int_key(pairs[k].0, i) && forall|j: int|
            0 <= j < k ==> !is_int_key(#[trigger] pairs[j].0, i),
        key_pos(pairs, i) is None ==> forall|j: int| 0 <= j < pairs.len() ==> !is_int_key(#[trigger] pairs[j].0, i),
    decreases pairs.len(),
{
    if pairs.len() > 0 {
        lemma_key_pos(pairs.drop_last(), i);
        assert forall|j: int| 0 <= j < pairs.len() - 1 implies pairs[j] == pairs.drop_last()[j] by {}
    }
}

proof fn lemma_key_pos_least(pairs: Seq<(Value, Value)>, i: int, k: int)
    requires
        0 <= k < pairs.len(),
        is_int_key(pairs[k].0, i),
        forall|j: int| 0 <= j < k ==> !is_int_key(#[trigger] pairs[j].0, i),
    ensures
        key_pos(pairs, i) == Some(k),
{
    lemma_key_pos(pairs, i);
    match key_pos(pairs, i) {
        Some(q) => {
            if q < k {
                assert(!is_int_key(pairs[q].0, i));
            } else if q > k {
                assert(!is_int_key(pairs[k].0, i));
            }
        },
        None => {
            assert(!is_int_key(pairs[k].0, i));
        },
    }
}

fn key_pos_exec(pairs: &Vec<(Value, Value)>, i: i64) -> (r: Option<usize>)
    ensures
        r matches Some(k) ==> key_pos(pairs@, i as int) == Some(k as int),
        r is None ==> key_pos(pairs@, i as int) is None,
{
    let n = pairs.len();
    let mut j: usize = 0;
    while j < n
        invariant
            n == pairs@.len(),
            j <= n,
            forall|q: int| 0 <= q < j ==> !is_int_key(#[trigger] pairs@[q].0, i as int),
        decreases n - j,
    {
        match &pairs[j].0 {
            Value::Integer(k) => {
                if *k == i {
                    proof {
                        lemma_key_pos_least(pairs@, i as int, j as int);
                    }
                    return Some(j);
                }
            },
            _ => {},
        }
        j = j + 1;
    }
    proof {
        lemma_key_pos(pairs@, i as int);
        if key_pos(pairs@, i as int) is Some {
            let k = key_pos(pairs@, i as int)->0;
            assert(!is_int_key(pairs@[k].0, i as int));
        }
    }
    None
}

/// The JSON form of a script value: `nil` is null; booleans, integers, floats and
/// strings map to themselves; a non-empty table whose keys are exactly `1`, `2`,
/// ..., `n` is the array of its values in key order; any other table is the object
/// of its string-keyed fields, and its other keys are dropped without notice: a
/// table mixing both, such as `{10, 20, x = 1}`, gives `{"x": 1}`. Functions and
/// the like have no JSON form.
pub open spec fn json_of(v: Value) -> Result<JsonModel, JsonError>
    decreases v, 0nat,
{
    match v {
        Value::Nil => Ok(JsonModel::Null),
        Value::Boolean(b) => Ok(JsonModel::Bool(b)),
        Value::Integer(i) => Ok(JsonModel::Integer(i)),
        Value::Number(t) => Ok(JsonModel::Number(t@)),
        Value::Str(s) => Ok(JsonModel::Str(s@)),
        Value::RawStr(_) => Err(JsonError::InvalidUtf8),
        Value::Table(pairs) => {
            let n = sequence_values(pairs@).len();
            if n > 0 && n == pairs@.len() {
                match json_items(pairs, n) {
                    Ok(items) => Ok(JsonModel::Array(items)),
                    Err(e) => Err(e),
                }
            } else {
                match json_fields(pairs, pairs@.len()) {
                    Ok(fields) => Ok(JsonModel::Object(fields)),
                    Err(e) => Err(e),
                }
            }
        },
        _ => Err(JsonError::Unsupported),
    }
}

/// The JSON forms of the values under keys `1` to `n`.
pub open spec fn json_items(pairs: Vec<(Value, Value)>, n: nat) -> Result<Seq<JsonModel>, JsonError>
    decreases pairs, n,
{
    if n == 0 {
        Ok(Seq::empty())
    } else {
        match json_items(pairs, (n - 1) as nat) {
            Err(e) => Err(e),
            Ok(prev) => match key_pos(pairs@, n as int) {
                Some(k) => if 0 <= k < pairs@.len() {
                    match json_of(pairs@[k].1) {
                        Ok(j) => Ok(prev.push(j)),
                        Err(e) => Err(e),
                    }
                } else {
                    Ok(prev.push(JsonModel::Null))
                },
                None => Ok(prev.push(JsonModel::Null)),
            },
        }
    }
}

/// The JSON fields of the first `n` pairs with string keys, in order.
pub open spec fn json_fields(pairs: Vec<(Value, Value)>, n: nat) -> Result<Seq<(Seq<char>, JsonModel)>, JsonError>
    decreases pairs, n,
{
    if n == 0 || n > pairs@.len() {
        Ok(Seq::empty())
    } else {
        match json_fields(pairs, (n - 1) as nat) {
            Err(e) => Err(e),
            Ok(prev) => match pairs@[n - 1].0 {
                Value::Str(k) => match json_of(pairs@[n - 1].1) {
                    Ok(j) => Ok(prev.push((k@, j))),
                    Err(e) => Err(e),
                },
                Value::RawStr(_) => Err(JsonError::InvalidUtf8),
                _ => Ok(prev),
            },
        }
    }
}

/// The model of a conversion result.
pub open spec fn json_result(r: Result<Json, JsonError>) -> Result<JsonModel, JsonError> {
    match r {
        Ok(j) => Ok(jview(j)),
        Err(e) => Err(e),
    }
}

proof fn lemma_jview_items_prefix(a: Vec<Json>, b: Vec<Json>, n: nat)
    requires
        n <= a@.len(),
        n <= b@.len(),
        a@.take(n as int) == b@.take(n as int),
    ensures
        jview_items(a, n) == jview_items(b, n),
    decreases n,
{
    if n > 0 {
        assert(a@[n - 1] == a@.take(n as int)[n - 1]);
        assert(b@[n - 1] == b@.take(n as int)[n - 1]);
        assert(a@.take(n - 1) == a@.take(n as int).take(n - 1));
        assert(b@.take(n - 1) == b@.take(n as int).take(n - 1));
        lemma_jview_items_prefix(a, b, (n - 1) as nat);
    }
}

proof fn lemma_jview_fields_prefix(a: Vec<(String, Json)>, b: Vec<(String, Json)>, n: nat)
    requires
        n <= a@.len(),
        n <= b@.len(),
        a@.take(n as int) == b@.take(n as int),
    ensures
        jview_fields(a, n) == jview_fields(b, n),
    decreases n,
{
    if n > 0 {
        assert(a@[n - 1] == a@.take(n as int)[n - 1]);
        assert(b@[n - 1] == b@.take(n as int)[n - 1]);
        assert(a@.take(n - 1) == a@.take(n as int).take(n - 1));
        assert(b@.take(n - 1) == b@.take(n as int).take(n - 1));
        lemma_jview_fields_prefix(a, b, (n - 1) as nat);
    }
}

proof fn lemma_items_err_stays(pairs: Vec<(Value, Value)>, i: nat, n: nat)
    requires
        i <= n,
        json_items(pairs, i) is Err,
    ensures
        json_items(pairs, n) == json_items(pairs, i),
    decreases n - i,
{
    if n > i {
        lemma_items_err_stays(pairs, i, (n - 1) as nat);
    }
}

proof fn lemma_fields_err_stays(pairs: Vec<(Value, Value)>, i: nat, n: nat)
    requires
        0 < i <= n <= pairs@.len(),
        json_fields(pairs, i) is Err,
    ensures
        json_fields(pairs, n) == json_fields(pairs, i),
    decreases n - i,
{
    if n > i {
        lemma_fields_err_stays(pairs, i, (n - 1) as nat);
    }
}

proof fn lemma_sequence_from_bound(pairs: Seq<(Value, Value)>, i: nat)
    requires
        i >= 1,
    ensures
        crate::value::sequence_from(pairs, i).len() > 0 ==> i + crate::value::sequence_from(pairs, i).len() - 1
            <= 0x7fff_ffff_ffff_ffff,
    decreases pairs.len() + 1 - i,
{
    let s = crate::value::sequence_from(pairs, i);
    if s.len() > 0 {
        if i > 0x7fff_ffff_ffff_ffff {
            crate::value::lemma_lookup_int_big(pairs, i as int);
        }
        lemma_sequence_from_bound(pairs, i + 1);
    }
}

/// The JSON form of a script value (see `json_of`).
pub fn lua_to_json(v: &Value) -> (r: Result<Json, JsonError>)
    ensures
        json_result(r) == json_of(*v),
    decreases v,
{
    match v {
        Value::Nil => Ok(Json::Null),
        Value::Boolean(b) => Ok(Json::Bool(*b)),
        Value::Integer(i) => Ok(Json::Integer(*i)),
        Value::Number(t) => Ok(Json::Number(t.clone())),
        Value::Str(s) => Ok(Json::Str(s.clone())),
        Value::RawStr(_) => Err(JsonError::InvalidUtf8),
        Value::Table(pairs) => {
            let refs = sequence_refs(pairs);
            let n = refs.len();
            if n > 0 && n == pairs.len() {
                proof {
                    lemma_sequence_from_bound(pairs@, 1);
                }
                let mut items: Vec<Json> = Vec::new();
                let mut i: usize = 0;
                while i < n
                    invariant
                        n == sequence_values(pairs@).len(),
                        n == pairs@.len(),
                        n <= 0x7fff_ffff_ffff_ffff,
                        *v == Value::Table(*pairs),
                        i <= n,
                        items@.len() == i,
                        json_items(*pairs, i as nat) == Ok::<_, JsonError>(jview_items(items, i as nat)),
                    decreases n - i,
                {
                    let key: i64 = (i + 1) as i64;
                    let ghost old_items = items;
                    let j = match key_pos_exec(pairs, key) {
                        Some(k) => {
                            if k < pairs.len() {
                                match lua_to_json(&pairs[k].1) {
                                    Ok(j) => j,
                                    Err(e) => {
                                        proof {
                                            lemma_items_err_stays(*pairs, (i + 1) as nat, n as nat);
                                        }
                                        return Err(e);
                                    },
                                }
                            } else {
                                Json::Null
                            }
                        },
                        None => Json::Null,
                    };
                    items.push(j);
                    proof {
                        assert(items@.take(i as int) == old_items@.take(i as int));
                        lemma_jview_items_prefix(items, old_items, i as nat);
                        assert(items@[i as int] == j);
                    }
                    i = i + 1;
                }
                Ok(Json::Array(items))
            } else {
                let m = pairs.len();
                let mut fields: Vec<(String, Json)> = Vec::new();
                let mut k: usize = 0;
                while k < m
                    invariant
                        m == pairs@.len(),
                        *v == Value::Table(*pairs),
                        !(sequence_values(pairs@).len() > 0 && sequence_values(pairs@).len() == pairs@.len()),
                        k <= m,
                        json_fields(*pairs, k as nat) == Ok::<_, JsonError>(jview_fields(fields, fields@.len())),
                    decreases m - k,
                {
                    match &pairs[k].0 {
                        Value::Str(key) => {
                            match lua_to_json(&pairs[k].1) {
                                Ok(j) => {
                                    let ghost old_fields = fields;
                                    let len = fields.len();
                                    let kc = key.clone();
                                    let ghost jj = j;
                                    fields.push((kc, j));
                                    proof {
                                        assert(fields@.take(len as int) == old_fields@.take(len as int));
                                        assert(old_fields@.take(len as int) == old_fields@);
                                        lemma_jview_fields_prefix(fields, old_fields, len as nat);
                                        assert(fields@[len as int].0@ == key@ && fields@[len as int].1 == jj);
                                    }
                                },
                                Err(e) => {
                                    proof {
                                        lemma_fields_err_stays(*pairs, (k + 1) as nat, m as nat);
                                    }
                                    return Err(e);
                                },
                            }
                        },
                        Value::RawStr(_) => {
                            proof {
                                lemma_fields_err_stays(*pairs, (k + 1) as nat, m as nat);
                            }
                            return Err(JsonError::InvalidUtf8);
                        },
                        _ => {},
                    }
                    k = k + 1;
                }
                Ok(Json::Object(fields))
            }
        },
        _ => Err(JsonError::Unsupported),
    }
}

/// Whether `v` is the script value that a JSON value reads as: null is `nil`,
/// scalars map to themselves, an array is the table of its non-null items under
/// keys `1`, `2`, ... (by position), an object the table of its non-null fields
/// under their names, in order.
pub open spec fn lua_of(j: JsonModel, v: Value) -> bool
    decreases j, 0nat,
{
    match j {
        JsonModel::Null => v is Nil,
        JsonModel::Bool(b) => v == Value::Boolean(b),
        JsonModel::Integer(i) => v == Value::Integer(i),
        JsonModel::Number(t) => v matches Value::Number(s) && s@ == t,
        JsonModel::Str(t) => v matches Value::Str(s) && s@ == t,
        JsonModel::Array(items) => v matches Value::Table(pairs) && array_rel(pairs@, items, items.len()),
        JsonModel::Object(fields) => v matches Value::Table(pairs) && object_rel(pairs@, fields, fields.len()),
    }
}

/// The pairs hold the non-null items among the first `n`, each under its position.
pub open spec fn array_rel(pairs: Seq<(Value, Value)>, items: Seq<JsonModel>, n: nat) -> bool
    decreases items, n,
{
    if n == 0 || n > items.len() {
        pairs.len() == 0
    } else if items[n - 1] is Null {
        array_rel(pairs, items, (n - 1) as nat)
    } else {
        &&& pairs.len() > 0
        &&& is_int_key(pairs.last().0, n as int)
        &&& lua_of(items[n - 1], pairs.last().1)
        &&& array_rel(pairs.drop_last(), items, (n - 1) as nat)
    }
}

/// The pairs hold the non-null fields among the first `n`, each under its name.
pub open spec fn object_rel(pairs: Seq<(Value, Value)>, fields: Seq<(Seq<char>, JsonModel)>, n: nat) -> bool
    decreases fields, n,
{
    if n == 0 || n > fields.len() {
        pairs.len() == 0
    } else if fields[n - 1].1 is Null {
        object_rel(pairs, fields, (n - 1) as nat)
    } else {
        &&& pairs.len() > 0
        &&& pairs.last().0 matches Value::Str(s) && s@ == fields[n - 1].0
        &&& lua_of(fields[n - 1].1, pairs.last().1)
        &&& object_rel(pairs.drop_last(), fields, (n - 1) as nat)
    }
}

/// Every array in a JSON value is short enough for its positions to be script integers.
pub open spec fn positions_fit(j: JsonModel) -> bool
    decreases j, 0nat,
{
    match j {
        JsonModel::Array(items) => items.len() <= 0x7fff_ffff_ffff_ffff && items_fit(items, items.len()),
        JsonModel::Object(fields) => fields_fit(fields, fields.len()),
        _ => true,
    }
}

pub open spec fn items_fit(items: Seq<JsonModel>, n: nat) -> bool
    decreases items, n,
{
    if n == 0 || n > items.len() {
        true
    } else {
        positions_fit(items[n - 1]) && items_fit(items, (n - 1) as nat)
    }
}

pub open spec fn fields_fit(fields: Seq<(Seq<char>, JsonModel)>, n: nat) -> bool
    decreases fields, n,
{
    if n == 0 || n > fields.len() {
        true
    } else {
        positions_fit(fields[n - 1].1) && fields_fit(fields, (n - 1) as nat)
    }
}

proof fn lemma_jview_items_index(items: Vec<Json>, n: nat)
    requires
        n <= items@.len(),
    ensures
        jview_items(items, n).len() == n,
        forall|k: int| 0 <= k < n ==> #[trigger] jview_items(items, n)[k] == jview(items@[k]),
    decreases n,
{
    if n > 0 {
        lemma_jview_items_index(items, (n - 1) as nat);
    }
}

proof fn lemma_jview_fields_index(fields: Vec<(String, Json)>, n: nat)
    requires
        n <= fields@.len(),
    ensures
        jview_fields(fields, n).len() == n,
        forall|k: int| 0 <= k < n ==> #[trigger] jview_fields(fields, n)[k] == (fields@[k].0@, jview(fields@[k].1)),
    decreases n,
{
    if n > 0 {
        lemma_jview_fields_index(fields, (n - 1) as nat);
    }
}

proof fn lemma_items_fit(items: Seq<JsonModel>, n: nat, k: int)
    requires
        items_fit(items, n),
        0 <= k < n <= items.len(),
    ensures
        positions_fit(items[k]),
    decreases n,
{
    if k < n - 1 {
        lemma_items_fit(items, (n - 1) as nat, k);
    }
}

proof fn lemma_fields_fit(fields: Seq<(Seq<char>, JsonModel)>, n: nat, k: int)
    requires
        fields_fit(fields, n),
        0 <= k < n <= fields.len(),
    ensures
        positions_fit(fields[k].1),
    decreases n,
{
    if k < n - 1 {
        lemma_fields_fit(fields, (n - 1) as nat, k);
    }
}

proof fn lemma_items_fit_all(items: Seq<JsonModel>, n: nat)
    requires
        n <= items.len(),
        forall|k: int| 0 <= k < n ==> positions_fit(#[trigger] items[k]),
    ensures
        items_fit(items, n),
    decreases n,
{
    if n > 0 {
        lemma_items_fit_all(items, (n - 1) as nat);
    }
}

proof fn lemma_fields_fit_all(fields: Seq<(Seq<char>, JsonModel)>, n: nat)
    requires
        n <= fields.len(),
        forall|k: int| 0 <= k < n ==> positions_fit(#[trigger] fields[k].1),
    ensures
        fields_fit(fields, n),
    decreases n,
{
    if n > 0 {
        lemma_fields_fit_all(fields, (n - 1) as nat);
    }
}

/// Whether every array in `j` is short enough to convert (see `positions_fit`).
pub fn positions_fit_check(j: &Json) -> (r: bool)
    ensures
        r == positions_fit(jview(*j)),
    decreases j,
{
    match j {
        Json::Array(items) => {
            let n = items.len();
            proof {
                lemma_jview_items_index(*items, n as nat);
            }
            let ghost model = jview_items(*items, n as nat);
            if n as u64 > 0x7fff_ffff_ffff_ffffu64 {
                return false;
            }
            let mut k: usize = 0;
            while k < n
                invariant
                    n == items@.len(),
                    *j == Json::Array(*items),
                    k <= n,
                    model == jview_items(*items, n as nat),
                    model.len() == n,
                    forall|q: int| 0 <= q < n ==> #[trigger] model[q] == jview(items@[q]),
                    forall|q: int| 0 <= q < k ==> positions_fit(#[trigger] model[q]),
                decreases n - k,
            {
                assert((*j)->Array_0 == *items);
                assert(decreases_to!(*j => (*j)->Array_0));
                assert(decreases_to!(*items => items@));
                assert(decreases_to!(items@ => items@[k as int]));
                if !positions_fit_check(&items[k]) {
                    proof {
                        assert(!positions_fit(model[k as int]));
                        if items_fit(model, n as nat) {
                            lemma_items_fit(model, n as nat, k as int);
                        }
                    }
                    return false;
                }
                k = k + 1;
            }
            proof {
                lemma_items_fit_all(model, n as nat);
            }
            true
        },
        Json::Object(fields) => {
            let n = fields.len();
            proof {
                lemma_jview_fields_index(*fields, n as nat);
            }
            let ghost model = jview_fields(*fields, n as nat);
            let mut k: usize = 0;
            while k < n
                invariant
                    n == fields@.len(),
                    *j == Json::Object(*fields),
                    k <= n,
                    model == jview_fields(*fields, n as nat),
                    model.len() == n,
                    forall|q: int| 0 <= q < n ==> #[trigger] model[q] == (fields@[q].0@, jview(fields@[q].1)),
                    forall|q: int| 0 <= q < k ==> positions_fit(#[trigger] model[q].1),
                decreases n - k,
            {
                assert((*j)->Object_0 == *fields);
                assert(decreases_to!(*j => (*j)->Object_0));
                assert(decreases_to!(*fields => fields@));
                assert(decreases_to!(fields@ => fields@[k as int]));
                assert(decreases_to!(fields@[k as int] => fields@[k as int].1));
                if !positions_fit_check(&fields[k].1) {
                    proof {
                        assert(!positions_fit(model[k as int].1));
                        if fields_fit(model, n as nat) {
                            lemma_fields_fit(model, n as nat, k as int);
                        }
                    }
                    return false;
                }
                k = k + 1;
            }
            proof {
                lemma_fields_fit_all(model, n as nat);
            }
            true
        },
        _ => true,
    }
}

/// The script value a JSON value reads as (see `lua_of`).
pub fn json_to_lua(j: &Json) -> (v: Value)
    requires
        positions_fit(jview(*j)),
    ensures
        lua_of(jview(*j), v),
    decreases j,
{
    match j {
        Json::Null => Value::Nil,
        Json::Bool(b) => Value::Boolean(*b),
        Json::Integer(i) => Value::Integer(*i),
        Json::Number(t) => Value::Number(t.clone()),
        Json::Str(s) => Value::Str(s.clone()),
        Json::Array(items) => {
            let n = items.len();
            let ghost model = jview_items(*items, n as nat);
            proof {
                lemma_jview_items_index(*items, n as nat);
            }
            let mut pairs: Vec<(Value, Value)> = Vec::new();
            let mut k: usize = 0;
            while k < n
                invariant
                    n == items@.len(),
                    *j == Json::Array(*items),
                    n <= 0x7fff_ffff_ffff_ffff,
                    k <= n,
                    model == jview_items(*items, n as nat),
                    model.len() == n,
                    forall|q: int| 0 <= q < n ==> #[trigger] model[q] == jview(items@[q]),
                    items_fit(model, n as nat),
                    array_rel(pairs@, model, k as nat),
                decreases n - k,
            {
                match &items[k] {
                    Json::Null => {
                        assert(model[k as int] is Null);
                    },
                    _ => {
                        assert(!(model[k as int] is Null));
                        proof {
                            lemma_items_fit(model, n as nat, k as int);
                        }
                        assert((*j)->Array_0 == *items);
                        assert(decreases_to!(*j => (*j)->Array_0));
                        assert(decreases_to!(*items => items@));
                        assert(decreases_to!(items@ => items@[k as int]));
                        assert(decreases_to!(*j => items@[k as int]));
                        let x = json_to_lua(&items[k]);
                        let ghost before = pairs@;
                        pairs.push((Value::Integer((k + 1) as i64), x));
                        assert(pairs@.drop_last() == before);
                    },
                }
                k = k + 1;
            }
            Value::Table(pairs)
        },
        Json::Object(fields) => {
            let n = fields.len();
            let ghost model = jview_fields(*fields, n as nat);
            proof {
                lemma_jview_fields_index(*fields, n as nat);
            }
            let mut pairs: Vec<(Value, Value)> = Vec::new();
            let mut k: usize = 0;
            while k < n
                invariant
                    n == fields@.len(),
                    *j == Json::Object(*fields),
                    k <= n,
                    model == jview_fields(*fields, n as nat),
                    model.len() == n,
                    forall|q: int| 0 <= q < n ==> #[trigger] model[q] == (fields@[q].0@, jview(fields@[q].1)),
                    fields_fit(model, n as nat),
                    object_rel(pairs@, model, k as nat),
                decreases n - k,
            {
                match &fields[k].1 {
                    Json::Null => {
                        assert(model[k as int].1 is Null);
                    },
                    _ => {
                        assert(!(model[k as int].1 is Null));
                        proof {
                            lemma_fields_fit(model, n as nat, k as int);
                        }
                        assert((*j)->Object_0 == *fields);
                        assert(decreases_to!(*j => (*j)->Object_0));
                        assert(decreases_to!(*fields => fields@));
                        assert(decreases_to!(fields@ => fields@[k as int]));
                        assert(decreases_to!(fields@[k as int] => fields@[k as int].1));
                        assert(decreases_to!(*j => fields@[k as int].1));
                        let x = json_to_lua(&fields[k].1);
                        let ghost before = pairs@;
                        pairs.push((Value::Str(fields[k].0.clone()), x));
                        assert(pairs@.drop_last() == before);
                    },
                }
                k = k + 1;
            }
            Value::Table(pairs)
        },
    }
}

/// A JSON value that reads back unchanged: no null inside an array or object (a
/// script table cannot hold `nil`), and no empty array (an empty table reads as
/// an object).
pub open spec fn plain_json(j: JsonModel) -> bool
    decreases j, 0nat,
{
    match j {
        JsonModel::Array(items) => items.len() > 0 && plain_items(items, items.len()),
        JsonModel::Object(fields) => plain_fields(fields, fields.len()),
        _ => true,
    }
}

pub open spec fn plain_items(items: Seq<JsonModel>, n: nat) -> bool
    decreases items, n,
{
    if n == 0 || n > items.len() {
        true
    } else {
        !(items[n - 1] is Null) && plain_json(items[n - 1]) && plain_items(items, (n - 1) as nat)
    }
}

pub open spec fn plain_fields(fields: Seq<(Seq<char>, JsonModel)>, n: nat) -> bool
    decreases fields, n,
{
    if n == 0 || n > fields.len() {
        true
    } else {
        !(fields[n - 1].1 is Null) && plain_json(fields[n - 1].1) && plain_fields(fields, (n - 1) as nat)
    }
}

proof fn lemma_lookup_int_at(pairs: Seq<(Value, Value)>, i: int, k: int)
    requires
        0 <= k < pairs.len(),
        is_int_key(pairs[k].0, i),
        forall|q: int| 0 <= q < k ==> !is_int_key(#[trigger] pairs[q].0, i),
    ensures
        crate::value::lookup_int(pairs, i) == Some(pairs[k].1),
    decreases pairs.len(),
{
    if k > 0 {
        let t = pairs.drop_first();
        assert forall|q: int| 0 <= q < k - 1 implies !is_int_key(#[trigger] t[q].0, i) by {
            assert(t[q] == pairs[q + 1]);
        }
        lemma_lookup_int_at(t, i, k - 1);
    }
}

proof fn lemma_lookup_int_none(pairs: Seq<(Value, Value)>, i: int)
    requires
        forall|q: int| 0 <= q < pairs.len() ==> !is_int_key(#[trigger] pairs[q].0, i),
    ensures
        crate::value::lookup_int(pairs, i) is None,
    decreases pairs.len(),
{
    if pairs.len() > 0 {
        let t = pairs.drop_first();
        assert forall|q: int| 0 <= q < t.len() implies !is_int_key(#[trigger] t[q].0, i) by {
            assert(t[q] == pairs[q + 1]);
        }
        lemma_lookup_int_none(t, i);
    }
}

proof fn lemma_not_nil(j: JsonModel, v: Value)
    requires
        lua_of(j, v),
        !(j is Null),
    ensures
        !(v is Nil),
{
}

/// The pairs built for an array without nulls are its items under keys 1, 2, ...
proof fn lemma_array_shape(pairs: Seq<(Value, Value)>, items: Seq<JsonModel>, m: nat)
    requires
        m <= items.len(),
        plain_items(items, m),
        array_rel(pairs, items, m),
    ensures
        pairs.len() == m,
        forall|k: int| 0 <= k < m ==> is_int_key(#[trigger] pairs[k].0, k + 1) && lua_of(items[k], pairs[k].1),
    decreases m,
{
    if m > 0 {
        lemma_array_shape(pairs.drop_last(), items, (m - 1) as nat);
        assert forall|k: int| 0 <= k < m - 1 implies pairs[k] == pairs.drop_last()[k] by {}
    }
}

/// The pairs built for an object without nulls are its fields under their names.
proof fn lemma_object_shape(pairs: Seq<(Value, Value)>, fields: Seq<(Seq<char>, JsonModel)>, m: nat)
    requires
        m <= fields.len(),
        plain_fields(fields, m),
        object_rel(pairs, fields, m),
    ensures
        pairs.len() == m,
        forall|k: int|
            0 <= k < m ==> (#[trigger] pairs[k].0 matches Value::Str(s) && s@ == fields[k].0) && lua_of(
                fields[k].1,
                pairs[k].1,
            ),
    decreases m,
{
    if m > 0 {
        lemma_object_shape(pairs.drop_last(), fields, (m - 1) as nat);
        assert forall|k: int| 0 <= k < m - 1 implies pairs[k] == pairs.drop_last()[k] by {}
    }
}

proof fn lemma_plain_items_at(items: Seq<JsonModel>, n: nat, k: int)
    requires
        plain_items(items, n),
        0 <= k < n <= items.len(),
    ensures
        !(items[k] is Null) && plain_json(items[k]),
    decreases n,
{
    if k < n - 1 {
        lemma_plain_items_at(items, (n - 1) as nat, k);
    }
}

proof fn lemma_plain_fields_at(fields: Seq<(Seq<char>, JsonModel)>, n: nat, k: int)
    requires
        plain_fields(fields, n),
        0 <= k < n <= fields.len(),
    ensures
        !(fields[k].1 is Null) && plain_json(fields[k].1),
    decreases n,
{
    if k < n - 1 {
        lemma_plain_fields_at(fields, (n - 1) as nat, k);
    }
}

proof fn lemma_array_sequence(pairs: Seq<(Value, Value)>, items: Seq<JsonModel>, i: nat)
    requires
        1 <= i <= items.len() + 1,
        pairs.len() == items.len(),
        forall|k: int| 0 <= k < items.len() ==> is_int_key(#[trigger] pairs[k].0, k + 1) && lua_of(items[k], pairs[k].1),
        forall|k: int| 0 <= k < items.len() ==> !(#[trigger] items[k] is Null),
    ensures
        crate::value::sequence_from(pairs, i).len() == items.len() + 1 - i,
    decreases items.len() + 1 - i,
{
    if i <= items.len() {
        assert forall|q: int| 0 <= q < i - 1 implies !is_int_key(#[trigger] pairs[q].0, i as int) by {
            assert(is_int_key(pairs[q].0, q + 1));
        }
        lemma_lookup_int_at(pairs, i as int, i - 1);
        lemma_not_nil(items[i - 1], pairs[i - 1].1);
        lemma_array_sequence(pairs, items, i + 1);
    }
}

proof fn lemma_items_roundtrip(pairs: Vec<(Value, Value)>, items: Seq<JsonModel>, m: nat)
    requires
        m <= items.len(),
        pairs@.len() == items.len(),
        forall|k: int| 0 <= k < items.len() ==> is_int_key(#[trigger] pairs@[k].0, k + 1) && lua_of(items[k], pairs@[k].1),
        plain_items(items, items.len()),
    ensures
        json_items(pairs, m) == Ok::<_, JsonError>(items.take(m as int)),
    decreases items, m,
{
    if m > 0 {
        lemma_items_roundtrip(pairs, items, (m - 1) as nat);
        assert forall|q: int| 0 <= q < m - 1 implies !is_int_key(#[trigger] pairs@[q].0, m as int) by {
            assert(is_int_key(pairs@[q].0, q + 1));
        }
        lemma_key_pos_least(pairs@, m as int, m - 1);
        lemma_plain_items_at(items, items.len(), m - 1);
        lemma_roundtrip(items[m - 1], pairs@[m - 1].1);
        assert(key_pos(pairs@, m as int) == Some(m - 1));
        assert(json_of(pairs@[m - 1].1) == Ok::<_, JsonError>(items[m - 1]));
        assert(items.take(m as int) =~= items.take(m - 1).push(items[m - 1]));
    } else {
        assert(items.take(0) =~= Seq::<JsonModel>::empty());
    }
}

proof fn lemma_fields_roundtrip(pairs: Vec<(Value, Value)>, fields: Seq<(Seq<char>, JsonModel)>, m: nat)
    requires
        m <= fields.len(),
        pairs@.len() == fields.len(),
        forall|k: int|
            0 <= k < fields.len() ==> (#[trigger] pairs@[k].0 matches Value::Str(s) && s@ == fields[k].0) && lua_of(
                fields[k].1,
                pairs@[k].1,
            ),
        plain_fields(fields, fields.len()),
    ensures
        json_fields(pairs, m) == Ok::<_, JsonError>(fields.take(m as int)),
    decreases fields, m,
{
    if m > 0 {
        lemma_fields_roundtrip(pairs, fields, (m - 1) as nat);
        lemma_plain_fields_at(fields, fields.len(), m - 1);
        assert(pairs@[m - 1].0 matches Value::Str(s) && s@ == fields[m - 1].0);
        lemma_roundtrip(fields[m - 1].1, pairs@[m - 1].1);
        let key = pairs@[m - 1].0->Str_0;
        assert((key@, fields[m - 1].1) == fields[m - 1]);
        assert(fields.take(m as int) =~= fields.take(m - 1).push(fields[m - 1]));
    } else {
        assert(fields.take(0) =~= Seq::<(Seq<char>, JsonModel)>::empty());
    }
}

proof fn lemma_roundtrip(j: JsonModel, v: Value)
    requires
        plain_json(j),
        lua_of(j, v),
    ensures
        json_of(v) == Ok::<_, JsonError>(j),
    decreases j, 0nat,
{
    match j {
        JsonModel::Array(items) => {
            let pairs = v->Table_0;
            lemma_array_shape(pairs@, items, items.len());
            assert forall|k: int| 0 <= k < items.len() implies !(#[trigger] items[k] is Null) by {
                lemma_plain_items_at(items, items.len(), k);
            }
            lemma_array_sequence(pairs@, items, 1);
            lemma_items_roundtrip(pairs, items, items.len());
            assert(items.take(items.len() as int) == items);
        },
        JsonModel::Object(fields) => {
            let pairs = v->Table_0;
            lemma_object_shape(pairs@, fields, fields.len());
            assert forall|q: int| 0 <= q < pairs@.len() implies !is_int_key(#[trigger] pairs@[q].0, 1) by {
                assert(pairs@[q].0 matches Value::Str(_));
            }
            lemma_lookup_int_none(pairs@, 1);
            assert(sequence_values(pairs@).len() == 0);
            lemma_fields_roundtrip(pairs, fields, fields.len());
            assert(fields.take(fields.len() as int) == fields);
        },
        _ => {},
    }
}

/// A JSON value read into script values and converted back is unchanged, when it
/// holds no null inside arrays or objects and no empty array (see `plain_json`).
pub proof fn law_json_roundtrip(j: JsonModel, v: Value)
    requires
        plain_json(j),
        lua_of(j, v),
    ensures
        json_of(v) == Ok::<_, JsonError>(j),
{
    lemma_roundtrip(j, v);
}

} // verus!
