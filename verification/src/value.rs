use vstd::prelude::*;

verus! {

/// A runtime value as the scripting layer hands it to the library.
///
/// Tables keep their key/value pairs in the order the runtime walks them.
/// A float is carried by the decimal text the runtime renders for it.
#[derive(Debug, PartialEq)]
pub enum Value {
    Nil,
    Boolean(bool),
    Integer(i64),
    /// A floating-point number, by the text the runtime displays for it.
    Number(String),
    /// A string whose bytes are valid UTF-8.
    Str(String),
    /// A string whose bytes are not valid UTF-8.
    RawStr(Vec<u8>),
    /// A table, by its key/value pairs in iteration order.
    Table(Vec<(Value, Value)>),
    /// A function, by an opaque handle of the runtime.
    Function(u64),
    /// Any other runtime value (userdata, threads, ...).
    Other,
}

/// How deeply tables nest inside a value (0 for a value that is no table).
pub open spec fn value_depth(v: Value) -> nat
    decreases v, 0nat,
{
    match v {
        Value::Table(pairs) => 1 + pairs_depth(pairs, pairs@.len()),
        _ => 0,
    }
}

/// The greatest depth among the values of the first `n` pairs.
pub open spec fn pairs_depth(pairs: Vec<(Value, Value)>, n: nat) -> nat
    decreases pairs, n,
{
    if n == 0 || n > pairs@.len() {
        0
    } else {
        let prev = pairs_depth(pairs, (n - 1) as nat);
        let here = value_depth(pairs@[n - 1].1);
        if prev >= here {
            prev
        } else {
            here
        }
    }
}

pub proof fn lemma_pairs_depth_bound(pairs: Vec<(Value, Value)>, n: nat, j: int)
    requires
        0 <= j < n <= pairs@.len(),
    ensures
        value_depth(pairs@[j].1) <= pairs_depth(pairs, n),
    decreases n,
{
    if j < n - 1 {
        lemma_pairs_depth_bound(pairs, (n - 1) as nat, j);
    }
}


/// The pairs' depth is within `limit` exactly when each value's depth is.
proof fn lemma_pairs_depth_within(pairs: Vec<(Value, Value)>, n: nat, limit: nat)
    requires
        n <= pairs@.len(),
    ensures
        pairs_depth(pairs, n) <= limit <==> forall|j: int| 0 <= j < n ==> value_depth(#[trigger] pairs@[j].1) <= limit,
    decreases n,
{
    if n > 0 {
        lemma_pairs_depth_within(pairs, (n - 1) as nat, limit);
        if pairs_depth(pairs, n) <= limit {
            assert forall|j: int| 0 <= j < n implies value_depth(#[trigger] pairs@[j].1) <= limit by {
                lemma_pairs_depth_bound(pairs, n, j);
            }
        }
    }
}

/// Whether tables nest at most `limit` deep in `v`.
pub fn depth_within(v: &Value, limit: usize) -> (r: bool)
    ensures
        r == (value_depth(*v) <= limit),
    decreases v,
{
    match v {
        Value::Table(pairs) => {
            if limit == 0 {
                return false;
            }
            let n = pairs.len();
            let mut i: usize = 0;
            while i < n
                invariant
                    n == pairs@.len(),
                    i <= n,
                    limit > 0,
                    *v == Value::Table(*pairs),
                    forall|j: int| 0 <= j < i ==> value_depth(#[trigger] pairs@[j].1) <= limit - 1,
                decreases n - i,
            {
                assert(decreases_to!(*v => (*v)->Table_0));
                assert(decreases_to!(*pairs => pairs@));
                assert(decreases_to!(pairs@ => pairs@[i as int]));
                assert(decreases_to!(pairs@[i as int] => pairs@[i as int].1));
                if !depth_within(&pairs[i].1, limit - 1) {
                    proof {
                        lemma_pairs_depth_within(*pairs, n as nat, (limit - 1) as nat);
                    }
                    return false;
                }
                i = i + 1;
            }
            proof {
                lemma_pairs_depth_within(*pairs, n as nat, (limit - 1) as nat);
            }
            true
        },
        _ => true,
    }
}

/// Whether a table key is the integer `i`.
pub open spec fn is_int_key(k: Value, i: int) -> bool {
    k matches Value::Integer(j) && j == i
}

/// Whether a table key is the string `name`.
pub open spec fn is_str_key(k: Value, name: Seq<char>) -> bool {
    k matches Value::Str(s) && s@ == name
}

/// The value stored under the integer key `i` (the first such pair), if any.
pub open spec fn lookup_int(pairs: Seq<(Value, Value)>, i: int) -> Option<Value>
    decreases pairs.len(),
{
    if pairs.len() == 0 {
        None
    } else if is_int_key(pairs[0].0, i) {
        Some(pairs[0].1)
    } else {
        lookup_int(pairs.drop_first(), i)
    }
}

/// The value stored under the string key `name` (the first such pair), if any.
pub open spec fn lookup_str(pairs: Seq<(Value, Value)>, name: Seq<char>) -> Option<Value>
    decreases pairs.len(),
{
    if pairs.len() == 0 {
        None
    } else if is_str_key(pairs[0].0, name) {
        Some(pairs[0].1)
    } else {
        lookup_str(pairs.drop_first(), name)
    }
}

/// Whether a lookup found a value other than `nil`.
pub open spec fn present(v: Option<Value>) -> bool {
    v matches Some(x) && !(x is Nil)
}

/// The values under the keys `i`, `i + 1`, ... up to the first key that holds no
/// value (`nil` counts as none): the array part a table walk by index reads.
/// A table holds each key once, so no more keys than pairs are looked at.
pub open spec fn sequence_from(pairs: Seq<(Value, Value)>, i: nat) -> Seq<Value>
    decreases pairs.len() + 1 - i,
{
    if i == 0 || i > pairs.len() || !present(lookup_int(pairs, i as int)) {
        Seq::empty()
    } else {
        seq![lookup_int(pairs, i as int).unwrap()] + sequence_from(pairs, i + 1)
    }
}

/// The array part of a table: the values under keys `1`, `2`, ... (see `sequence_from`).
pub open spec fn sequence_values(pairs: Seq<(Value, Value)>) -> Seq<Value> {
    sequence_from(pairs, 1)
}

/// The value under the integer key `i`, if any.
pub fn lookup_int_exec(pairs: &Vec<(Value, Value)>, i: i64) -> (r: Option<&Value>)
    ensures
        r matches Some(v) ==> lookup_int(pairs@, i as int) == Some(*v),
        r is None ==> lookup_int(pairs@, i as int) is None,
{
    let n = pairs.len();
    let mut j: usize = 0;
    assert(pairs@.skip(0) == pairs@);
    while j < n
        invariant
            n == pairs@.len(),
            j <= n,
            lookup_int(pairs@, i as int) == lookup_int(pairs@.skip(j as int), i as int),
        decreases n - j,
    {
        assert(pairs@.skip(j as int)[0] == pairs@[j as int]);
        assert(pairs@.skip(j as int).drop_first() == pairs@.skip(j + 1));
        match &pairs[j].0 {
            Value::Integer(k) => {
                if *k == i {
                    return Some(&pairs[j].1);
                }
            },
            _ => {},
        }
        j = j + 1;
    }
    None
}

/// The value under the string key `name`, if any.
pub fn lookup_str_exec<'a>(pairs: &'a Vec<(Value, Value)>, name: &str) -> (r: Option<&'a Value>)
    ensures
        r matches Some(v) ==> lookup_str(pairs@, name@) == Some(*v),
        r is None ==> lookup_str(pairs@, name@) is None,
{
    let n = pairs.len();
    let mut j: usize = 0;
    assert(pairs@.skip(0) == pairs@);
    while j < n
        invariant
            n == pairs@.len(),
            j <= n,
            lookup_str(pairs@, name@) == lookup_str(pairs@.skip(j as int), name@),
        decreases n - j,
    {
        assert(pairs@.skip(j as int)[0] == pairs@[j as int]);
        assert(pairs@.skip(j as int).drop_first() == pairs@.skip(j + 1));
        match &pairs[j].0 {
            Value::Str(k) => {
                if crate::text::same_text(k.as_str(), name) {
                    return Some(&pairs[j].1);
                }
            },
            _ => {},
        }
        j = j + 1;
    }
    None
}

pub proof fn lemma_lookup_int_big(pairs: Seq<(Value, Value)>, i: int)
    requires
        i > 0x7fff_ffff_ffff_ffff,
    ensures
        lookup_int(pairs, i) is None,
    decreases pairs.len(),
{
    if pairs.len() > 0 {
        lemma_lookup_int_big(pairs.drop_first(), i);
    }
}

/// The array part of a table (see `sequence_values`), by reference.
pub fn sequence_refs(pairs: &Vec<(Value, Value)>) -> (r: Vec<&Value>)
    ensures
        r@.len() == sequence_values(pairs@).len(),
        forall|k: int| 0 <= k < r@.len() ==> *r@[k] == sequence_values(pairs@)[k],
{
    let n = pairs.len();
    let mut r: Vec<&Value> = Vec::new();
    let mut i: usize = 0;
    while i < n
        invariant_except_break
            n == pairs@.len(),
            i <= n,
            r@.len() == i,
            sequence_values(pairs@) == Seq::new(r@.len(), |k: int| *r@[k]) + sequence_from(
                pairs@,
                (i + 1) as nat,
            ),
        ensures
            sequence_values(pairs@) == Seq::new(r@.len(), |k: int| *r@[k]),
        decreases n - i,
    {
        let ghost before = Seq::new(r@.len(), |k: int| *r@[k]);
        if i as u64 >= 0x7fff_ffff_ffff_ffffu64 {
            proof {
                lemma_lookup_int_big(pairs@, i + 1);
            }
            assert(sequence_from(pairs@, (i + 1) as nat) == Seq::<Value>::empty());
            assert(before + Seq::<Value>::empty() == before);
            break;
        }
        let key: i64 = (i + 1) as i64;
        let found = lookup_int_exec(pairs, key);
        match found {
            Some(v) => {
                match v {
                    Value::Nil => {
                        assert(sequence_from(pairs@, (i + 1) as nat) == Seq::<Value>::empty());
                        assert(before + Seq::<Value>::empty() == before);
                        break;
                    },
                    _ => {},
                }
                r.push(v);
                assert(Seq::new(r@.len(), |k: int| *r@[k]) == before.push(*v));
                assert(before + sequence_from(pairs@, (i + 1) as nat) == before.push(*v)
                    + sequence_from(pairs@, (i + 2) as nat));
            },
            None => {
                assert(sequence_from(pairs@, (i + 1) as nat) == Seq::<Value>::empty());
                assert(before + Seq::<Value>::empty() == before);
                break;
            },
        }
        i = i + 1;
        proof {
            if i == n {
                let b = Seq::new(r@.len(), |k: int| *r@[k]);
                assert(sequence_from(pairs@, (n + 1) as nat) == Seq::<Value>::empty());
                assert(b + Seq::<Value>::empty() == b);
            }
        }
    }
    r
}

} // verus!
