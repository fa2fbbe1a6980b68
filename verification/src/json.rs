//! JSON-like payload values.
//!
//! Payloads attached to points are arbitrary JSON.  This crate models them
//! with its own value type: numbers are split the way a JSON parser keeps
//! them (unsigned, negative, or double — the double carried as its bit
//! pattern), and objects are ordered key/value pair lists, kept in the
//! producer's iteration order with unique keys.

use vstd::prelude::*;
use crate::fbits::{f64_eq, f64_bits_eq};
use crate::fconv::{spec_f64_bits_of_u64, spec_f64_bits_of_i64, f64_bits_of_u64, f64_bits_of_i64};

verus! {

broadcast use vstd::std_specs::vec::axiom_vec_index_decreases;

#[derive(Debug)]
pub enum JsonValue {
    Null,
    Bool(bool),
    /// A negative integer (non-negative integers use `NumU`).
    NumI(i64),
    /// A non-negative integer.
    NumU(u64),
    /// A double-precision number, as its bit pattern.
    NumF(u64),
    Str(String),
    Array(Vec<JsonValue>),
    Object(Vec<(String, JsonValue)>),
}

/// JSON equality: numbers compare within their own category (doubles by
/// IEEE equality), arrays and objects element by element.
pub open spec fn spec_json_eq(a: JsonValue, b: JsonValue) -> bool
    decreases a,
{
    match (a, b) {
        (JsonValue::Null, JsonValue::Null) => true,
        (JsonValue::Bool(x), JsonValue::Bool(y)) => x == y,
        (JsonValue::NumI(x), JsonValue::NumI(y)) => x == y,
        (JsonValue::NumU(x), JsonValue::NumU(y)) => x == y,
        (JsonValue::NumF(x), JsonValue::NumF(y)) => f64_eq(x, y),
        (JsonValue::Str(x), JsonValue::Str(y)) => x@ == y@,
        (JsonValue::Array(x), JsonValue::Array(y)) => {
            &&& x@.len() == y@.len()
            &&& forall|i: int| 0 <= i < x@.len() ==> spec_json_eq(#[trigger] x@[i], y@[i])
        },
        (JsonValue::Object(x), JsonValue::Object(y)) => {
            &&& x@.len() == y@.len()
            &&& forall|i: int|
                0 <= i < x@.len() ==> (#[trigger] x@[i]).0@ == y@[i].0@ && spec_json_eq(
                    x@[i].1,
                    y@[i].1,
                )
        },
        _ => false,
    }
}

/// Structural identity of two values: the same shape with bit-identical
/// numbers and identical text.  (Unlike JSON equality, two NaN patterns are
/// identical to themselves.)
pub open spec fn spec_json_identical(a: JsonValue, b: JsonValue) -> bool
    decreases a,
{
    match (a, b) {
        (JsonValue::Null, JsonValue::Null) => true,
        (JsonValue::Bool(x), JsonValue::Bool(y)) => x == y,
        (JsonValue::NumI(x), JsonValue::NumI(y)) => x == y,
        (JsonValue::NumU(x), JsonValue::NumU(y)) => x == y,
        (JsonValue::NumF(x), JsonValue::NumF(y)) => x == y,
        (JsonValue::Str(x), JsonValue::Str(y)) => x@ == y@,
        (JsonValue::Array(x), JsonValue::Array(y)) => {
            &&& x@.len() == y@.len()
            &&& forall|i: int| 0 <= i < x@.len() ==> spec_json_identical(#[trigger] x@[i], y@[i])
        },
        (JsonValue::Object(x), JsonValue::Object(y)) => {
            &&& x@.len() == y@.len()
            &&& forall|i: int|
                0 <= i < x@.len() ==> (#[trigger] x@[i]).0@ == y@[i].0@ && spec_json_identical(
                    x@[i].1,
                    y@[i].1,
                )
        },
        _ => false,
    }
}

/// The value at the first pair whose key reads `f`, if any.
pub open spec fn spec_obj_get(pairs: Seq<(String, JsonValue)>, f: Seq<char>) -> Option<JsonValue>
    decreases pairs.len(),
{
    if pairs.len() == 0 {
        None
    } else if pairs[0].0@ == f {
        Some(pairs[0].1)
    } else {
        spec_obj_get(pairs.skip(1), f)
    }
}

/// Field lookup: objects yield the named field, everything else nothing.
pub open spec fn spec_json_get(v: JsonValue, f: Seq<char>) -> Option<JsonValue> {
    match v {
        JsonValue::Object(pairs) => spec_obj_get(pairs@, f),
        _ => None,
    }
}

/// The double-precision pattern a number coerces to: integers rounded as by
/// an `as f64` cast, doubles as they are; non-numbers coerce to nothing.
pub open spec fn spec_json_as_f64_bits(v: JsonValue) -> Option<u64> {
    match v {
        JsonValue::NumI(i) => Some(spec_f64_bits_of_i64(i) as u64),
        JsonValue::NumU(u) => Some(spec_f64_bits_of_u64(u) as u64),
        JsonValue::NumF(b) => Some(b),
        _ => None,
    }
}

/// The unsigned value behind a non-negative integer JSON number.
pub open spec fn spec_json_as_u64(v: JsonValue) -> Option<u64> {
    match v {
        JsonValue::NumU(u) => Some(u),
        _ => None,
    }
}

/// The text behind a string value.
pub open spec fn spec_json_as_str(v: JsonValue) -> Option<Seq<char>> {
    match v {
        JsonValue::Str(s) => Some(s@),
        _ => None,
    }
}

/// Whether two strings hold the same text.
pub fn str_eq(a: &str, b: &str) -> (r: bool)
    ensures
        r == (a@ == b@),
{
    let sa: String = a.to_owned();
    let sb: String = b.to_owned();
    sa == sb
}

impl JsonValue {
    /// JSON equality with `other`.
    pub fn json_eq(&self, other: &JsonValue) -> (r: bool)
        ensures
            r == spec_json_eq(*self, *other),
        decreases *self,
    {
        match (self, other) {
            (JsonValue::Null, JsonValue::Null) => true,
            (JsonValue::Bool(x), JsonValue::Bool(y)) => *x == *y,
            (JsonValue::NumI(x), JsonValue::NumI(y)) => *x == *y,
            (JsonValue::NumU(x), JsonValue::NumU(y)) => *x == *y,
            (JsonValue::NumF(x), JsonValue::NumF(y)) => f64_bits_eq(*x, *y),
            (JsonValue::Str(x), JsonValue::Str(y)) => str_eq(x.as_str(), y.as_str()),
            (JsonValue::Array(x), JsonValue::Array(y)) => {
                if x.len() != y.len() {
                    return false;
                }
                let mut i: usize = 0;
                while i < x.len()
                    invariant
                        *self == JsonValue::Array(*x),
                        *other == JsonValue::Array(*y),
                        i <= x@.len() == y@.len(),
                        forall|k: int| 0 <= k < i ==> spec_json_eq(#[trigger] x@[k], y@[k]),
                    decreases x@.len() - i,
                {
                    proof {
                        assert(decreases_to!(*self => self->Array_0));
                        assert(decreases_to!(self->Array_0 => self->Array_0@));
                        assert(decreases_to!(self->Array_0@ => x@[i as int]));
                    }
                    if !x[i].json_eq(&y[i]) {
                        return false;
                    }
                    i = i + 1;
                }
                true
            },
            (JsonValue::Object(x), JsonValue::Object(y)) => {
                if x.len() != y.len() {
                    return false;
                }
                let mut i: usize = 0;
                while i < x.len()
                    invariant
                        *self == JsonValue::Object(*x),
                        *other == JsonValue::Object(*y),
                        i <= x@.len() == y@.len(),
                        forall|k: int|
                            0 <= k < i ==> (#[trigger] x@[k]).0@ == y@[k].0@ && spec_json_eq(
                                x@[k].1,
                                y@[k].1,
                            ),
                    decreases x@.len() - i,
                {
                    if !str_eq(x[i].0.as_str(), y[i].0.as_str()) {
                        return false;
                    }
                    proof {
                        assert(decreases_to!(*self => self->Object_0));
                        assert(decreases_to!(self->Object_0 => self->Object_0@));
                        assert(decreases_to!(self->Object_0@ => x@[i as int]));
                        assert(decreases_to!(x@[i as int] => x@[i as int].1));
                    }
                    if !x[i].1.json_eq(&y[i].1) {
                        return false;
                    }
                    i = i + 1;
                }
                true
            },
            _ => false,
        }
    }

    /// Look a field up on an object value.
    pub fn get<'a>(&'a self, field: &str) -> (r: Option<&'a JsonValue>)
        ensures
            match r {
                Some(v) => spec_json_get(*self, field@) == Some(*v),
                None => spec_json_get(*self, field@) is None,
            },
    {
        match self {
            JsonValue::Object(pairs) => {
                let n = pairs.len();
                let mut i: usize = 0;
                proof {
                    assert(pairs@.skip(0) =~= pairs@);
                }
                while i < n
                    invariant
                        *self == JsonValue::Object(*pairs),
                        i <= n == pairs@.len(),
                        spec_obj_get(pairs@, field@) == spec_obj_get(pairs@.skip(i as int), field@),
                    decreases n - i,
                {
                    if str_eq(pairs[i].0.as_str(), field) {
                        proof {
                            assert(pairs@.skip(i as int)[0] == pairs@[i as int]);
                            assert(spec_obj_get(pairs@.skip(i as int), field@) == Some(
                                pairs@[i as int].1,
                            ));
                            assert(spec_json_get(*self, field@) == spec_obj_get(pairs@, field@));
                        }
                        return Some(&pairs[i].1);
                    }
                    proof {
                        assert(pairs@.skip(i as int).skip(1) =~= pairs@.skip(i as int + 1));
                        assert(pairs@.skip(i as int)[0] == pairs@[i as int]);
                    }
                    i = i + 1;
                }
                proof {
                    assert(pairs@.skip(n as int).len() == 0);
                }
                None
            },
            _ => None,
        }
    }

    /// The double-precision pattern this value coerces to, as `as_f64` on a
    /// parsed JSON number: integers are rounded, doubles pass through.
    pub fn as_f64_bits(&self) -> (r: Option<u64>)
        ensures
            r == spec_json_as_f64_bits(*self),
    {
        match self {
            JsonValue::NumI(i) => Some(f64_bits_of_i64(*i)),
            JsonValue::NumU(u) => Some(f64_bits_of_u64(*u)),
            JsonValue::NumF(b) => Some(*b),
            _ => None,
        }
    }

    /// The unsigned value behind a non-negative integer number.
    pub fn as_u64(&self) -> (r: Option<u64>)
        ensures
            r == spec_json_as_u64(*self),
    {
        match self {
            JsonValue::NumU(u) => Some(*u),
            _ => None,
        }
    }

    /// The text behind a string value.
    pub fn as_str_value<'a>(&'a self) -> (r: Option<&'a String>)
        ensures
            match r {
                Some(s) => spec_json_as_str(*self) == Some(s@),
                None => spec_json_as_str(*self) is None,
            },
    {
        match self {
            JsonValue::Str(s) => Some(s),
            _ => None,
        }
    }
}

/// Looking a key up after appending a pair: the old result wins, the new
/// pair answers only what was previously missing.
pub proof fn lemma_obj_get_push(pairs: Seq<(String, JsonValue)>, e: (String, JsonValue), f: Seq<char>)
    ensures
        spec_obj_get(pairs.push(e), f) == (match spec_obj_get(pairs, f) {
            Some(v) => Some(v),
            None => if e.0@ == f {
                Some(e.1)
            } else {
                None
            },
        }),
    decreases pairs.len(),
{
    if pairs.len() == 0 {
        assert(pairs.push(e)[0] == e);
        assert(pairs.push(e).skip(1) =~= Seq::<(String, JsonValue)>::empty());
        assert(spec_obj_get(pairs.push(e), f) == (if e.0@ == f {
            Some(e.1)
        } else {
            spec_obj_get(pairs.push(e).skip(1), f)
        }));
    } else {
        assert(pairs.push(e)[0] == pairs[0]);
        assert(pairs.push(e).skip(1) =~= pairs.skip(1).push(e));
        lemma_obj_get_push(pairs.skip(1), e, f);
        assert(spec_obj_get(pairs.push(e), f) == (if pairs[0].0@ == f {
            Some(pairs[0].1)
        } else {
            spec_obj_get(pairs.push(e).skip(1), f)
        }));
        assert(spec_obj_get(pairs, f) == (if pairs[0].0@ == f {
            Some(pairs[0].1)
        } else {
            spec_obj_get(pairs.skip(1), f)
        }));
    }
}

/// The pairs with the first pair keyed `k` dropped.
pub open spec fn spec_obj_remove_first(pairs: Seq<(String, JsonValue)>, k: Seq<char>) -> Seq<
    (String, JsonValue),
>
    decreases pairs.len(),
{
    if pairs.len() == 0 {
        Seq::empty()
    } else if pairs[0].0@ == k {
        pairs.skip(1)
    } else {
        seq![pairs[0]] + spec_obj_remove_first(pairs.skip(1), k)
    }
}

/// When the first pair keyed `k` stands at `idx`, dropping it is removing
/// that index.
pub proof fn lemma_obj_remove_first_at(pairs: Seq<(String, JsonValue)>, k: Seq<char>, idx: int)
    requires
        0 <= idx < pairs.len(),
        pairs[idx].0@ == k,
        forall|j: int| 0 <= j < idx ==> (#[trigger] pairs[j]).0@ != k,
    ensures
        spec_obj_remove_first(pairs, k) == pairs.remove(idx),
    decreases pairs.len(),
{
    if idx == 0 {
        assert(pairs.skip(1) =~= pairs.remove(0));
    } else {
        assert(forall|j: int| 0 <= j < idx - 1 ==> (#[trigger] pairs.skip(1)[j]).0@ != k);
        assert(pairs.skip(1)[idx - 1] == pairs[idx]);
        lemma_obj_remove_first_at(pairs.skip(1), k, idx - 1);
        assert(seq![pairs[0]] + pairs.skip(1).remove(idx - 1) =~= pairs.remove(idx));
    }
}

/// When no pair carries `k`, dropping it changes nothing.
pub proof fn lemma_obj_remove_first_absent(pairs: Seq<(String, JsonValue)>, k: Seq<char>)
    requires
        forall|j: int| 0 <= j < pairs.len() ==> (#[trigger] pairs[j]).0@ != k,
    ensures
        spec_obj_remove_first(pairs, k) == pairs,
    decreases pairs.len(),
{
    if pairs.len() > 0 {
        assert(forall|j: int|
            0 <= j < pairs.skip(1).len() ==> (#[trigger] pairs.skip(1)[j]).0@ != k);
        lemma_obj_remove_first_absent(pairs.skip(1), k);
        assert(seq![pairs[0]] + pairs.skip(1) =~= pairs);
    }
}

/// When no pair carries `f`, looking `f` up answers nothing.
pub proof fn lemma_obj_get_absent(pairs: Seq<(String, JsonValue)>, f: Seq<char>)
    requires
        forall|j: int| 0 <= j < pairs.len() ==> (#[trigger] pairs[j]).0@ != f,
    ensures
        spec_obj_get(pairs, f) is None,
    decreases pairs.len(),
{
    if pairs.len() > 0 {
        assert(forall|j: int|
            0 <= j < pairs.skip(1).len() ==> (#[trigger] pairs.skip(1)[j]).0@ != f);
        lemma_obj_get_absent(pairs.skip(1), f);
    }
}

/// Dropping the first pair keyed `k` leaves every other key's lookup
/// unchanged.
pub proof fn lemma_obj_remove_first_get(pairs: Seq<(String, JsonValue)>, k: Seq<char>, f: Seq<char>)
    requires
        f != k,
    ensures
        spec_obj_get(spec_obj_remove_first(pairs, k), f) == spec_obj_get(pairs, f),
    decreases pairs.len(),
{
    let out = spec_obj_remove_first(pairs, k);
    if pairs.len() == 0 {
    } else if pairs[0].0@ == k {
        assert(out =~= pairs.skip(1));
    } else {
        assert(out[0] == pairs[0]);
        assert(out.skip(1) =~= spec_obj_remove_first(pairs.skip(1), k));
        lemma_obj_remove_first_get(pairs.skip(1), k, f);
        assert(spec_obj_get(out, f) == (if pairs[0].0@ == f {
            Some(pairs[0].1)
        } else {
            spec_obj_get(out.skip(1), f)
        }));
        assert(spec_obj_get(pairs, f) == (if pairs[0].0@ == f {
            Some(pairs[0].1)
        } else {
            spec_obj_get(pairs.skip(1), f)
        }));
    }
}

/// When the first pair keyed `key` stands at `idx`, storing `v` rewrites
/// that index.
pub proof fn lemma_obj_set_first_at(
    pairs: Seq<(String, JsonValue)>,
    key: String,
    v: JsonValue,
    idx: int,
)
    requires
        0 <= idx < pairs.len(),
        pairs[idx].0@ == key@,
        forall|j: int| 0 <= j < idx ==> (#[trigger] pairs[j]).0@ != key@,
    ensures
        spec_obj_set_first(pairs, key, v) == pairs.update(idx, (pairs[idx].0, v)),
    decreases pairs.len(),
{
    if idx == 0 {
        assert(seq![(pairs[0].0, v)] + pairs.skip(1) =~= pairs.update(0, (pairs[0].0, v)));
    } else {
        assert(forall|j: int| 0 <= j < idx - 1 ==> (#[trigger] pairs.skip(1)[j]).0@ != key@);
        assert(pairs.skip(1)[idx - 1] == pairs[idx]);
        lemma_obj_set_first_at(pairs.skip(1), key, v, idx - 1);
        assert(seq![pairs[0]] + pairs.skip(1).update(idx - 1, (pairs[idx].0, v)) =~= pairs.update(
            idx,
            (pairs[idx].0, v),
        ));
    }
}

/// When no pair carries `key`, storing `v` appends the pair.
pub proof fn lemma_obj_set_first_absent(pairs: Seq<(String, JsonValue)>, key: String, v: JsonValue)
    requires
        forall|j: int| 0 <= j < pairs.len() ==> (#[trigger] pairs[j]).0@ != key@,
    ensures
        spec_obj_set_first(pairs, key, v) == pairs.push((key, v)),
    decreases pairs.len(),
{
    if pairs.len() == 0 {
        assert(seq![(key, v)] =~= pairs.push((key, v)));
    } else {
        assert(forall|j: int|
            0 <= j < pairs.skip(1).len() ==> (#[trigger] pairs.skip(1)[j]).0@ != key@);
        lemma_obj_set_first_absent(pairs.skip(1), key, v);
        assert(seq![pairs[0]] + pairs.skip(1).push((key, v)) =~= pairs.push((key, v)));
    }
}

/// The pairs with the first pair keyed `k` rewritten to `v`, or `(key, v)`
/// appended when no pair carries `k`.
pub open spec fn spec_obj_set_first(
    pairs: Seq<(String, JsonValue)>,
    key: String,
    v: JsonValue,
) -> Seq<(String, JsonValue)>
    decreases pairs.len(),
{
    if pairs.len() == 0 {
        seq![(key, v)]
    } else if pairs[0].0@ == key@ {
        seq![(pairs[0].0, v)] + pairs.skip(1)
    } else {
        seq![pairs[0]] + spec_obj_set_first(pairs.skip(1), key, v)
    }
}

/// After storing `v` under `key`, that key looks up to `v` and every other
/// lookup is unchanged.
pub proof fn lemma_obj_set_first_get(
    pairs: Seq<(String, JsonValue)>,
    key: String,
    v: JsonValue,
    f: Seq<char>,
)
    ensures
        spec_obj_get(spec_obj_set_first(pairs, key, v), f) == (if f == key@ {
            Some(v)
        } else {
            spec_obj_get(pairs, f)
        }),
    decreases pairs.len(),
{
    let out = spec_obj_set_first(pairs, key, v);
    if pairs.len() == 0 {
        assert(out[0] == (key, v));
        assert(out.skip(1) =~= Seq::<(String, JsonValue)>::empty());
        assert(spec_obj_get(out, f) == (if key@ == f {
            Some(v)
        } else {
            spec_obj_get(out.skip(1), f)
        }));
    } else if pairs[0].0@ == key@ {
        assert(out[0] == (pairs[0].0, v));
        assert(out.skip(1) =~= pairs.skip(1));
        assert(spec_obj_get(out, f) == (if pairs[0].0@ == f {
            Some(v)
        } else {
            spec_obj_get(out.skip(1), f)
        }));
        assert(spec_obj_get(pairs, f) == (if pairs[0].0@ == f {
            Some(pairs[0].1)
        } else {
            spec_obj_get(pairs.skip(1), f)
        }));
    } else {
        assert(out[0] == pairs[0]);
        assert(out.skip(1) =~= spec_obj_set_first(pairs.skip(1), key, v));
        lemma_obj_set_first_get(pairs.skip(1), key, v, f);
        assert(spec_obj_get(out, f) == (if pairs[0].0@ == f {
            Some(pairs[0].1)
        } else {
            spec_obj_get(out.skip(1), f)
        }));
        assert(spec_obj_get(pairs, f) == (if pairs[0].0@ == f {
            Some(pairs[0].1)
        } else {
            spec_obj_get(pairs.skip(1), f)
        }));
    }
}

/// The pairs of a merge: each new pair stored in order, first occurrences
/// rewritten in place, fresh keys appended.
pub open spec fn spec_obj_merge(
    pairs: Seq<(String, JsonValue)>,
    news: Seq<(String, JsonValue)>,
) -> Seq<(String, JsonValue)>
    decreases news.len(),
{
    if news.len() == 0 {
        pairs
    } else {
        spec_obj_set_first(spec_obj_merge(pairs, news.drop_last()), news.last().0, news.last().1)
    }
}

/// The value at the last pair whose key reads `f`, if any.
pub open spec fn spec_obj_get_rev(pairs: Seq<(String, JsonValue)>, f: Seq<char>) -> Option<
    JsonValue,
>
    decreases pairs.len(),
{
    if pairs.len() == 0 {
        None
    } else if pairs.last().0@ == f {
        Some(pairs.last().1)
    } else {
        spec_obj_get_rev(pairs.drop_last(), f)
    }
}

/// What a merge answers: the new pairs win (their last occurrence), the old
/// pairs answer the rest.
pub proof fn lemma_obj_merge_get(
    pairs: Seq<(String, JsonValue)>,
    news: Seq<(String, JsonValue)>,
    f: Seq<char>,
)
    ensures
        spec_obj_get(spec_obj_merge(pairs, news), f) == (match spec_obj_get_rev(news, f) {
            Some(v) => Some(v),
            None => spec_obj_get(pairs, f),
        }),
    decreases news.len(),
{
    if news.len() > 0 {
        lemma_obj_merge_get(pairs, news.drop_last(), f);
        lemma_obj_set_first_get(
            spec_obj_merge(pairs, news.drop_last()),
            news.last().0,
            news.last().1,
            f,
        );
    }
}

/// Pointwise identical pair lists answer every lookup identically.
pub proof fn lemma_obj_get_identical(
    a: Seq<(String, JsonValue)>,
    b: Seq<(String, JsonValue)>,
    f: Seq<char>,
)
    requires
        a.len() == b.len(),
        forall|i: int|
            0 <= i < a.len() ==> (#[trigger] a[i]).0@ == b[i].0@ && spec_json_identical(
                a[i].1,
                b[i].1,
            ),
    ensures
        match (spec_obj_get(a, f), spec_obj_get(b, f)) {
            (Some(x), Some(y)) => spec_json_identical(x, y),
            (None, None) => true,
            _ => false,
        },
    decreases a.len(),
{
    if a.len() > 0 {
        assert(forall|i: int|
            0 <= i < a.skip(1).len() ==> (#[trigger] a.skip(1)[i]).0@ == b.skip(1)[i].0@
                && spec_json_identical(a.skip(1)[i].1, b.skip(1)[i].1));
        lemma_obj_get_identical(a.skip(1), b.skip(1), f);
        assert(a[0].0@ == b[0].0@ && spec_json_identical(a[0].1, b[0].1));
    }
}

/// Store `v` under `key` in an object's pair list: the first pair with
/// that key is rewritten in place, otherwise the pair is appended.
pub fn obj_set_pair(pairs: &mut Vec<(String, JsonValue)>, key: String, v: JsonValue)
    ensures
        final(pairs)@ == spec_obj_set_first(old(pairs)@, key, v),
{
    let n = pairs.len();
    let mut i: usize = 0;
    while i < n
        invariant
            i <= n == pairs@.len(),
            *pairs == *old(pairs),
            forall|j: int| 0 <= j < i ==> (#[trigger] pairs@[j]).0@ != key@,
        decreases n - i,
    {
        if str_eq(pairs[i].0.as_str(), key.as_str()) {
            let k0 = pairs[i].0.clone();
            proof {
                lemma_obj_set_first_at(pairs@, key, v, i as int);
                assert(k0 == pairs@[i as int].0);
            }
            pairs.set(i, (k0, v));
            return ;
        }
        i = i + 1;
    }
    proof {
        lemma_obj_set_first_absent(pairs@, key, v);
    }
    pairs.push((key, v));
}

/// Drop the first pair keyed `key` from an object's pair list, if any.
pub fn obj_remove_pair(pairs: &mut Vec<(String, JsonValue)>, key: &str)
    ensures
        final(pairs)@ == spec_obj_remove_first(old(pairs)@, key@),
{
    let n = pairs.len();
    let mut i: usize = 0;
    while i < n
        invariant
            i <= n == pairs@.len(),
            *pairs == *old(pairs),
            forall|j: int| 0 <= j < i ==> (#[trigger] pairs@[j]).0@ != key@,
        decreases n - i,
    {
        if str_eq(pairs[i].0.as_str(), key) {
            proof {
                lemma_obj_remove_first_at(pairs@, key@, i as int);
            }
            let _ = pairs.remove(i);
            return ;
        }
        i = i + 1;
    }
    proof {
        lemma_obj_remove_first_absent(pairs@, key@);
    }
}

/// Structural identity is reflexive.
pub proof fn lemma_json_identical_reflexive(v: JsonValue)
    ensures
        spec_json_identical(v, v),
    decreases v,
{
    match v {
        JsonValue::Array(items) => {
            assert forall|i: int| 0 <= i < items@.len() implies spec_json_identical(
                #[trigger] items@[i],
                items@[i],
            ) by {
                lemma_json_identical_reflexive(items@[i]);
            }
        },
        JsonValue::Object(pairs) => {
            assert forall|i: int| 0 <= i < pairs@.len() implies (#[trigger] pairs@[i]).0@
                == pairs@[i].0@ && spec_json_identical(pairs@[i].1, pairs@[i].1) by {
                lemma_json_identical_reflexive(pairs@[i].1);
            }
        },
        _ => {},
    }
}

impl Clone for JsonValue {
    /// A deep copy, structurally identical to the original.
    fn clone(&self) -> (r: Self)
        ensures
            spec_json_identical(r, *self),
        decreases *self,
    {
        match self {
            JsonValue::Null => JsonValue::Null,
            JsonValue::Bool(b) => JsonValue::Bool(*b),
            JsonValue::NumI(i) => JsonValue::NumI(*i),
            JsonValue::NumU(u) => JsonValue::NumU(*u),
            JsonValue::NumF(f) => JsonValue::NumF(*f),
            JsonValue::Str(s) => JsonValue::Str(s.clone()),
            JsonValue::Array(items) => {
                let n = items.len();
                let mut out: Vec<JsonValue> = Vec::new();
                let mut i: usize = 0;
                while i < n
                    invariant
                        *self == JsonValue::Array(*items),
                        i <= n == items@.len(),
                        out@.len() == i,
                        forall|k: int|
                            0 <= k < i ==> spec_json_identical(#[trigger] out@[k], items@[k]),
                    decreases n - i,
                {
                    proof {
                        assert(decreases_to!(*self => self->Array_0));
                        assert(decreases_to!(self->Array_0 => self->Array_0@));
                        assert(decreases_to!(self->Array_0@ => items@[i as int]));
                    }
                    out.push(items[i].clone());
                    i = i + 1;
                }
                JsonValue::Array(out)
            },
            JsonValue::Object(pairs) => {
                let n = pairs.len();
                let mut out: Vec<(String, JsonValue)> = Vec::new();
                let mut i: usize = 0;
                while i < n
                    invariant
                        *self == JsonValue::Object(*pairs),
                        i <= n == pairs@.len(),
                        out@.len() == i,
                        forall|k: int|
                            0 <= k < i ==> (#[trigger] out@[k]).0@ == pairs@[k].0@
                                && spec_json_identical(out@[k].1, pairs@[k].1),
                    decreases n - i,
                {
                    proof {
                        assert(decreases_to!(*self => self->Object_0));
                        assert(decreases_to!(self->Object_0 => self->Object_0@));
                        assert(decreases_to!(self->Object_0@ => pairs@[i as int]));
                        assert(decreases_to!(pairs@[i as int] => pairs@[i as int].1));
                    }
                    let key = pairs[i].0.clone();
                    let val = pairs[i].1.clone();
                    out.push((key, val));
                    i = i + 1;
                }
                JsonValue::Object(out)
            },
        }
    }
}

} // verus!
