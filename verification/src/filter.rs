//! Payload filtering: a tree of predicates over a point's JSON payload.
//!
//! Equality predicates on a missing field are false, inequality true,
//! numeric comparisons false; numeric comparisons require the value to
//! coerce to a double.  Conjunction and disjunction short-circuit.

use vstd::prelude::*;
use crate::fbits::{f64_lt, f64_le, f64_bits_lt, f64_bits_le};
use crate::json::{
    JsonValue,
    spec_json_eq,
    spec_json_get,
    spec_json_as_f64_bits,
    spec_json_as_str,
};
use crate::point::Point;
use crate::tokenize::str_to_chars;

verus! {

/// A filter over points, with its meaning given by a spec predicate.
pub trait Filter {
    /// What the filter accepts.
    spec fn spec_matches(&self, point: Point) -> bool;

    /// Decide whether `point` passes.
    fn matches(&self, point: &Point) -> (r: bool)
        ensures
            r == self.spec_matches(*point),
    ;
}

/// One predicate over the payload.  Numeric thresholds are double-precision
/// bit patterns.
pub enum FilterCondition {
    Equals { field: String, value: JsonValue },
    NotEquals { field: String, value: JsonValue },
    GreaterThan { field: String, value: u64 },
    LessThan { field: String, value: u64 },
    GreaterEqual { field: String, value: u64 },
    LessEqual { field: String, value: u64 },
    Contains { field: String, value: String },
    And(Vec<FilterCondition>),
    Or(Vec<FilterCondition>),
    Not(Box<FilterCondition>),
}

/// The field a condition reads: a leading dot is stripped.
pub open spec fn spec_field_key(field: Seq<char>) -> Seq<char> {
    if field.len() > 0 && field[0] == '.' {
        field.skip(1)
    } else {
        field
    }
}

/// The payload value a condition reads, if any.
pub open spec fn spec_lookup(payload: Option<JsonValue>, field: Seq<char>) -> Option<JsonValue> {
    match payload {
        Some(p) => spec_json_get(p, spec_field_key(field)),
        None => None,
    }
}

/// Whether `needle` occurs as a contiguous run of characters in `hay`.
pub open spec fn spec_contains_sub(hay: Seq<char>, needle: Seq<char>) -> bool {
    exists|i: int|
        0 <= i <= hay.len() - needle.len() && #[trigger] hay.subrange(i, i + needle.len())
            == needle
}

/// What a condition means on a point.
pub open spec fn spec_condition_matches(cond: FilterCondition, point: Point) -> bool
    decreases cond,
{
    match cond {
        FilterCondition::Equals { field, value } => match spec_lookup(point.payload, field@) {
            Some(v) => spec_json_eq(v, value),
            None => false,
        },
        FilterCondition::NotEquals { field, value } => match spec_lookup(point.payload, field@) {
            Some(v) => !spec_json_eq(v, value),
            None => true,
        },
        FilterCondition::GreaterThan { field, value } => match spec_lookup(
            point.payload,
            field@,
        ) {
            Some(v) => match spec_json_as_f64_bits(v) {
                Some(b) => f64_lt(value, b),
                None => false,
            },
            None => false,
        },
        FilterCondition::LessThan { field, value } => match spec_lookup(point.payload, field@) {
            Some(v) => match spec_json_as_f64_bits(v) {
                Some(b) => f64_lt(b, value),
                None => false,
            },
            None => false,
        },
        FilterCondition::GreaterEqual { field, value } => match spec_lookup(
            point.payload,
            field@,
        ) {
            Some(v) => match spec_json_as_f64_bits(v) {
                Some(b) => f64_le(value, b),
                None => false,
            },
            None => false,
        },
        FilterCondition::LessEqual { field, value } => match spec_lookup(point.payload, field@) {
            Some(v) => match spec_json_as_f64_bits(v) {
                Some(b) => f64_le(b, value),
                None => false,
            },
            None => false,
        },
        FilterCondition::Contains { field, value } => match spec_lookup(point.payload, field@) {
            Some(v) => match spec_json_as_str(v) {
                Some(s) => spec_contains_sub(s, value@),
                None => false,
            },
            None => false,
        },
        FilterCondition::And(conds) => forall|i: int|
            0 <= i < conds@.len() ==> spec_condition_matches(#[trigger] conds@[i], point),
        FilterCondition::Or(conds) => exists|i: int|
            0 <= i < conds@.len() && spec_condition_matches(#[trigger] conds@[i], point),
        FilterCondition::Not(inner) => !spec_condition_matches(*inner, point),
    }
}

/// Whether `needle` occurs in `hay`, by character comparison.
pub fn contains_sub(hay: &str, needle: &str) -> (r: bool)
    ensures
        r == spec_contains_sub(hay@, needle@),
{
    let h = str_to_chars(hay);
    let n = str_to_chars(needle);
    let hn = h.len();
    let nn = n.len();
    if nn > hn {
        return false;
    }
    let mut i: usize = 0;
    while i <= hn - nn
        invariant
            h@ == hay@,
            n@ == needle@,
            hn == hay@.len(),
            nn == needle@.len(),
            nn <= hn,
            i <= hn - nn + 1,
            forall|k: int|
                0 <= k < i ==> #[trigger] hay@.subrange(k, k + needle@.len()) != needle@,
        decreases hn - nn + 1 - i,
    {
        let mut j: usize = 0;
        let mut ok = true;
        proof {
            assert(hay@.subrange(i as int, i as int) =~= needle@.subrange(0, 0));
        }
        while j < nn
            invariant
                h@ == hay@,
                n@ == needle@,
                hn == hay@.len(),
                nn == needle@.len(),
                i + nn <= hn,
                j <= nn,
                ok == (hay@.subrange(i as int, i + j as int) == needle@.subrange(0, j as int)),
            decreases nn - j,
        {
            let same = h[i + j] == n[j];
            proof {
                assert(hay@.subrange(i as int, i + j + 1).drop_last() =~= hay@.subrange(
                    i as int,
                    i + j as int,
                ));
                assert(needle@.subrange(0, j as int + 1).drop_last() =~= needle@.subrange(
                    0,
                    j as int,
                ));
                assert(hay@.subrange(i as int, i + j + 1).last() == hay@[i + j]);
                assert(needle@.subrange(0, j as int + 1).last() == needle@[j as int]);
                if ok && same {
                    assert(hay@.subrange(i as int, i + j + 1) =~= needle@.subrange(0, j as int + 1));
                } else {
                    assert(hay@.subrange(i as int, i + j + 1) != needle@.subrange(0, j as int + 1));
                }
            }
            ok = ok && same;
            j = j + 1;
        }
        if ok {
            proof {
                assert(needle@.subrange(0, nn as int) =~= needle@);
                assert(hay@.subrange(i as int, i + nn as int) == needle@);
            }
            return true;
        }
        proof {
            assert(needle@.subrange(0, nn as int) =~= needle@);
        }
        i = i + 1;
    }
    false
}

impl FilterCondition {
    /// Evaluate this condition on a point.
    pub fn matches_condition(&self, point: &Point) -> (r: bool)
        ensures
            r == spec_condition_matches(*self, *point),
        decreases *self,
    {
        match self {
            FilterCondition::Equals { field, value } => match lookup_field(point, field.as_str()) {
                Some(v) => v.json_eq(value),
                None => false,
            },
            FilterCondition::NotEquals { field, value } => match lookup_field(
                point,
                field.as_str(),
            ) {
                Some(v) => !v.json_eq(value),
                None => true,
            },
            FilterCondition::GreaterThan { field, value } => match lookup_field(
                point,
                field.as_str(),
            ) {
                Some(v) => match v.as_f64_bits() {
                    Some(b) => f64_bits_lt(*value, b),
                    None => false,
                },
                None => false,
            },
            FilterCondition::LessThan { field, value } => match lookup_field(
                point,
                field.as_str(),
            ) {
                Some(v) => match v.as_f64_bits() {
                    Some(b) => f64_bits_lt(b, *value),
                    None => false,
                },
                None => false,
            },
            FilterCondition::GreaterEqual { field, value } => match lookup_field(
                point,
                field.as_str(),
            ) {
                Some(v) => match v.as_f64_bits() {
                    Some(b) => f64_bits_le(*value, b),
                    None => false,
                },
                None => false,
            },
            FilterCondition::LessEqual { field, value } => match lookup_field(
                point,
                field.as_str(),
            ) {
                Some(v) => match v.as_f64_bits() {
                    Some(b) => f64_bits_le(b, *value),
                    None => false,
                },
                None => false,
            },
            FilterCondition::Contains { field, value } => match lookup_field(
                point,
                field.as_str(),
            ) {
                Some(v) => match v.as_str_value() {
                    Some(s) => contains_sub(s.as_str(), value.as_str()),
                    None => false,
                },
                None => false,
            },
            FilterCondition::And(conds) => {
                let n = conds.len();
                let mut i: usize = 0;
                while i < n
                    invariant
                        *self == FilterCondition::And(*conds),
                        i <= n == conds@.len(),
                        forall|k: int|
                            0 <= k < i ==> spec_condition_matches(#[trigger] conds@[k], *point),
                    decreases n - i,
                {
                    proof {
                        assert(decreases_to!(*self => self->And_0));
                        assert(decreases_to!(self->And_0 => self->And_0@));
                        assert(decreases_to!(self->And_0@ => conds@[i as int]));
                    }
                    if !conds[i].matches_condition(point) {
                        return false;
                    }
                    i = i + 1;
                }
                true
            },
            FilterCondition::Or(conds) => {
                let n = conds.len();
                let mut i: usize = 0;
                while i < n
                    invariant
                        *self == FilterCondition::Or(*conds),
                        i <= n == conds@.len(),
                        forall|k: int|
                            0 <= k < i ==> !spec_condition_matches(#[trigger] conds@[k], *point),
                    decreases n - i,
                {
                    proof {
                        assert(decreases_to!(*self => self->Or_0));
                        assert(decreases_to!(self->Or_0 => self->Or_0@));
                        assert(decreases_to!(self->Or_0@ => conds@[i as int]));
                    }
                    if conds[i].matches_condition(point) {
                        return true;
                    }
                    i = i + 1;
                }
                false
            },
            FilterCondition::Not(inner) => !inner.matches_condition(point),
        }
    }
}

/// Read the payload field a condition names, stripping a leading dot.
fn lookup_field<'a>(point: &'a Point, field: &str) -> (r: Option<&'a JsonValue>)
    ensures
        match r {
            Some(v) => spec_lookup(point.payload, field@) == Some(*v),
            None => spec_lookup(point.payload, field@) is None,
        },
{
    match &point.payload {
        Some(p) => {
            let chars = str_to_chars(field);
            if chars.len() > 0 && chars[0] == '.' {
                let mut rest: Vec<char> = Vec::new();
                let n = chars.len();
                let mut i: usize = 1;
                while i < n
                    invariant
                        1 <= i <= n == field@.len(),
                        chars@ == field@,
                        rest@ =~= field@.subrange(1, i as int),
                    decreases n - i,
                {
                    rest.push(chars[i]);
                    i = i + 1;
                }
                proof {
                    assert(rest@ =~= field@.skip(1));
                }
                let stripped = crate::text::chars_to_string(&rest);
                p.get(stripped.as_str())
            } else {
                p.get(field)
            }
        },
        None => None,
    }
}

/// A filter made of one condition tree.
pub struct PayloadFilter {
    condition: FilterCondition,
}

impl PayloadFilter {
    /// What the filter's condition tree means.
    pub closed spec fn spec_condition(&self) -> FilterCondition {
        self.condition
    }

    /// Wrap a condition tree.
    pub fn new(condition: FilterCondition) -> (r: PayloadFilter)
        ensures
            r.spec_condition() == condition,
    {
        PayloadFilter { condition }
    }
}

impl Filter for PayloadFilter {
    /// The filter accepts what its condition tree accepts.
    open spec fn spec_matches(&self, point: Point) -> bool {
        spec_condition_matches(self.spec_condition(), point)
    }

    fn matches(&self, point: &Point) -> (r: bool)
        ensures
            r == self.spec_matches(*point),
    {
        self.condition.matches_condition(point)
    }
}

} // verus!
