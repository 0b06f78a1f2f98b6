//! Decoded JSON, and the names that occur in it.

use crate::search::{first_where, first_where_absent, first_where_found, first_where_meets};
use crate::table::Table;
use crate::text::{
    is_digit, is_numeral, join, numeral_grows, numeral_value, refusal, same_text,
};
use vstd::prelude::*;
use vstd::string::*;

verus! {

/// A decoded JSON value; a number by its text.
#[derive(Debug)]
pub enum Json {
    Null,
    Bool(bool),
    Number(String),
    Text(String),
    Array(Vec<Json>),
    Object(Vec<(String, Json)>),
}

/// What holds of a member of a name.
pub open spec fn is_named(name: Seq<char>) -> spec_fn((String, Json)) -> bool {
    |member: (String, Json)| member.0@ == name
}

/// Where a member of an object stands.
pub open spec fn member_at(members: Seq<(String, Json)>, name: Seq<char>) -> Option<int> {
    first_where(members, is_named(name))
}

/// The text that a member of an object is.
pub open spec fn text_member(members: Seq<(String, Json)>, name: Seq<char>) -> Option<Seq<char>> {
    match member_at(members, name) {
        Some(at) => match members[at].1 {
            Json::Text(text) => Some(text@),
            _ => None,
        },
        None => None,
    }
}

/// The text that a member of an object is.
pub fn text_of_member<'a>(members: &'a Vec<(String, Json)>, name: &str) -> (text: Option<&'a str>)
    ensures
        match text {
            Some(text) => text_member(members@, name@) == Some(text@),
            None => text_member(members@, name@) is None,
        },
{
    let ghost wanted = is_named(name@);
    let mut i: usize = 0;
    while i < members.len()
        invariant
            i <= members@.len(),
            wanted == is_named(name@),
            forall|j: int| 0 <= j < i ==> !wanted(#[trigger] members@[j]),
        decreases members@.len() - i,
    {
        if same_text(members[i].0.as_str(), name) {
            proof {
                first_where_found(members@, wanted, i as int);
            }
            return match &members[i].1 {
                Json::Text(text) => Some(text.as_str()),
                _ => None,
            };
        }
        i = i + 1;
    }
    proof {
        first_where_absent(members@, wanted);
    }
    None
}

/// A member of a value, where the value is an object and has it.
pub open spec fn member(value: Json, name: Seq<char>) -> Option<Json> {
    match value {
        Json::Object(members) => match member_at(members@, name) {
            Some(at) => Some(members@[at].1),
            None => None,
        },
        _ => None,
    }
}

/// A member of a value, where the value is an object and has it.
pub fn find_member<'a>(value: &'a Json, name: &str) -> (found: Option<&'a Json>)
    ensures
        match found {
            Some(found) => member(*value, name@) == Some(*found),
            None => member(*value, name@) is None,
        },
{
    let members = match value {
        Json::Object(members) => members,
        _ => {
            return None;
        },
    };
    let ghost wanted = is_named(name@);
    let mut i: usize = 0;
    while i < members.len()
        invariant
            i <= members@.len(),
            *value == Json::Object(*members),
            wanted == is_named(name@),
            forall|j: int| 0 <= j < i ==> !wanted(#[trigger] members@[j]),
        decreases members@.len() - i,
    {
        if same_text(members[i].0.as_str(), name) {
            proof {
                first_where_found(members@, wanted, i as int);
            }
            return Some(&members[i].1);
        }
        i = i + 1;
    }
    proof {
        first_where_absent(members@, wanted);
    }
    None
}

/// The text of a member of a value.
pub open spec fn member_text(value: Json, name: Seq<char>) -> Option<Seq<char>> {
    match member(value, name) {
        Some(Json::Text(text)) => Some(text@),
        _ => None,
    }
}

/// The text of a member of a value.
pub fn find_text<'a>(value: &'a Json, name: &str) -> (text: Option<&'a str>)
    ensures
        match text {
            Some(text) => member_text(*value, name@) == Some(text@),
            None => member_text(*value, name@) is None,
        },
{
    match find_member(value, name) {
        Some(Json::Text(text)) => Some(text.as_str()),
        _ => None,
    }
}

/// The integer that the text of a number is, if it is one and fits.
pub open spec fn integer_of(text: Seq<char>) -> Option<int> {
    let negative = text.len() > 0 && text[0] == '-';
    let digits = if negative {
        text.skip(1)
    } else {
        text
    };
    if digits.len() == 0 || !is_numeral(digits) {
        None
    } else if negative && numeral_value(digits) <= 0x8000_0000_0000_0000 {
        Some(-numeral_value(digits))
    } else if !negative && numeral_value(digits) <= i64::MAX {
        Some(numeral_value(digits) as int)
    } else {
        None
    }
}

fn parse_integer(text: &str) -> (value: Option<i64>)
    ensures
        match value {
            Some(value) => integer_of(text@) == Some(value as int),
            None => integer_of(text@) is None,
        },
{
    let to: usize = text.unicode_len();
    let negative: bool = to > 0 && text.get_char(0) == '-';
    let start: usize = if negative {
        1
    } else {
        0
    };
    let ghost digits = text@.skip(start as int);
    assert(!negative ==> digits =~= text@);
    if start == to {
        return None;
    }
    let mut total: u64 = 0;
    let mut i: usize = start;
    assert(digits.take(0) =~= Seq::empty());
    while i < to
        invariant
            start <= i <= to,
            start < to,
            to == text@.len(),
            digits == text@.skip(start as int),
            negative == (text@.len() > 0 && text@[0] == '-'),
            start == (if negative {
                1int
            } else {
                0int
            }),
            !negative ==> digits == text@,
            is_numeral(digits.take(i - start)),
            total == numeral_value(digits.take(i - start)),
            total <= 0x8000_0000_0000_0000,
        decreases to - i,
    {
        let c: char = text.get_char(i);
        assert(c == digits[i - start]);
        if c < '0' || c > '9' {
            assert(!is_digit(digits[i - start]));
            return None;
        }
        let ghost before = digits.take(i - start);
        let ghost after = digits.take(i + 1 - start);
        assert(after.drop_last() =~= before);
        assert(after.last() == c);
        proof {
            assert forall|j: int| 0 <= j < after.len() implies is_digit(#[trigger] after[j]) by {
                if j < before.len() {
                    assert(after[j] == before[j]);
                }
            }
            numeral_grows(digits, i + 1 - start);
        }
        let step: u64 = (c as u32 - '0' as u32) as u64;
        let next: u128 = total as u128 * 10 + step as u128;
        assert(next == numeral_value(after));
        if next > 0x8000_0000_0000_0000u128 {
            return None;
        }
        total = next as u64;
        i = i + 1;
    }
    assert(digits.take(i - start) =~= digits);
    if negative {
        let value: i128 = -(total as i128);
        Some(value as i64)
    } else if total <= i64::MAX as u64 {
        Some(total as i64)
    } else {
        None
    }
}

/// The integer that a member of a declaration is.
pub open spec fn member_integer(declared: Json, name: Seq<char>) -> Option<int> {
    match member(declared, name) {
        Some(Json::Number(text)) => integer_of(text@),
        _ => None,
    }
}

/// The integer that a member of a value is.
pub fn find_integer(value: &Json, name: &str) -> (found: Option<i64>)
    ensures
        match found {
            Some(found) => member_integer(*value, name@) == Some(found as int),
            None => member_integer(*value, name@) is None,
        },
{
    match find_member(value, name) {
        Some(Json::Number(text)) => parse_integer(text.as_str()),
        _ => None,
    }
}

/// Whether a member of a value is a flag that is set.
pub open spec fn member_set(value: Json, name: Seq<char>) -> bool {
    member(value, name) == Some(Json::Bool(true))
}

/// Whether a member of a value is a flag that is set.
pub fn is_set(value: &Json, name: &str) -> (set: bool)
    ensures
        set == member_set(*value, name@),
{
    match find_member(value, name) {
        Some(Json::Bool(flag)) => *flag,
        _ => false,
    }
}

/// The member of a name among members.
pub open spec fn among(members: Seq<(String, Json)>, name: Seq<char>) -> Option<Json> {
    match member_at(members, name) {
        Some(at) => Some(members[at].1),
        None => None,
    }
}

proof fn replaced_member(
    before: Seq<(String, Json)>,
    after: Seq<(String, Json)>,
    at: int,
    name: Seq<char>,
    value: Json,
    other: Seq<char>,
)
    requires
        member_at(before, name) == Some(at),
        after.len() == before.len(),
        after[at].0@ == name,
        after[at].1 == value,
        forall|j: int| 0 <= j < before.len() && j != at ==> after[j] == #[trigger] before[j],
    ensures
        among(after, other) == (if other == name {
            Some(value)
        } else {
            among(before, other)
        }),
{
    first_where_meets(before, is_named(name));
    first_where_meets(before, is_named(other));
    if other == name {
        assert forall|j: int| 0 <= j < at implies !is_named(name)(#[trigger] after[j]) by {
            assert(after[j] == before[j]);
        }
        first_where_found(after, is_named(name), at);
    } else {
        match member_at(before, other) {
            Some(k) => {
                assert(is_named(other)(before[k]));
                assert forall|j: int| 0 <= j < k implies !is_named(other)(#[trigger] after[j]) by {
                    assert(!is_named(other)(before[j]));
                }
                first_where_found(after, is_named(other), k);
            },
            None => {
                assert forall|j: int| 0 <= j < after.len() implies !is_named(other)(
                    #[trigger] after[j],
                ) by {
                    assert(!is_named(other)(before[j]));
                }
                first_where_absent(after, is_named(other));
            },
        }
    }
}

proof fn added_member(
    before: Seq<(String, Json)>,
    added: (String, Json),
    other: Seq<char>,
)
    requires
        member_at(before, added.0@) is None,
    ensures
        among(before.push(added), other) == (if other == added.0@ {
            Some(added.1)
        } else {
            among(before, other)
        }),
{
    let after = before.push(added);
    first_where_meets(before, is_named(added.0@));
    first_where_meets(before, is_named(other));
    if other == added.0@ {
        assert forall|j: int| 0 <= j < before.len() implies !is_named(other)(
            #[trigger] after[j],
        ) by {
            assert(after[j] == before[j]);
        }
        first_where_found(after, is_named(other), before.len() as int);
    } else {
        match member_at(before, other) {
            Some(k) => {
                assert forall|j: int| 0 <= j < k implies !is_named(other)(#[trigger] after[j]) by {
                    assert(after[j] == before[j]);
                }
                first_where_found(after, is_named(other), k);
            },
            None => {
                assert forall|j: int| 0 <= j < after.len() implies !is_named(other)(
                    #[trigger] after[j],
                ) by {
                    if j < before.len() {
                        assert(after[j] == before[j]);
                    }
                }
                first_where_absent(after, is_named(other));
            },
        }
    }
}

/// Sets a member among members, and leaves the others alone.
pub fn set_member(members: &mut Vec<(String, Json)>, name: &str, value: Json)
    ensures
        forall|other: Seq<char>| #[trigger]
            among(final(members)@, other) == (if other == name@ {
                Some(value)
            } else {
                among(old(members)@, other)
            }),
{
    let ghost before = members@;
    let ghost wanted = is_named(name@);
    let mut i: usize = 0;
    while i < members.len()
        invariant
            i <= members@.len(),
            members@ == before,
            before == old(members)@,
            wanted == is_named(name@),
            forall|j: int| 0 <= j < i ==> !wanted(#[trigger] members@[j]),
        decreases members@.len() - i,
    {
        if same_text(members[i].0.as_str(), name) {
            proof {
                first_where_found(before, wanted, i as int);
            }
            members.set(i, (name.to_owned(), value));
            proof {
                assert forall|other: Seq<char>| #[trigger]
                    among(members@, other) == (if other == name@ {
                        Some(value)
                    } else {
                        among(before, other)
                    }) by {
                    replaced_member(before, members@, i as int, name@, value, other);
                }
            }
            return ;
        }
        i = i + 1;
    }
    proof {
        first_where_absent(before, wanted);
    }
    let added = (name.to_owned(), value);
    proof {
        assert forall|other: Seq<char>| #[trigger]
            among(before.push(added), other) == (if other == name@ {
                Some(value)
            } else {
                among(before, other)
            }) by {
            added_member(before, added, other);
        }
    }
    members.push(added);
}

/// Whether two values are one, member for member and in the same order.
pub open spec fn identical(a: Json, b: Json) -> bool
    decreases a,
{
    match (a, b) {
        (Json::Null, Json::Null) => true,
        (Json::Bool(x), Json::Bool(y)) => x == y,
        (Json::Number(x), Json::Number(y)) => x@ == y@,
        (Json::Text(x), Json::Text(y)) => x@ == y@,
        (Json::Array(xs), Json::Array(ys)) => {
            &&& xs@.len() == ys@.len()
            &&& forall|i: int| 0 <= i < xs@.len() ==> identical(#[trigger] xs@[i], ys@[i])
        },
        (Json::Object(xs), Json::Object(ys)) => {
            &&& xs@.len() == ys@.len()
            &&& forall|i: int|
                0 <= i < xs@.len() ==> (#[trigger] xs@[i]).0@ == ys@[i].0@ && identical(
                    xs@[i].1,
                    ys@[i].1,
                )
        },
        _ => false,
    }
}

/// Whether a number is the fraction zero, whatever its sign.
pub open spec fn is_zero_fraction(text: Seq<char>) -> bool {
    text == "0.0"@ || text == "-0.0"@
}

/// Whether two numbers are equal. The text of a number is the only one of its value, but for the
/// two signs of the fraction zero; a whole number is no fraction.
pub open spec fn equal_numbers(a: Seq<char>, b: Seq<char>) -> bool {
    a == b || is_zero_fraction(a) && is_zero_fraction(b)
}

/// Whether a member is the first of its name.
pub open spec fn is_first(members: Seq<(String, Json)>, i: int) -> bool {
    member_at(members, members[i].0@) == Some(i)
}

/// Whether two values are equal. The order of members is of no account.
pub open spec fn equal(a: Json, b: Json) -> bool
    decreases a,
{
    match (a, b) {
        (Json::Null, Json::Null) => true,
        (Json::Bool(x), Json::Bool(y)) => x == y,
        (Json::Number(x), Json::Number(y)) => equal_numbers(x@, y@),
        (Json::Text(x), Json::Text(y)) => x@ == y@,
        (Json::Array(xs), Json::Array(ys)) => {
            &&& xs@.len() == ys@.len()
            &&& forall|i: int| 0 <= i < xs@.len() ==> equal(#[trigger] xs@[i], ys@[i])
        },
        (Json::Object(xs), Json::Object(ys)) => {
            &&& forall|i: int|
                0 <= i < xs@.len() && #[trigger] is_first(xs@, i) ==> (match member_at(
                    ys@,
                    xs@[i].0@,
                ) {
                    Some(j) => equal(xs@[i].1, ys@[j].1),
                    None => false,
                })
            &&& forall|j: int|
                0 <= j < ys@.len() ==> member_at(xs@, (#[trigger] ys@[j]).0@) is Some
        },
        _ => false,
    }
}

fn place_of(members: &Vec<(String, Json)>, name: &str) -> (at: Option<usize>)
    ensures
        match at {
            Some(at) => at < members@.len() && member_at(members@, name@) == Some(at as int),
            None => member_at(members@, name@) is None,
        },
{
    let ghost wanted = is_named(name@);
    let mut i: usize = 0;
    while i < members.len()
        invariant
            i <= members@.len(),
            wanted == is_named(name@),
            forall|j: int| 0 <= j < i ==> !wanted(#[trigger] members@[j]),
        decreases members@.len() - i,
    {
        if same_text(members[i].0.as_str(), name) {
            proof {
                first_where_found(members@, wanted, i as int);
            }
            return Some(i);
        }
        i = i + 1;
    }
    proof {
        first_where_absent(members@, wanted);
    }
    None
}

fn covers_names(xs: &Vec<(String, Json)>, ys: &Vec<(String, Json)>) -> (covered: bool)
    ensures
        covered == (forall|j: int|
            0 <= j < ys@.len() ==> member_at(xs@, (#[trigger] ys@[j]).0@) is Some),
{
    let mut i: usize = 0;
    while i < ys.len()
        invariant
            i <= ys@.len(),
            forall|j: int| 0 <= j < i ==> member_at(xs@, (#[trigger] ys@[j]).0@) is Some,
        decreases ys@.len() - i,
    {
        if place_of(xs, ys[i].0.as_str()).is_none() {
            assert(member_at(xs@, ys@[i as int].0@) is None);
            return false;
        }
        i = i + 1;
    }
    true
}

fn zero_fraction(text: &str) -> (zero: bool)
    ensures
        zero == is_zero_fraction(text@),
{
    same_text(text, "0.0") || same_text(text, "-0.0")
}

/// Whether two values are equal.
pub fn same(a: &Json, b: &Json) -> (same_value: bool)
    ensures
        same_value == equal(*a, *b),
    decreases *a,
{
    match (a, b) {
        (Json::Null, Json::Null) => true,
        (Json::Bool(x), Json::Bool(y)) => *x == *y,
        (Json::Number(x), Json::Number(y)) => same_text(x.as_str(), y.as_str()) || (zero_fraction(
            x.as_str(),
        ) && zero_fraction(y.as_str())),
        (Json::Text(x), Json::Text(y)) => same_text(x.as_str(), y.as_str()),
        (Json::Array(xs), Json::Array(ys)) => {
            if xs.len() != ys.len() {
                return false;
            }
            let mut i: usize = 0;
            while i < xs.len()
                invariant
                    i <= xs@.len(),
                    xs@.len() == ys@.len(),
                    *a == Json::Array(*xs),
                    *b == Json::Array(*ys),
                    forall|j: int| 0 <= j < i ==> equal(#[trigger] xs@[j], ys@[j]),
                decreases xs@.len() - i,
            {
                proof {
                    assert(decreases_to!(*a => a->Array_0));
                    assert(decreases_to!(*xs => xs@));
                    assert(decreases_to!(xs@ => xs@[i as int]));
                }
                if !same(&xs[i], &ys[i]) {
                    assert(!equal(xs@[i as int], ys@[i as int]));
                    return false;
                }
                i = i + 1;
            }
            true
        },
        (Json::Object(xs), Json::Object(ys)) => {
            if !covers_names(xs, ys) {
                return false;
            }
            let mut i: usize = 0;
            while i < xs.len()
                invariant
                    i <= xs@.len(),
                    *a == Json::Object(*xs),
                    *b == Json::Object(*ys),
                    forall|j: int|
                        0 <= j < i && #[trigger] is_first(xs@, j) ==> (match member_at(
                            ys@,
                            xs@[j].0@,
                        ) {
                            Some(k) => equal(xs@[j].1, ys@[k].1),
                            None => false,
                        }),
                decreases xs@.len() - i,
            {
                let first: bool = match place_of(xs, xs[i].0.as_str()) {
                    Some(at) => at == i,
                    None => false,
                };
                assert(first == is_first(xs@, i as int));
                if first {
                    let there: usize = match place_of(ys, xs[i].0.as_str()) {
                        Some(there) => there,
                        None => {
                            return false;
                        },
                    };
                    proof {
                        assert(decreases_to!(*a => a->Object_0));
                        assert(decreases_to!(*xs => xs@));
                        assert(decreases_to!(xs@ => xs@[i as int]));
                        assert(decreases_to!(xs@[i as int] => xs@[i as int].1));
                    }
                    if !same(&xs[i].1, &ys[there].1) {
                        return false;
                    }
                }
                i = i + 1;
            }
            true
        },
        _ => false,
    }
}

/// A copy of a value.
pub fn copied(value: &Json) -> (copy: Json)
    ensures
        identical(copy, *value),
    decreases *value,
{
    match value {
        Json::Null => Json::Null,
        Json::Bool(held) => Json::Bool(*held),
        Json::Number(text) => Json::Number(text.clone()),
        Json::Text(text) => Json::Text(text.clone()),
        Json::Array(values) => {
            let mut copies: Vec<Json> = Vec::new();
            let mut i: usize = 0;
            while i < values.len()
                invariant
                    i <= values@.len(),
                    *value == Json::Array(*values),
                    copies@.len() == i,
                    forall|j: int| 0 <= j < i ==> identical(#[trigger] copies@[j], values@[j]),
                decreases values@.len() - i,
            {
                proof {
                    assert(decreases_to!(*value => value->Array_0));
                    assert(decreases_to!(*values => values@));
                    assert(decreases_to!(values@ => values@[i as int]));
                }
                copies.push(copied(&values[i]));
                i = i + 1;
            }
            Json::Array(copies)
        },
        Json::Object(members) => {
            let mut copies: Vec<(String, Json)> = Vec::new();
            let mut i: usize = 0;
            while i < members.len()
                invariant
                    i <= members@.len(),
                    *value == Json::Object(*members),
                    copies@.len() == i,
                    forall|j: int|
                        0 <= j < i ==> (#[trigger] copies@[j]).0@ == members@[j].0@ && identical(
                            copies@[j].1,
                            members@[j].1,
                        ),
                decreases members@.len() - i,
            {
                proof {
                    assert(decreases_to!(*value => value->Object_0));
                    assert(decreases_to!(*members => members@));
                    assert(decreases_to!(members@ => members@[i as int]));
                    assert(decreases_to!(members@[i as int] => members@[i as int].1));
                }
                copies.push((members[i].0.clone(), copied(&members[i].1)));
                i = i + 1;
            }
            Json::Object(copies)
        },
    }
}

/// Whether a text occurs as a value anywhere.
pub open spec fn holds_text(value: Json, text: Seq<char>) -> bool
    decreases value,
{
    match value {
        Json::Text(found) => found@ == text,
        Json::Array(values) => exists|i: int|
            0 <= i < values@.len() && holds_text(#[trigger] values@[i], text),
        Json::Object(members) => exists|i: int|
            0 <= i < members@.len() && holds_text((#[trigger] members@[i]).1, text),
        _ => false,
    }
}

/// Adds the candidates that occur as values.
pub fn visit(value: &Json, candidates: &Table<()>, found: &mut Table<()>)
    ensures
        forall|text: Seq<char>| #[trigger]
            final(found)@.dom().contains(text) == (old(found)@.dom().contains(text) || (
            candidates@.dom().contains(text) && holds_text(*value, text))),
    decreases *value,
{
    let ghost before = found@.dom();
    match value {
        Json::Text(text) => {
            if candidates.contains(text.as_str()) {
                found.insert(text.clone(), ());
            }
        },
        Json::Array(values) => {
            let mut i: usize = 0;
            while i < values.len()
                invariant
                    i <= values@.len(),
                    *value == Json::Array(*values),
                    forall|text: Seq<char>| #[trigger]
                        found@.dom().contains(text) == (before.contains(text) || (
                        candidates@.dom().contains(text) && exists|j: int|
                            0 <= j < i && holds_text(#[trigger] values@[j], text))),
                decreases values@.len() - i,
            {
                let ghost earlier = found@.dom();
                proof {
                    assert(decreases_to!(*value => value->Array_0));
                    assert(decreases_to!(*values => values@));
                    assert(decreases_to!(values@ => values@[i as int]));
                }
                visit(&values[i], candidates, found);
                proof {
                    assert forall|text: Seq<char>| #[trigger]
                        found@.dom().contains(text) == (before.contains(text) || (
                        candidates@.dom().contains(text) && exists|j: int|
                            0 <= j < i + 1 && holds_text(#[trigger] values@[j], text))) by {
                        assert(earlier.contains(text) == (before.contains(text) || (
                        candidates@.dom().contains(text) && exists|j: int|
                            0 <= j < i && holds_text(#[trigger] values@[j], text))));
                        if exists|j: int| 0 <= j < i + 1 && holds_text(#[trigger] values@[j], text) {
                            let j = choose|j: int|
                                0 <= j < i + 1 && holds_text(#[trigger] values@[j], text);
                            assert(holds_text(values@[j], text));
                        }
                    }
                }
                i = i + 1;
            }
        },
        Json::Object(members) => {
            let mut i: usize = 0;
            while i < members.len()
                invariant
                    i <= members@.len(),
                    *value == Json::Object(*members),
                    forall|text: Seq<char>| #[trigger]
                        found@.dom().contains(text) == (before.contains(text) || (
                        candidates@.dom().contains(text) && exists|j: int|
                            0 <= j < i && holds_text((#[trigger] members@[j]).1, text))),
                decreases members@.len() - i,
            {
                let ghost earlier = found@.dom();
                proof {
                    assert(decreases_to!(*value => value->Object_0));
                    assert(decreases_to!(*members => members@));
                    assert(decreases_to!(members@ => members@[i as int]));
                    assert(decreases_to!(members@[i as int] => members@[i as int].1));
                }
                visit(&members[i].1, candidates, found);
                proof {
                    assert forall|text: Seq<char>| #[trigger]
                        found@.dom().contains(text) == (before.contains(text) || (
                        candidates@.dom().contains(text) && exists|j: int|
                            0 <= j < i + 1 && holds_text((#[trigger] members@[j]).1, text))) by {
                        assert(earlier.contains(text) == (before.contains(text) || (
                        candidates@.dom().contains(text) && exists|j: int|
                            0 <= j < i && holds_text((#[trigger] members@[j]).1, text))));
                        if exists|j: int|
                            0 <= j < i + 1 && holds_text((#[trigger] members@[j]).1, text) {
                            let j = choose|j: int|
                                0 <= j < i + 1 && holds_text((#[trigger] members@[j]).1, text);
                            assert(holds_text(members@[j].1, text));
                        }
                    }
                }
                i = i + 1;
            }
        },
        _ => {},
    }
}

/// The candidates, but for the current one, that a lineage names: its predecessors, whichever
/// writer's member names they stand under.
pub fn lineage_references(lineage: &Json, candidates: &Table<()>, current: &str) -> (found: Table<
    (),
>)
    ensures
        found@.dom() == Set::new(
            |text: Seq<char>|
                candidates@.dom().contains(text) && holds_text(*lineage, text) && text
                    != current@,
        ),
{
    let mut found: Table<()> = Table::new();
    visit(lineage, candidates, &mut found);
    let _ = found.remove(current);
    assert(found@.dom() =~= Set::new(
        |text: Seq<char>|
            candidates@.dom().contains(text) && holds_text(*lineage, text) && text != current@,
    ));
    found
}

/// The key of a stored object.
pub open spec fn object_key_of(sha256: Seq<char>) -> Seq<char> {
    "objects/"@ + sha256
}

/// The key of a stored object.
pub fn object_key(sha256: &str) -> (key: String)
    ensures
        key@ == object_key_of(sha256@),
{
    join("objects/", sha256)
}

/// The key that an object's members name: by a digest of 64 bytes, or outright.
pub open spec fn names_key(members: Seq<(String, Json)>, key: Seq<char>) -> bool {
    ||| (text_member(members, "sha256"@) matches Some(hash) && vstd::utf8::encode_utf8(hash).len()
        == 64 && key == object_key_of(hash))
    ||| text_member(members, "key"@) == Some(key)
}

/// Whether a stored object is referred to anywhere.
pub open spec fn refers_to(value: Json, key: Seq<char>) -> bool
    decreases value,
{
    match value {
        Json::Object(members) => names_key(members@, key) || exists|i: int|
            0 <= i < members@.len() && refers_to((#[trigger] members@[i]).1, key),
        Json::Array(values) => exists|i: int|
            0 <= i < values@.len() && refers_to(#[trigger] values@[i], key),
        _ => false,
    }
}

fn add_named(members: &Vec<(String, Json)>, keys: &mut Table<()>)
    ensures
        forall|key: Seq<char>| #[trigger]
            final(keys)@.dom().contains(key) == (old(keys)@.dom().contains(key) || names_key(
                members@,
                key,
            )),
{
    if let Some(hash) = text_of_member(members, "sha256") {
        if hash.as_bytes().len() == 64 {
            keys.insert(object_key(hash), ());
        }
    }
    if let Some(key) = text_of_member(members, "key") {
        keys.insert(key.to_owned(), ());
    }
}

/// Adds the keys of all stored objects that are referred to.
pub fn references(value: &Json, keys: &mut Table<()>)
    ensures
        forall|key: Seq<char>| #[trigger]
            final(keys)@.dom().contains(key) == (old(keys)@.dom().contains(key) || refers_to(
                *value,
                key,
            )),
    decreases *value,
{
    let ghost before = keys@.dom();
    match value {
        Json::Array(values) => {
            let mut i: usize = 0;
            while i < values.len()
                invariant
                    i <= values@.len(),
                    *value == Json::Array(*values),
                    forall|key: Seq<char>| #[trigger]
                        keys@.dom().contains(key) == (before.contains(key) || exists|j: int|
                            0 <= j < i && refers_to(#[trigger] values@[j], key)),
                decreases values@.len() - i,
            {
                let ghost earlier = keys@.dom();
                proof {
                    assert(decreases_to!(*value => value->Array_0));
                    assert(decreases_to!(*values => values@));
                    assert(decreases_to!(values@ => values@[i as int]));
                }
                references(&values[i], keys);
                proof {
                    assert forall|key: Seq<char>| #[trigger]
                        keys@.dom().contains(key) == (before.contains(key) || exists|j: int|
                            0 <= j < i + 1 && refers_to(#[trigger] values@[j], key)) by {
                        assert(earlier.contains(key) == (before.contains(key) || exists|j: int|
                            0 <= j < i && refers_to(#[trigger] values@[j], key)));
                        if exists|j: int| 0 <= j < i + 1 && refers_to(#[trigger] values@[j], key) {
                            let j = choose|j: int|
                                0 <= j < i + 1 && refers_to(#[trigger] values@[j], key);
                            assert(refers_to(values@[j], key));
                        }
                    }
                }
                i = i + 1;
            }
        },
        Json::Object(members) => {
            add_named(members, keys);
            let mut i: usize = 0;
            while i < members.len()
                invariant
                    i <= members@.len(),
                    *value == Json::Object(*members),
                    forall|key: Seq<char>| #[trigger]
                        keys@.dom().contains(key) == (before.contains(key) || names_key(
                            members@,
                            key,
                        ) || exists|j: int|
                            0 <= j < i && refers_to((#[trigger] members@[j]).1, key)),
                decreases members@.len() - i,
            {
                let ghost earlier = keys@.dom();
                proof {
                    assert(decreases_to!(*value => value->Object_0));
                    assert(decreases_to!(*members => members@));
                    assert(decreases_to!(members@ => members@[i as int]));
                    assert(decreases_to!(members@[i as int] => members@[i as int].1));
                }
                references(&members[i].1, keys);
                proof {
                    assert forall|key: Seq<char>| #[trigger]
                        keys@.dom().contains(key) == (before.contains(key) || names_key(
                            members@,
                            key,
                        ) || exists|j: int|
                            0 <= j < i + 1 && refers_to((#[trigger] members@[j]).1, key)) by {
                        assert(earlier.contains(key) == (before.contains(key) || names_key(
                            members@,
                            key,
                        ) || exists|j: int|
                            0 <= j < i && refers_to((#[trigger] members@[j]).1, key)));
                        if exists|j: int|
                            0 <= j < i + 1 && refers_to((#[trigger] members@[j]).1, key) {
                            let j = choose|j: int|
                                0 <= j < i + 1 && refers_to((#[trigger] members@[j]).1, key);
                            assert(refers_to(members@[j].1, key));
                        }
                    }
                }
                i = i + 1;
            }
        },
        _ => {},
    }
}

/// What a JSON value says.
pub enum JsonView {
    Null,
    Bool(bool),
    Number(Seq<char>),
    Text(Seq<char>),
    Array(Seq<JsonView>),
    Object(Seq<(Seq<char>, JsonView)>),
}

/// What a decoded value says.
pub open spec fn view_of(value: Json) -> JsonView
    decreases value, 0nat,
{
    match value {
        Json::Null => JsonView::Null,
        Json::Bool(flag) => JsonView::Bool(flag),
        Json::Number(number) => JsonView::Number(number@),
        Json::Text(text) => JsonView::Text(text@),
        Json::Array(values) => JsonView::Array(element_views(values@, values@.len())),
        Json::Object(members) => JsonView::Object(member_views(members@, members@.len())),
    }
}

/// What the first `count` elements say.
pub open spec fn element_views(values: Seq<Json>, count: nat) -> Seq<JsonView>
    decreases values, count,
{
    if count == 0 || count > values.len() {
        Seq::empty()
    } else {
        element_views(values, (count - 1) as nat).push(view_of(values[count - 1]))
    }
}

/// What the first `count` members say.
pub open spec fn member_views(members: Seq<(String, Json)>, count: nat) -> Seq<
    (Seq<char>, JsonView),
>
    decreases members, count,
{
    if count == 0 || count > members.len() {
        Seq::empty()
    } else {
        member_views(members, (count - 1) as nat).push(
            (members[count - 1].0@, view_of(members[count - 1].1)),
        )
    }
}

proof fn element_view(values: Seq<Json>, count: nat, i: int)
    requires
        0 <= i < count <= values.len(),
    ensures
        element_views(values, count).len() == count,
        element_views(values, count)[i] == view_of(values[i]),
    decreases count,
{
    if i < count - 1 {
        element_view(values, (count - 1) as nat, i);
    } else if count > 1 {
        element_view(values, (count - 1) as nat, 0);
    } else {
        assert(element_views(values, 0).len() == 0);
    }
}

proof fn member_view(members: Seq<(String, Json)>, count: nat, i: int)
    requires
        0 <= i < count <= members.len(),
    ensures
        member_views(members, count).len() == count,
        member_views(members, count)[i] == (members[i].0@, view_of(members[i].1)),
    decreases count,
{
    if i < count - 1 {
        member_view(members, (count - 1) as nat, i);
    } else if count > 1 {
        member_view(members, (count - 1) as nat, 0);
    } else {
        assert(member_views(members, 0).len() == 0);
    }
}

/// Decoded values that say the same are the same.
pub proof fn same_view_same_value(a: Json, b: Json)
    requires
        view_of(a) == view_of(b),
    ensures
        identical(a, b),
    decreases a,
{
    match (a, b) {
        (Json::Array(xs), Json::Array(ys)) => {
            let n = xs@.len();
            if n > 0 {
                element_view(xs@, n, 0);
            }
            if ys@.len() > 0 {
                element_view(ys@, ys@.len(), 0);
            }
            assert forall|i: int| 0 <= i < n implies identical(#[trigger] xs@[i], ys@[i]) by {
                element_view(xs@, n, i);
                element_view(ys@, n, i);
                same_view_same_value(xs@[i], ys@[i]);
            }
        },
        (Json::Object(xs), Json::Object(ys)) => {
            let n = xs@.len();
            if n > 0 {
                member_view(xs@, n, 0);
            }
            if ys@.len() > 0 {
                member_view(ys@, ys@.len(), 0);
            }
            assert forall|i: int| 0 <= i < n implies (#[trigger] xs@[i]).0@ == ys@[i].0@ && identical(
                xs@[i].1,
                ys@[i].1,
            ) by {
                member_view(xs@, n, i);
                member_view(ys@, n, i);
                same_view_same_value(xs@[i].1, ys@[i].1);
            }
        },
        _ => {},
    }
}

/// The same texts occur in values that are the same.
pub proof fn identical_values_hold_the_same_texts(a: Json, b: Json, text: Seq<char>)
    requires
        identical(a, b),
    ensures
        holds_text(a, text) == holds_text(b, text),
    decreases a,
{
    match (a, b) {
        (Json::Array(xs), Json::Array(ys)) => {
            assert forall|i: int| 0 <= i < xs@.len() implies holds_text(#[trigger] xs@[i], text)
                == holds_text(ys@[i], text) by {
                identical_values_hold_the_same_texts(xs@[i], ys@[i], text);
            }
            if holds_text(a, text) {
                let i = choose|i: int| 0 <= i < xs@.len() && holds_text(#[trigger] xs@[i], text);
                assert(holds_text(ys@[i], text));
            }
            if holds_text(b, text) {
                let i = choose|i: int| 0 <= i < ys@.len() && holds_text(#[trigger] ys@[i], text);
                assert(holds_text(xs@[i], text));
            }
        },
        (Json::Object(xs), Json::Object(ys)) => {
            assert forall|i: int| 0 <= i < xs@.len() implies holds_text(
                (#[trigger] xs@[i]).1,
                text,
            ) == holds_text(ys@[i].1, text) by {
                identical_values_hold_the_same_texts(xs@[i].1, ys@[i].1, text);
            }
            if holds_text(a, text) {
                let i = choose|i: int|
                    0 <= i < xs@.len() && holds_text((#[trigger] xs@[i]).1, text);
                assert(holds_text(ys@[i].1, text));
            }
            if holds_text(b, text) {
                let i = choose|i: int|
                    0 <= i < ys@.len() && holds_text((#[trigger] ys@[i]).1, text);
                assert(holds_text(xs@[i].1, text));
            }
        },
        _ => {},
    }
}

proof fn same_place_of_members(xs: Seq<(String, Json)>, ys: Seq<(String, Json)>, name: Seq<char>)
    requires
        xs.len() == ys.len(),
        forall|i: int| 0 <= i < xs.len() ==> (#[trigger] xs[i]).0@ == ys[i].0@,
    ensures
        member_at(xs, name) == member_at(ys, name),
{
    let wanted = is_named(name);
    first_where_meets(xs, wanted);
    match first_where(xs, wanted) {
        Some(at) => {
            assert(wanted(xs[at]));
            assert forall|i: int| 0 <= i < at implies !wanted(#[trigger] ys[i]) by {
                assert(!wanted(xs[i]));
            }
            first_where_found(ys, wanted, at);
        },
        None => {
            assert forall|i: int| 0 <= i < ys.len() implies !wanted(#[trigger] ys[i]) by {
                assert(!wanted(xs[i]));
            }
            first_where_absent(ys, wanted);
        },
    }
}

/// Identical values have the same members.
pub proof fn identical_values_have_the_same_members(a: Json, b: Json, name: Seq<char>)
    requires
        identical(a, b),
    ensures
        match (member(a, name), member(b, name)) {
            (Some(x), Some(y)) => identical(x, y),
            (None, None) => true,
            _ => false,
        },
        member_text(a, name) == member_text(b, name),
{
    if let (Json::Object(xs), Json::Object(ys)) = (a, b) {
        same_place_of_members(xs@, ys@, name);
        first_where_meets(xs@, is_named(name));
        if let Some(at) = member_at(xs@, name) {
            assert(xs@[at].0@ == ys@[at].0@);
        }
    }
}

/// Identical values refer to the same stored objects.
pub proof fn identical_values_refer_alike(a: Json, b: Json, key: Seq<char>)
    requires
        identical(a, b),
    ensures
        refers_to(a, key) == refers_to(b, key),
    decreases a,
{
    match (a, b) {
        (Json::Array(xs), Json::Array(ys)) => {
            assert forall|i: int| 0 <= i < xs@.len() implies refers_to(#[trigger] xs@[i], key)
                == refers_to(ys@[i], key) by {
                identical_values_refer_alike(xs@[i], ys@[i], key);
            }
            if refers_to(a, key) {
                let i = choose|i: int| 0 <= i < xs@.len() && refers_to(#[trigger] xs@[i], key);
                assert(refers_to(ys@[i], key));
            }
            if refers_to(b, key) {
                let i = choose|i: int| 0 <= i < ys@.len() && refers_to(#[trigger] ys@[i], key);
                assert(refers_to(xs@[i], key));
            }
        },
        (Json::Object(xs), Json::Object(ys)) => {
            assert forall|i: int| 0 <= i < xs@.len() implies refers_to((#[trigger] xs@[i]).1, key)
                == refers_to(ys@[i].1, key) by {
                identical_values_refer_alike(xs@[i].1, ys@[i].1, key);
            }
            same_texts_of_members(xs@, ys@, "sha256"@);
            same_texts_of_members(xs@, ys@, "key"@);
            assert(names_key(xs@, key) == names_key(ys@, key));
            if refers_to(a, key) && !names_key(xs@, key) {
                let i = choose|i: int|
                    0 <= i < xs@.len() && refers_to((#[trigger] xs@[i]).1, key);
                assert(refers_to(ys@[i].1, key));
            }
            if refers_to(b, key) && !names_key(ys@, key) {
                let i = choose|i: int|
                    0 <= i < ys@.len() && refers_to((#[trigger] ys@[i]).1, key);
                assert(refers_to(xs@[i].1, key));
            }
        },
        _ => {},
    }
}

proof fn same_texts_of_members(xs: Seq<(String, Json)>, ys: Seq<(String, Json)>, name: Seq<char>)
    requires
        xs.len() == ys.len(),
        forall|i: int|
            0 <= i < xs.len() ==> (#[trigger] xs[i]).0@ == ys[i].0@ && identical(xs[i].1, ys[i].1),
    ensures
        text_member(xs, name) == text_member(ys, name),
{
    same_place_of_members(xs, ys, name);
    first_where_meets(xs, is_named(name));
    if let Some(at) = member_at(xs, name) {
        assert(xs[at].0@ == ys[at].0@);
    }
}

/// A value that `serde_json` has decoded.
#[verifier::external_type_specification]
#[verifier::external_body]
pub struct ExternalValue(serde_json::Value);

/// What a value of `serde_json` holds.
pub uninterp spec fn held_json(value: serde_json::Value) -> JsonView;

/// What `serde_json::from_slice` makes of bytes: the value that they are, or its message.
pub uninterp spec fn json_of(bytes: Seq<u8>) -> Result<JsonView, Seq<char>>;

/// Calls `serde_json::from_slice` for a value. Claimed is only that what comes back depends on
/// the bytes alone.
#[verifier::external_body]
fn read_value(bytes: &[u8]) -> (value: Result<serde_json::Value, String>)
    ensures
        match value {
            Ok(value) => json_of(bytes@) == Ok::<JsonView, Seq<char>>(held_json(value)),
            Err(message) => json_of(bytes@) == Err::<JsonView, Seq<char>>(message@),
        },
{
    serde_json::from_slice::<serde_json::Value>(bytes).map_err(|error| error.to_string())
}

/// Moves what a value of `serde_json` holds into a value of this library, variant by variant; a
/// number as `serde_json::Number` prints it. Claimed is that both say the same.
#[verifier::external_body]
fn decoded(value: serde_json::Value) -> (json: Json)
    ensures
        view_of(json) == held_json(value),
{
    match value {
        serde_json::Value::Null => Json::Null,
        serde_json::Value::Bool(flag) => Json::Bool(flag),
        serde_json::Value::Number(number) => Json::Number(number.to_string()),
        serde_json::Value::String(text) => Json::Text(text),
        serde_json::Value::Array(values) => Json::Array(values.into_iter().map(decoded).collect()),
        serde_json::Value::Object(members) => Json::Object(
            members.into_iter().map(|(name, member)| (name, decoded(member))).collect(),
        ),
    }
}

/// What `serde_json::Value::pointer` finds in a value.
pub uninterp spec fn pointed(value: JsonView, pointer: Seq<char>) -> Option<JsonView>;

/// Calls `serde_json::Value::pointer`, and copies what it finds. Claimed is only that what comes
/// back depends on what the value holds and on the pointer alone.
#[verifier::external_body]
fn value_at(value: &serde_json::Value, pointer: &str) -> (found: Option<serde_json::Value>)
    ensures
        match found {
            Some(found) => pointed(held_json(*value), pointer@) == Some(held_json(found)),
            None => pointed(held_json(*value), pointer@) is None,
        },
{
    value.pointer(pointer).cloned()
}

/// Decodes JSON, and what a pointer finds in it.
pub fn parse_at(bytes: &[u8], pointer: &str) -> (parsed: Result<(Json, Option<Json>), String>)
    ensures
        match parsed {
            Ok((value, found)) => {
                &&& json_of(bytes@) == Ok::<JsonView, Seq<char>>(view_of(value))
                &&& match found {
                    Some(found) => pointed(view_of(value), pointer@) == Some(view_of(found)),
                    None => pointed(view_of(value), pointer@) is None,
                }
            },
            Err(message) => json_of(bytes@) == Err::<JsonView, Seq<char>>(message@),
        },
{
    match read_value(bytes) {
        Ok(value) => {
            let found: Option<Json> = match value_at(&value, pointer) {
                Some(found) => Some(decoded(found)),
                None => None,
            };
            Ok((decoded(value), found))
        },
        Err(message) => Err(message),
    }
}

/// Decodes JSON.
pub fn parse(bytes: &[u8]) -> (parsed: Result<Json, String>)
    ensures
        match parsed {
            Ok(value) => json_of(bytes@) == Ok::<JsonView, Seq<char>>(view_of(value)),
            Err(message) => json_of(bytes@) == Err::<JsonView, Seq<char>>(message@),
        },
{
    match read_value(bytes) {
        Ok(value) => Ok(decoded(value)),
        Err(message) => Err(message),
    }
}

/// The candidates, but for the current one, that a lineage names.
pub open spec fn named_in(
    lineage: Json,
    candidates: Set<Seq<char>>,
    current: Seq<char>,
) -> Set<Seq<char>> {
    Set::new(
        |text: Seq<char>|
            candidates.contains(text) && holds_text(lineage, text) && text != current,
    )
}

/// The candidates that the bytes of a lineage name. Which they are depends on what the bytes
/// decode to, and on nothing else.
pub fn lineage_bytes_references(bytes: &[u8], candidates: &Table<()>, current: &str) -> (found:
    Result<Table<()>, String>)
    ensures
        match json_of(bytes@) {
            Err(message) => refusal(found) == Some("archive lineage: "@ + message),
            Ok(view) => found matches Ok(found) && forall|value: Json| #[trigger]
                view_of(value) == view ==> found@.dom() == named_in(
                    value,
                    candidates@.dom(),
                    current@,
                ),
        },
{
    match parse(bytes) {
        Ok(lineage) => {
            let found = lineage_references(&lineage, candidates, current);
            proof {
                assert forall|value: Json| #[trigger]
                    view_of(value) == view_of(lineage) implies found@.dom() == named_in(
                    value,
                    candidates@.dom(),
                    current@,
                ) by {
                    same_view_same_value(lineage, value);
                    assert forall|text: Seq<char>| holds_text(lineage, text) == holds_text(
                        value,
                        text,
                    ) by {
                        identical_values_hold_the_same_texts(lineage, value, text);
                    }
                    assert(found@.dom() =~= named_in(value, candidates@.dom(), current@));
                }
            }
            Ok(found)
        },
        Err(message) => Err(join("archive lineage: ", message.as_str())),
    }
}

} // verus!
