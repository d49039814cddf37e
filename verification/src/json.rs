//! JSON values.

use vstd::prelude::*;
use vstd::slice::*;
use vstd::string::*;

use crate::ieee::Real;
use crate::number;
use crate::text;

verus! {

/// A JSON value.  An integer outside the range of `i64` is an `UInt`.
#[derive(Debug, PartialEq)]
pub enum Json {
    Null,
    Bool(bool),
    Int(i64),
    UInt(u64),
    Float(Real),
    Text(String),
    Array(Vec<Json>),
    Object(Vec<(String, Json)>),
}

/// What a JSON value holds.
pub enum JsonModel {
    Null,
    Bool(bool),
    Int(int),
    Float(Real),
    Text(Seq<char>),
    Array(Seq<JsonModel>),
    Object(Seq<(Seq<char>, JsonModel)>),
}

impl Json {
    /// What the value holds.
    pub open spec fn model(self) -> JsonModel
        decreases self,
    {
        match self {
            Json::Null => JsonModel::Null,
            Json::Bool(b) => JsonModel::Bool(b),
            Json::Int(i) => JsonModel::Int(i as int),
            Json::UInt(u) => JsonModel::Int(u as int),
            Json::Float(f) => JsonModel::Float(f),
            Json::Text(s) => JsonModel::Text(s@),
            Json::Array(v) => JsonModel::Array(
                Seq::new(
                    v@.len(),
                    |i: int|
                        if 0 <= i < v@.len() {
                            v@[i].model()
                        } else {
                            JsonModel::Null
                        },
                ),
            ),
            Json::Object(v) => JsonModel::Object(
                Seq::new(
                    v@.len(),
                    |i: int|
                        if 0 <= i < v@.len() {
                            (v@[i].0@, v@[i].1.model())
                        } else {
                            (Seq::empty(), JsonModel::Null)
                        },
                ),
            ),
        }
    }
}

impl View for Json {
    type V = JsonModel;

    open spec fn view(&self) -> JsonModel {
        self.model()
    }
}

impl Json {
    /// A copy of the value.
    pub fn copy(&self) -> (r: Json)
        ensures
            r@ == self@,
        decreases self,
    {
        match self {
            Json::Null => Json::Null,
            Json::Bool(b) => Json::Bool(*b),
            Json::Int(i) => Json::Int(*i),
            Json::UInt(u) => Json::UInt(*u),
            Json::Float(f) => Json::Float(*f),
            Json::Text(s) => Json::Text(s.clone()),
            Json::Array(items) => {
                let mut out: Vec<Json> = Vec::new();
                let mut i: usize = 0;
                while i < items.len()
                    invariant
                        i <= items@.len(),
                        *self == Json::Array(*items),
                        out@.len() == i,
                        forall|j: int| 0 <= j < i ==> (#[trigger] out@[j])@ == items@[j]@,
                    decreases items@.len() - i,
                {
                    assert(decreases_to!(*self => self->Array_0@[i as int]));
                    out.push(items[i].copy());
                    i = i + 1;
                }
                let r = Json::Array(out);
                assert(r@->Array_0 =~= self@->Array_0);
                r
            },
            Json::Object(items) => {
                let mut out: Vec<(String, Json)> = Vec::new();
                let mut i: usize = 0;
                while i < items.len()
                    invariant
                        i <= items@.len(),
                        *self == Json::Object(*items),
                        out@.len() == i,
                        forall|j: int|
                            0 <= j < i ==> (#[trigger] out@[j]).0@ == items@[j].0@ && out@[j].1@ == items@[j].1@,
                    decreases items@.len() - i,
                {
                    assert(decreases_to!(*self => self->Object_0@[i as int].1));
                    out.push((items[i].0.clone(), items[i].1.copy()));
                    i = i + 1;
                }
                let r = Json::Object(out);
                assert(r@->Object_0 =~= self@->Object_0);
                r
            },
        }
    }
}

/// The value of the first field called `name`, from `i` on.
pub open spec fn field_from(fields: Seq<(Seq<char>, JsonModel)>, name: Seq<char>, i: int) -> Option<JsonModel>
    decreases fields.len() - i,
{
    if i < 0 || i >= fields.len() {
        None
    } else if fields[i].0 == name {
        Some(fields[i].1)
    } else {
        field_from(fields, name, i + 1)
    }
}

impl JsonModel {
    /// The member of an object.
    pub open spec fn member(self, name: Seq<char>) -> Option<JsonModel> {
        match self {
            JsonModel::Object(fields) => field_from(fields, name, 0),
            _ => None,
        }
    }

    /// The member of an object, `Null` when it is absent.
    pub open spec fn member_or_null(self, name: Seq<char>) -> JsonModel {
        match self.member(name) {
            Some(v) => v,
            None => JsonModel::Null,
        }
    }

    /// The text of a member that is a string.
    pub open spec fn text_member(self, name: Seq<char>) -> Option<Seq<char>> {
        match self.member(name) {
            Some(JsonModel::Text(s)) => Some(s),
            _ => None,
        }
    }

    /// The value as an integer: booleans count as 1 and 0, floating point
    /// numbers are truncated, strings are parsed; anything else has none.
    pub open spec fn to_int(self) -> Option<int> {
        match self {
            JsonModel::Int(n) => Some(
                if n > i64::MAX {
                    i64::MAX as int
                } else {
                    n
                },
            ),
            JsonModel::Float(f) => Some(f.truncated()),
            JsonModel::Text(s) => number::within(
                number::signed_value(text::trim(s)),
                i64::MIN as int,
                i64::MAX as int,
            ),
            JsonModel::Bool(b) => Some(
                if b {
                    1
                } else {
                    0
                },
            ),
            _ => None,
        }
    }
}

/// The models of a list of values.
pub open spec fn models(values: Seq<Json>) -> Seq<JsonModel> {
    values.map_values(|v: Json| v@)
}

impl Json {
    /// The member of an object.
    pub fn get(&self, name: &str) -> (r: Option<&Json>)
        ensures
            r matches Some(v) ==> self@.member(name@) == Some(v@),
            r is None ==> self@.member(name@) is None,
    {
        match self {
            Json::Object(fields) => {
                let ghost all = self@->Object_0;
                let mut i: usize = 0;
                while i < fields.len()
                    invariant
                        i <= fields@.len(),
                        all == self@->Object_0,
                        *self == Json::Object(*fields),
                        field_from(all, name@, 0) == field_from(all, name@, i as int),
                    decreases fields@.len() - i,
                {
                    assert(all[i as int] == (fields@[i as int].0@, fields@[i as int].1@));
                    if text::same_text(fields[i].0.as_str(), name) {
                        return Some(&fields[i].1);
                    }
                    i = i + 1;
                }
                None
            },
            _ => None,
        }
    }

    /// Whether the value is an object.
    pub fn is_object(&self) -> (r: bool)
        ensures
            r == (self@ is Object),
    {
        match self {
            Json::Object(_) => true,
            _ => false,
        }
    }

    /// The text of a string.
    pub fn as_str(&self) -> (r: Option<&str>)
        ensures
            r matches Some(s) ==> self@ == JsonModel::Text(s@),
            r is None ==> !(self@ is Text),
    {
        match self {
            Json::Text(s) => Some(s.as_str()),
            _ => None,
        }
    }

    /// An object without members.
    pub fn empty_object() -> (r: Json)
        ensures
            r@ == JsonModel::Object(Seq::empty()),
    {
        let r = Json::Object(Vec::new());
        assert(r@->Object_0 =~= Seq::empty());
        r
    }

    /// A string.
    pub fn text(s: &str) -> (r: Json)
        ensures
            r@ == JsonModel::Text(s@),
    {
        Json::Text(String::from_str(s))
    }

    /// An array.
    pub fn array(items: Vec<Json>) -> (r: Json)
        ensures
            r@ == JsonModel::Array(models(items@)),
    {
        let r = Json::Array(items);
        assert(r@->Array_0 =~= models(items@));
        r
    }

    /// An object with one more member.
    pub fn with(self, name: &str, value: Json) -> (r: Json)
        requires
            self@ is Object,
        ensures
            r@ == JsonModel::Object((self@->Object_0).push((name@, value@))),
    {
        let ghost before = self@->Object_0;
        match self {
            Json::Object(fields) => {
                let mut all = fields;
                all.push((String::from_str(name), value));
                let r = Json::Object(all);
                assert(r@->Object_0 =~= before.push((name@, value@)));
                r
            },
            other => other,
        }
    }
}

/// The value as an integer (see [`JsonModel::to_int`]).
pub fn to_int(value: &Json) -> (r: Option<i64>)
    ensures
        r matches Some(i) ==> value@.to_int() == Some(i as int),
        r is None ==> value@.to_int() is None,
{
    match value {
        Json::Int(i) => Some(*i),
        Json::UInt(u) => if *u > 9223372036854775807 {
            Some(i64::MAX)
        } else {
            Some(*u as i64)
        },
        Json::Float(f) => Some(f.to_i64()),
        Json::Text(s) => {
            let chars = text::chars_of(s.as_str());
            number::parse_signed(text::trimmed(chars.as_slice()))
        },
        Json::Bool(b) => if *b {
            Some(1)
        } else {
            Some(0)
        },
        _ => None,
    }
}

/// A field is found when no field before it has its name.
pub proof fn lemma_field(fields: Seq<(Seq<char>, JsonModel)>, i: int, k: int)
    requires
        0 <= i <= k < fields.len(),
        forall|j: int| i <= j < k ==> (#[trigger] fields[j]).0 != fields[k].0,
    ensures
        field_from(fields, fields[k].0, i) == Some(fields[k].1),
    decreases k - i,
{
    if i < k {
        lemma_field(fields, i + 1, k);
    }
}

/// The member of an object is the first one with the name; there is none when
/// no member has the name.
pub proof fn members_are_found_by_name(fields: Seq<(Seq<char>, JsonModel)>, name: Seq<char>)
    ensures
        match JsonModel::Object(fields).member(name) {
            Some(v) => exists|k: int|
                0 <= k < fields.len() && #[trigger] fields[k] == (name, v) && forall|j: int|
                    0 <= j < k ==> (#[trigger] fields[j]).0 != name,
            None => forall|j: int| 0 <= j < fields.len() ==> (#[trigger] fields[j]).0 != name,
        },
{
    lemma_member(fields, name, 0);
}

proof fn lemma_member(fields: Seq<(Seq<char>, JsonModel)>, name: Seq<char>, i: int)
    requires
        0 <= i <= fields.len(),
    ensures
        match field_from(fields, name, i) {
            Some(v) => exists|k: int|
                i <= k < fields.len() && #[trigger] fields[k] == (name, v) && forall|j: int|
                    i <= j < k ==> (#[trigger] fields[j]).0 != name,
            None => forall|j: int| i <= j < fields.len() ==> (#[trigger] fields[j]).0 != name,
        },
    decreases fields.len() - i,
{
    if i < fields.len() {
        if fields[i].0 == name {
            assert(fields[i] == (name, fields[i].1));
        } else {
            lemma_member(fields, name, i + 1);
            if let Some(v) = field_from(fields, name, i + 1) {
                let k = choose|k: int|
                    i + 1 <= k < fields.len() && #[trigger] fields[k] == (name, v) && forall|j: int|
                        i + 1 <= j < k ==> (#[trigger] fields[j]).0 != name;
                assert(fields[k] == (name, v));
            }
        }
    }
}

/// Integers keep their value, truth values count as one and zero, and a text
/// that writes an integer stands for it.
pub proof fn integers_are_read_as_they_are(n: i64, b: bool, s: Seq<char>)
    ensures
        JsonModel::Int(n as int).to_int() == Some(n as int),
        JsonModel::Bool(b).to_int() == Some(
            if b {
                1int
            } else {
                0
            },
        ),
        number::signed_value(text::trim(s)) == Some(n as int) ==> JsonModel::Text(s).to_int() == Some(n as int),
        JsonModel::Null.to_int() is None,
{
}

/// A number that is written as text is read, between white space too.
pub proof fn numbers_are_read_from_text(n: i64, front: Seq<char>, back: Seq<char>)
    requires
        forall|j: int| 0 <= j < front.len() ==> text::is_space(#[trigger] front[j]),
        forall|j: int| 0 <= j < back.len() ==> text::is_space(#[trigger] back[j]),
    ensures
        JsonModel::Text(front + number::signed_decimal(n as int) + back).to_int() == Some(n as int),
        JsonModel::Text(number::signed_decimal(n as int)).to_int() == Some(n as int),
{
    let digits = number::signed_decimal(n as int);
    number::signed_numbers_read_back(n as int);
    if n < 0 {
        number::lemma_decimal_reads_back((-n) as nat);
    } else {
        number::lemma_decimal_reads_back(n as nat);
    }
    assert(digits.len() > 0);
    number::lemma_signed_chars(n as int, 0);
    number::lemma_signed_chars(n as int, digits.len() - 1);
    text::white_space_around_a_text_is_trimmed(front, digits, back);
    let none = Seq::<char>::empty();
    assert(none + digits + none =~= digits);
    text::white_space_around_a_text_is_trimmed(none, digits, none);
}

} // verus!
