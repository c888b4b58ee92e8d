//! The members of a JSON object.

use vstd::prelude::*;

verus! {

/// The value of a member.
pub enum Value {
    /// A whole number from zero on.
    Unsigned(u64),
    /// A whole number below zero.
    Negative(i64),
    /// What a string holds, in UTF-8.
    Text(Vec<u8>),
    /// Anything else, as its JSON text.
    Other(Vec<u8>),
}

/// One member of an object.
pub struct Member {
    pub name: Vec<u8>,
    pub value: Value,
}

/// What a value is.
pub enum ValueModel {
    Unsigned(u64),
    Negative(i64),
    Text(Seq<u8>),
    Other(Seq<u8>),
}

pub struct MemberModel {
    pub name: Seq<u8>,
    pub value: ValueModel,
}

impl View for Value {
    type V = ValueModel;

    open spec fn view(&self) -> ValueModel {
        match self {
            Value::Unsigned(number) => ValueModel::Unsigned(*number),
            Value::Negative(number) => ValueModel::Negative(*number),
            Value::Text(text) => ValueModel::Text(text@),
            Value::Other(text) => ValueModel::Other(text@),
        }
    }
}

impl View for Member {
    type V = MemberModel;

    open spec fn view(&self) -> MemberModel {
        MemberModel { name: self.name@, value: self.value@ }
    }
}

/// Members as a sequence.
pub open spec fn models(members: Seq<Member>) -> Seq<MemberModel> {
    Seq::new(members.len(), |i: int| members[i]@)
}

/// An object as the sequence of its members; what is no object is `None`.
pub open spec fn object(members: Option<Vec<Member>>) -> Option<Seq<MemberModel>> {
    match members {
        Some(members) => Some(models(members@)),
        None => None,
    }
}

/// What the octets hold: `None` where they are no JSON, `Some(None)` where they
/// are a JSON value other than an object, and else the members of the object.
pub uninterp spec fn json_object(octets: Seq<u8>) -> Option<Option<Seq<MemberModel>>>;

/// Reads an object with `serde_json::from_slice`, into a `serde_json::Value`.
///
/// Claimed is only that what comes back depends on the octets alone: whether
/// they are JSON, whether they are an object, and which members it has, in the
/// order in which the map hands them out. The map is ordered by its keys.
#[verifier::external_body]
pub(crate) fn read_object(octets: &[u8]) -> (read: Option<Option<Vec<Member>>>)
    ensures
        match read {
            Some(members) => json_object(octets@) == Some(object(members)),
            None => json_object(octets@) is None,
        },
{
    match serde_json::from_slice::<serde_json::Value>(octets) {
        Ok(serde_json::Value::Object(members)) => Some(Some(members.into_iter().map(
            |(name, value)| Member {
                name: name.into_bytes(),
                value: match (value.as_u64(), value.as_i64(), value.as_str()) {
                    (Some(number), _, _) => Value::Unsigned(number),
                    (_, Some(number), _) => Value::Negative(number),
                    (_, _, Some(text)) => Value::Text(text.as_bytes().to_vec()),
                    _ => Value::Other(value.to_string().into_bytes()),
                },
            }).collect())),
        Ok(_) => Some(None),
        Err(_) => None,
    }
}

/// The place of the member `name`, or the end.
pub open spec fn place(all: Seq<MemberModel>, name: Seq<u8>, at: int) -> int
    decreases all.len() - at,
{
    if 0 <= at < all.len() && all[at].name != name {
        place(all, name, at + 1)
    } else {
        at
    }
}

pub proof fn lemma_place(all: Seq<MemberModel>, name: Seq<u8>, at: int)
    requires
        0 <= at <= all.len(),
    ensures
        at <= place(all, name, at) <= all.len(),
        place(all, name, at) < all.len() ==> all[place(all, name, at)].name == name,
        forall|i: int| at <= i < place(all, name, at) ==> (#[trigger] all[i]).name != name,
    decreases all.len() - at,
{
    if at < all.len() && all[at].name != name {
        lemma_place(all, name, at + 1);
    }
}

/// Where the member `name` is, or how many members there are.
pub fn find(all: &Vec<Member>, name: &[u8]) -> (at: usize)
    ensures
        at == place(models(all@), name@, 0),
        at <= all@.len(),
{
    let mut i: usize = 0;
    while i < all.len()
        invariant
            i <= all@.len(),
            place(models(all@), name@, 0) == place(models(all@), name@, i as int),
        decreases all@.len() - i,
    {
        assert(models(all@)[i as int].name == all@[i as int].name@);
        if crate::bytes::equal(&all[i].name, name) {
            return i;
        }
        i = i + 1;
    }
    i
}

/// Where a place of a JSON text is.
#[derive(Clone, Copy, Debug, PartialEq, Eq, Structural)]
pub enum Place {
    Plain,
    /// In a string.
    Quoted,
    /// In a string, behind a backslash.
    Escaped,
}

/// The place behind an octet at a place.
pub open spec fn behind(place: Place, octet: u8) -> Place {
    match place {
        Place::Plain => if octet == 34 {
            Place::Quoted
        } else {
            Place::Plain
        },
        Place::Quoted => if octet == 34 {
            Place::Plain
        } else if octet == 92 {
            Place::Escaped
        } else {
            Place::Quoted
        },
        Place::Escaped => Place::Quoted,
    }
}

/// Where the octet at `at` is.
pub open spec fn place_in(text: Seq<u8>, at: int) -> Place
    decreases at,
{
    if at <= 0 {
        Place::Plain
    } else {
        behind(place_in(text, at - 1), text[at - 1])
    }
}

/// Whether the number `-0.0`, and no longer one, starts at `at`.
pub open spec fn negative_zero(text: Seq<u8>, at: int) -> bool {
    &&& at + 4 <= text.len()
    &&& text[at] == 45 && text[at + 1] == 48 && text[at + 2] == 46 && text[at + 3] == 48
    &&& at + 4 < text.len() ==> !(48 <= text[at + 4] <= 57) && text[at + 4] != 101
}

/// The first `count` octets of a JSON text, without the signs of zeros.
pub open spec fn unsigned_zeros(text: Seq<u8>, count: int) -> Seq<u8>
    decreases count,
{
    if count <= 0 {
        Seq::empty()
    } else if place_in(text, count - 1) == Place::Plain && negative_zero(text, count - 1) {
        unsigned_zeros(text, count - 1)
    } else {
        unsigned_zeros(text, count - 1).push(text[count - 1])
    }
}

/// Whether two values are the same. Of numbers that are not whole the sign of a
/// zero does not count.
pub open spec fn same(left: ValueModel, right: ValueModel) -> bool {
    match (left, right) {
        (ValueModel::Other(a), ValueModel::Other(b)) => unsigned_zeros(a, a.len() as int)
            == unsigned_zeros(b, b.len() as int),
        _ => left == right,
    }
}

fn without_zero_signs(text: &[u8]) -> (plain: Vec<u8>)
    ensures
        plain@ == unsigned_zeros(text@, text@.len() as int),
{
    let mut plain: Vec<u8> = Vec::new();
    let mut place = Place::Plain;
    let mut i: usize = 0;
    while i < text.len()
        invariant
            i <= text@.len(),
            place == place_in(text@, i as int),
            plain@ == unsigned_zeros(text@, i as int),
        decreases text@.len() - i,
    {
        let octet: u8 = text[i];
        let zero = text.len() - i >= 4 && octet == 45 && text[i + 1] == 48 && text[i + 2] == 46
            && text[i + 3] == 48 && (text.len() - i == 4 || !(48 <= text[i + 4] && text[i + 4]
            <= 57) && text[i + 4] != 101);
        if !(zero && place == Place::Plain) {
            plain.push(octet);
        }
        place =
        match place {
            Place::Plain => if octet == 34 {
                Place::Quoted
            } else {
                Place::Plain
            },
            Place::Quoted => if octet == 34 {
                Place::Plain
            } else if octet == 92 {
                Place::Escaped
            } else {
                Place::Quoted
            },
            Place::Escaped => Place::Quoted,
        };
        i = i + 1;
    }
    plain
}

/// Tells whether two values are the same.
pub fn same_value(left: &Value, right: &Value) -> (equal: bool)
    ensures
        equal == same(left@, right@),
{
    match (left, right) {
        (Value::Unsigned(a), Value::Unsigned(b)) => *a == *b,
        (Value::Negative(a), Value::Negative(b)) => *a == *b,
        (Value::Text(a), Value::Text(b)) => crate::bytes::equal(a, b),
        (Value::Other(a), Value::Other(b)) => {
            let a = without_zero_signs(a);
            let b = without_zero_signs(b);
            crate::bytes::equal(&a, &b)
        },
        _ => false,
    }
}

/// The place of a member is the first with its name from where the search starts.
pub proof fn law_place_is_the_first(all: Seq<MemberModel>, name: Seq<u8>, from: int, at: int)
    requires
        0 <= from <= at < all.len(),
        all[at].name == name,
        forall|i: int| from <= i < at ==> (#[trigger] all[i]).name != name,
    ensures
        place(all, name, from) == at,
    decreases at - from,
{
    if from < at {
        assert(all[from].name != name);
        law_place_is_the_first(all, name, from + 1, at);
    }
}

/// A name that no member has is found nowhere.
pub proof fn law_missing_name_has_no_place(all: Seq<MemberModel>, name: Seq<u8>, from: int)
    requires
        0 <= from <= all.len(),
        forall|i: int| from <= i < all.len() ==> (#[trigger] all[i]).name != name,
    ensures
        place(all, name, from) == all.len(),
    decreases all.len() - from,
{
    if from < all.len() {
        assert(all[from].name != name);
        law_missing_name_has_no_place(all, name, from + 1);
    }
}

/// Values of different types are never the same, numbers and texts only if they
/// are equal, and every value is the same as itself.
pub proof fn law_sameness_is_by_type_and_content(
    left: ValueModel,
    right: ValueModel,
    third: ValueModel,
)
    ensures
        same(left, left),
        same(left, right) == same(right, left),
        same(left, right) && same(right, third) ==> same(left, third),
        left is Unsigned && right is Unsigned ==> (same(left, right) <==> left->Unsigned_0
            == right->Unsigned_0),
        left is Negative && right is Negative ==> (same(left, right) <==> left->Negative_0
            == right->Negative_0),
        left is Text && right is Text ==> (same(left, right) <==> left->Text_0 == right->Text_0),
        same(left, right) ==> {
            &&& left is Unsigned <==> right is Unsigned
            &&& left is Negative <==> right is Negative
            &&& left is Text <==> right is Text
        },
{
}

proof fn lemma_plain_text_stays(text: Seq<u8>, count: int)
    requires
        0 <= count <= text.len(),
        forall|i: int| 0 <= i < text.len() ==> #[trigger] text[i] != 45,
    ensures
        unsigned_zeros(text, count) == text.take(count),
    decreases count,
{
    if count > 0 {
        lemma_plain_text_stays(text, count - 1);
        assert(text[count - 1] != 45);
        assert(text.take(count) =~= text.take(count - 1).push(text[count - 1]));
    } else {
        assert(text.take(0) =~= Seq::<u8>::empty());
    }
}

/// Other values without a minus sign are the same only if their texts are equal.
pub proof fn law_only_signs_are_passed_over(a: Seq<u8>, b: Seq<u8>)
    requires
        forall|i: int| 0 <= i < a.len() ==> #[trigger] a[i] != 45,
        forall|i: int| 0 <= i < b.len() ==> #[trigger] b[i] != 45,
    ensures
        same(ValueModel::Other(a), ValueModel::Other(b)) <==> a == b,
{
    lemma_plain_text_stays(a, a.len() as int);
    lemma_plain_text_stays(b, b.len() as int);
    assert(a.take(a.len() as int) =~= a);
    assert(b.take(b.len() as int) =~= b);
}

/// A quoted part starts and ends at a quotation mark, and a mark behind a
/// backslash ends nothing.
pub proof fn law_quotes_end_where_they_are_not_escaped(octet: u8)
    ensures
        behind(Place::Plain, octet) == Place::Quoted <==> octet as char == '"',
        behind(Place::Plain, octet) != Place::Escaped,
        behind(Place::Quoted, octet) == Place::Plain <==> octet as char == '"',
        behind(Place::Quoted, octet) == Place::Escaped <==> octet as char == '\\',
        behind(Place::Escaped, octet) == Place::Quoted,
{
}

/// A negative zero is `-0.0` that no digit and no exponent follows.
pub proof fn law_negative_zero_is_whole(text: Seq<u8>, at: int)
    requires
        0 <= at,
    ensures
        negative_zero(text, at) ==> {
            &&& text[at] as char == '-' && text[at + 1] as char == '0' && text[at + 2] as char
                == '.' && text[at + 3] as char == '0'
            &&& at + 4 < text.len() ==> text[at + 4] as char != 'e' && !('0' <= text[at + 4] as char
                <= '9')
        },
        at + 4 == text.len() && text[at] as char == '-' && text[at + 1] as char == '0' && text[at
            + 2] as char == '.' && text[at + 3] as char == '0' ==> negative_zero(text, at),
{
}

} // verus!
