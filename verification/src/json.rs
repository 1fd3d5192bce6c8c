//! JSON documents, as far as the crate reads and writes them.
use crate::text::{same, str_opt, text_opt, texts};
use vstd::prelude::*;
use vstd::string::*;

verus! {

/// A JSON value.
#[derive(Debug)]
pub enum Json {
    Null,
    Bool(bool),
    /// A whole number that fits a `u64`.
    Number(u64),
    /// Any other number: one below zero, or with a fraction or an exponent. It is
    /// carried through as the parser has it.
    OtherNumber(serde_json::Number),
    Text(String),
    List(Vec<Json>),
    /// The members of an object, in the order they are walked.
    Object(Vec<(String, Json)>),
}

/// What a JSON value says: the value with its texts and lists taken as sequences.
pub enum Doc {
    Null,
    Bool(bool),
    Number(u64),
    OtherNumber(serde_json::Number),
    Text(Seq<char>),
    List(Seq<Doc>),
    Object(Seq<(Seq<char>, Doc)>),
}

/// What `j` says.
pub open spec fn doc(j: Json) -> Doc
    decreases j,
{
    match j {
        Json::Null => Doc::Null,
        Json::Bool(b) => Doc::Bool(b),
        Json::Number(n) => Doc::Number(n),
        Json::OtherNumber(n) => Doc::OtherNumber(n),
        Json::Text(s) => Doc::Text(s@),
        Json::List(v) => Doc::List(docs(v@)),
        Json::Object(m) => Doc::Object(members(m@)),
    }
}

/// What each item of `v` says.
pub open spec fn docs(v: Seq<Json>) -> Seq<Doc>
    decreases v,
{
    if v.len() == 0 {
        Seq::empty()
    } else {
        docs(v.drop_last()).push(doc(v.last()))
    }
}

/// What each member in `m` is called and says.
pub open spec fn members(m: Seq<(String, Json)>) -> Seq<(Seq<char>, Doc)>
    decreases m,
{
    if m.len() == 0 {
        Seq::empty()
    } else {
        members(m.drop_last()).push((m.last().0@, doc(m.last().1)))
    }
}

impl View for Json {
    type V = Doc;

    open spec fn view(&self) -> Doc {
        doc(*self)
    }
}

/// The items keep their places.
pub proof fn lemma_docs(v: Seq<Json>)
    ensures
        docs(v).len() == v.len(),
        forall|i: int| 0 <= i < v.len() ==> (#[trigger] docs(v)[i]) == v[i]@,
    decreases v.len(),
{
    if v.len() > 0 {
        lemma_docs(v.drop_last());
    }
}

/// The members keep their places.
proof fn lemma_members(m: Seq<(String, Json)>)
    ensures
        members(m).len() == m.len(),
        forall|i: int|
            0 <= i < m.len() ==> (#[trigger] members(m)[i]).0 == m[i].0@ && members(m)[i].1
                == m[i].1@,
    decreases m.len(),
{
    if m.len() > 0 {
        lemma_members(m.drop_last());
    }
}

/// `serde_json::Value`: the tree that the JSON parser builds.
#[verifier::external_type_specification]
#[verifier::external_body]
pub struct ExValue(serde_json::Value);

/// `serde_json::Number`: a number as the JSON parser has it.
#[verifier::external_type_specification]
#[verifier::external_body]
pub struct ExNumber(serde_json::Number);

/// `Number::clone`: the same number once more.
#[verifier::external_body]
fn copy_number(n: &serde_json::Number) -> (r: serde_json::Number)
    ensures
        r == *n,
{
    n.clone()
}

/// What the parser makes of a text: a value, or what it has against it.
pub uninterp spec fn json_read(text: Seq<char>) -> Result<Doc, Seq<char>>;

/// What the parser makes of a text: a value, or nothing when it is not JSON.
pub open spec fn json_in(text: Seq<char>) -> Option<Doc> {
    match json_read(text) {
        Ok(d) => Some(d),
        Err(_) => None,
    }
}

/// What the parser makes of a run of bytes.
pub uninterp spec fn json_in_bytes(bytes: Seq<u8>) -> Option<Doc>;

/// How a value is written on one line.
pub uninterp spec fn json_text(value: Doc) -> Seq<char>;

/// What an optional value says.
pub open spec fn doc_opt(j: Option<Json>) -> Option<Doc> {
    match j {
        Some(v) => Some(v@),
        None => None,
    }
}

/// Moves what a `serde_json::Value` holds into a [`Json`] of the same shape.
#[verifier::external_body]
fn from_value(v: serde_json::Value) -> Json {
    match v {
        serde_json::Value::Null => Json::Null,
        serde_json::Value::Bool(b) => Json::Bool(b),
        serde_json::Value::Number(n) => n.as_u64().map_or(Json::OtherNumber(n), Json::Number),
        serde_json::Value::String(s) => Json::Text(s),
        serde_json::Value::Array(a) => Json::List(a.into_iter().map(from_value).collect()),
        serde_json::Value::Object(m) => {
            Json::Object(m.into_iter().map(|(k, x)| (k, from_value(x))).collect())
        },
    }
}

/// Copies what a [`Json`] holds into a `serde_json::Value` of the same shape.
#[verifier::external_body]
fn to_value(j: &Json) -> serde_json::Value {
    match j {
        Json::Null => serde_json::Value::Null,
        Json::Bool(b) => serde_json::Value::Bool(*b),
        Json::Number(n) => serde_json::Value::from(*n),
        Json::OtherNumber(n) => serde_json::Value::Number(n.clone()),
        Json::Text(s) => serde_json::Value::String(s.clone()),
        Json::List(a) => serde_json::Value::Array(a.iter().map(to_value).collect()),
        Json::Object(m) => {
            serde_json::Value::Object(m.iter().map(|(k, x)| (k.clone(), to_value(x))).collect())
        },
    }
}

/// `serde_json::from_str` into a `Value`. The result is named, what the parser
/// has against a text as well; it depends on the text alone.
#[verifier::external_body]
pub(crate) fn parse(text: &str) -> (r: Result<Json, String>)
    ensures
        json_read(text@) == (match r {
            Ok(v) => Ok::<Doc, Seq<char>>(v@),
            Err(e) => Err::<Doc, Seq<char>>(e@),
        }),
{
    match serde_json::from_str::<serde_json::Value>(text) {
        Ok(v) => Ok(from_value(v)),
        Err(e) => Err(e.to_string()),
    }
}

/// `serde_json::from_slice` into a `Value`. The result is named; it depends on
/// the bytes alone.
#[verifier::external_body]
pub(crate) fn parse_bytes(bytes: &[u8]) -> (r: Option<Json>)
    ensures
        doc_opt(r) == json_in_bytes(bytes@),
{
    match serde_json::from_slice::<serde_json::Value>(bytes) {
        Ok(v) => Some(from_value(v)),
        Err(_) => None,
    }
}

/// `Value::to_string`, which writes a value in the compact form. The result is
/// named; that it stays on one line is claimed as well, because the compact form
/// puts no line break between values and writes one inside a text as `\n`.
#[verifier::external_body]
pub(crate) fn render(value: &Json) -> (r: String)
    ensures
        r@ == json_text(value@),
        forall|i: int| 0 <= i < r@.len() ==> r@[i] != '\n',
{
    to_value(value).to_string()
}

/// The value of the first member called `k`.
pub open spec fn member(m: Seq<(Seq<char>, Doc)>, k: Seq<char>) -> Option<Doc>
    decreases m.len(),
{
    if m.len() == 0 {
        None
    } else if m[0].0 == k {
        Some(m[0].1)
    } else {
        member(m.drop_first(), k)
    }
}

/// The characters of a value that is a text.
pub open spec fn text_in(d: Option<Doc>) -> Option<Seq<char>> {
    match d {
        Some(Doc::Text(s)) => Some(s),
        _ => None,
    }
}

/// The truth value of a value that is one.
pub open spec fn flag_in(d: Option<Doc>) -> Option<bool> {
    match d {
        Some(Doc::Bool(b)) => Some(b),
        _ => None,
    }
}

/// The value of a number that fits a `u64`.
pub open spec fn count_in(d: Option<Doc>) -> Option<u64> {
    match d {
        Some(Doc::Number(n)) => Some(n),
        _ => None,
    }
}

/// The items of a value that is a list.
pub open spec fn list_in(d: Option<Doc>) -> Option<Seq<Doc>> {
    match d {
        Some(Doc::List(v)) => Some(v),
        _ => None,
    }
}

/// The member called `k` of a value that is an object.
pub open spec fn field_in(d: Option<Doc>, k: Seq<char>) -> Option<Doc> {
    match d {
        Some(Doc::Object(m)) => member(m, k),
        _ => None,
    }
}

/// What an optional borrowed value says.
pub open spec fn value_opt(j: Option<&Json>) -> Option<Doc> {
    match j {
        Some(v) => Some(v@),
        None => None,
    }
}

/// The member called `k`, when `j` is an object that has one.
pub fn field<'a>(j: Option<&'a Json>, k: &str) -> (r: Option<&'a Json>)
    ensures
        value_opt(r) == field_in(value_opt(j), k@),
{
    match j {
        Some(Json::Object(m)) => {
            let mut i: usize = 0;
            let ghost d = members(m@);
            proof {
                lemma_members(m@);
                assert(d.skip(0) == d);
            }
            while i < m.len()
                invariant
                    i <= m@.len(),
                    d == members(m@),
                    j == Some(&Json::Object(*m)),
                    member(d, k@) == member(d.skip(i as int), k@),
                decreases m@.len() - i,
            {
                proof {
                    lemma_members(m@);
                }
                if same(m[i].0.as_str(), k) {
                    return Some(&m[i].1);
                }
                assert(d.skip(i as int).drop_first() == d.skip(i + 1));
                i = i + 1;
            }
            proof {
                lemma_members(m@);
            }
            None
        },
        _ => None,
    }
}

/// The text, when `j` is one.
pub fn text<'a>(j: Option<&'a Json>) -> (r: Option<&'a str>)
    ensures
        str_opt(r) == text_in(value_opt(j)),
{
    match j {
        Some(Json::Text(s)) => Some(s.as_str()),
        _ => None,
    }
}

/// The truth value, when `j` is one.
pub fn flag(j: Option<&Json>) -> (r: Option<bool>)
    ensures
        r == flag_in(value_opt(j)),
{
    match j {
        Some(Json::Bool(b)) => Some(*b),
        _ => None,
    }
}

/// The number, when `j` is one that fits a `u64`.
pub fn count(j: Option<&Json>) -> (r: Option<u64>)
    ensures
        r == count_in(value_opt(j)),
{
    match j {
        Some(Json::Number(n)) => Some(*n),
        _ => None,
    }
}

/// The items, when `j` is a list.
pub fn list<'a>(j: Option<&'a Json>) -> (r: Option<&'a Vec<Json>>)
    ensures
        match r {
            Some(v) => list_in(value_opt(j)) == Some(docs(v@)),
            None => list_in(value_opt(j)) is None,
        },
{
    match j {
        Some(Json::List(v)) => Some(v),
        _ => None,
    }
}

// ---------------------------------------------------------------------------
// Building values
// ---------------------------------------------------------------------------

/// An optional text as a value: null when there is none.
pub open spec fn text_or_null(t: Option<Seq<char>>) -> Doc {
    match t {
        Some(s) => Doc::Text(s),
        None => Doc::Null,
    }
}

/// A whole number as a value.
pub open spec fn number_doc(n: nat) -> Doc {
    Doc::Number(n as u64)
}

/// An optional whole number as a value: null when there is none.
pub open spec fn number_or_null(n: Option<u64>) -> Doc {
    match n {
        Some(x) => number_doc(x as nat),
        None => Doc::Null,
    }
}

/// A list of texts as a value.
pub open spec fn texts_doc(v: Seq<Seq<char>>) -> Doc {
    Doc::List(Seq::new(v.len(), |i: int| Doc::Text(v[i])))
}

/// A text as a value.
pub fn text_json(s: &str) -> (r: Json)
    ensures
        r@ == Doc::Text(s@),
{
    Json::Text(s.to_owned())
}

/// An optional text as a value.
pub fn opt_text_json(s: &Option<String>) -> (r: Json)
    ensures
        r@ == text_or_null(text_opt(*s)),
{
    match s {
        Some(t) => text_json(t.as_str()),
        None => Json::Null,
    }
}

/// A whole number as a value.
pub fn number_json(n: u64) -> (r: Json)
    ensures
        r@ == number_doc(n as nat),
{
    Json::Number(n)
}

/// An optional whole number as a value.
pub fn opt_number_json(n: Option<u64>) -> (r: Json)
    ensures
        r@ == number_or_null(n),
{
    match n {
        Some(x) => number_json(x),
        None => Json::Null,
    }
}

/// A list of texts as a value.
pub fn texts_json(v: &Vec<String>) -> (r: Json)
    ensures
        r@ == texts_doc(texts(v@)),
{
    let mut items: Vec<Json> = Vec::new();
    let mut i: usize = 0;
    while i < v.len()
        invariant
            i <= v@.len(),
            docs(items@) == Seq::new(i as nat, |j: int| Doc::Text(v@[j]@)),
        decreases v@.len() - i,
    {
        add_item(&mut items, text_json(v[i].as_str()));
        assert(docs(items@) == Seq::new((i + 1) as nat, |j: int| Doc::Text(v@[j]@)));
        i = i + 1;
    }
    assert(Seq::new(v@.len(), |j: int| Doc::Text(v@[j]@)) == Seq::new(
        texts(v@).len(),
        |j: int| Doc::Text(texts(v@)[j]),
    ));
    Json::List(items)
}

/// Put a member behind those that are there.
pub fn add_member(m: &mut Vec<(String, Json)>, k: &str, v: Json)
    ensures
        members(final(m)@) == members(old(m)@).push((k@, v@)),
{
    let ghost before = m@;
    m.push((k.to_owned(), v));
    assert(m@.drop_last() == before);
}

/// Put an item behind those that are there.
pub fn add_item(v: &mut Vec<Json>, x: Json)
    ensures
        docs(final(v)@) == docs(old(v)@).push(x@),
{
    let ghost before = v@;
    v.push(x);
    assert(v@.drop_last() == before);
}

impl Json {
    /// The same value once more.
    pub fn copy(&self) -> (r: Json)
        ensures
            r@ == self@,
        decreases *self,
    {
        match self {
            Json::Null => Json::Null,
            Json::Bool(b) => Json::Bool(*b),
            Json::Number(n) => Json::Number(*n),
            Json::OtherNumber(n) => Json::OtherNumber(copy_number(n)),
            Json::Text(s) => Json::Text(s.clone()),
            Json::List(v) => {
                let mut out: Vec<Json> = Vec::new();
                let mut i: usize = 0;
                while i < v.len()
                    invariant
                        i <= v@.len(),
                        *self == Json::List(*v),
                        docs(out@) == docs(v@.take(i as int)),
                    decreases v@.len() - i,
                {
                    assert(v@.take(i + 1).drop_last() == v@.take(i as int));
                    assert(decreases_to!(*self => self->List_0));
                    assert(decreases_to!(self->List_0 => v@));
                    assert(decreases_to!(v@ => v@[i as int]));
                    add_item(&mut out, v[i].copy());
                    i = i + 1;
                }
                assert(v@.take(i as int) == v@);
                Json::List(out)
            },
            Json::Object(m) => {
                let mut out: Vec<(String, Json)> = Vec::new();
                let mut i: usize = 0;
                while i < m.len()
                    invariant
                        i <= m@.len(),
                        *self == Json::Object(*m),
                        members(out@) == members(m@.take(i as int)),
                    decreases m@.len() - i,
                {
                    assert(m@.take(i + 1).drop_last() == m@.take(i as int));
                    assert(decreases_to!(*self => self->Object_0));
                    assert(decreases_to!(self->Object_0 => m@));
                    assert(decreases_to!(m@ => m@[i as int]));
                    assert(decreases_to!(m@[i as int] => m@[i as int].1));
                    add_member(&mut out, m[i].0.as_str(), m[i].1.copy());
                    i = i + 1;
                }
                assert(m@.take(i as int) == m@);
                Json::Object(out)
            },
        }
    }
}

/// A member is found by its name where none before it is called the same.
pub proof fn law_a_member_is_found_by_its_name(m: Seq<(Seq<char>, Doc)>, i: int)
    requires
        0 <= i < m.len(),
        forall|j: int| 0 <= j < i ==> (#[trigger] m[j]).0 != m[i].0,
    ensures
        member(m, m[i].0) == Some(m[i].1),
    decreases i,
{
    if i > 0 {
        assert(m[0].0 != m[i].0);
        let rest = m.drop_first();
        assert forall|j: int| 0 <= j < i - 1 implies (#[trigger] rest[j]).0 != rest[i - 1].0 by {
            assert(rest[j] == m[j + 1]);
        }
        law_a_member_is_found_by_its_name(rest, i - 1);
    }
}

/// A member that nothing is called is not found.
pub proof fn law_what_has_no_member(m: Seq<(Seq<char>, Doc)>, k: Seq<char>)
    requires
        forall|j: int| 0 <= j < m.len() ==> (#[trigger] m[j]).0 != k,
    ensures
        member(m, k) is None,
    decreases m.len(),
{
    if m.len() > 0 {
        assert(m[0].0 != k);
        let rest = m.drop_first();
        assert forall|j: int| 0 <= j < rest.len() implies (#[trigger] rest[j]).0 != k by {
            assert(rest[j] == m[j + 1]);
        }
        law_what_has_no_member(rest, k);
    }
}


/// A value is read as what it is, and as nothing else.
pub proof fn law_values_are_read_as_what_they_are(
    s: Seq<char>,
    b: bool,
    n: u64,
    v: Seq<Doc>,
    m: Seq<(Seq<char>, Doc)>,
    k: Seq<char>,
)
    ensures
        text_in(Some(Doc::Text(s))) == Some(s),
        flag_in(Some(Doc::Bool(b))) == Some(b),
        count_in(Some(Doc::Number(n))) == Some(n),
        list_in(Some(Doc::List(v))) == Some(v),
        field_in(Some(Doc::Object(m)), k) == member(m, k),
        text_in(None) is None && flag_in(None) is None && count_in(None) is None && list_in(None) is None,
        text_in(Some(Doc::Number(n))) is None && text_in(Some(Doc::Bool(b))) is None,
        text_in(Some(Doc::Null)) is None && text_in(Some(Doc::List(v))) is None,
        flag_in(Some(Doc::Text(s))) is None && flag_in(Some(Doc::Number(n))) is None,
        count_in(Some(Doc::Text(s))) is None && count_in(Some(Doc::Bool(b))) is None,
        list_in(Some(Doc::Object(m))) is None && list_in(Some(Doc::Text(s))) is None,
        field_in(Some(Doc::List(v)), k) is None && field_in(Some(Doc::Text(s)), k) is None,
        field_in(None, k) is None,
{
}

/// What is built says what it was built of.
pub proof fn law_values_are_built_of_what_they_say(s: Seq<char>, n: u64, v: Seq<Seq<char>>, i: int)
    ensures
        text_or_null(Some(s)) == Doc::Text(s),
        text_or_null(None) == Doc::Null,
        number_doc(n as nat) == Doc::Number(n),
        number_or_null(Some(n)) == Doc::Number(n),
        number_or_null(None) == Doc::Null,
        texts_doc(v) is List,
        texts_doc(v)->List_0.len() == v.len(),
        0 <= i < v.len() ==> texts_doc(v)->List_0[i] == Doc::Text(v[i]),
{
}

} // verus!
