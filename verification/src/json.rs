//! JSON objects as lists of plain fields.
use crate::number;
use crate::text;
use vstd::prelude::*;

verus! {

/// The value of a field, as far as it is read.
#[derive(Debug)]
pub enum Json {
    Text(String),
    /// A number: the bits of the nearest double, and the integer where it is an unsigned one.
    Number { bits: Option<u64>, unsigned: Option<u64> },
    Null,
    /// A truth value, a list or an object.
    Other,
}

pub enum JsonView {
    Text(Seq<char>),
    Number { bits: Option<u64>, unsigned: Option<u64> },
    Null,
    Other,
}

impl View for Json {
    type V = JsonView;

    open spec fn view(&self) -> JsonView {
        match self {
            Json::Text(s) => JsonView::Text(s@),
            Json::Number { bits, unsigned } => JsonView::Number {
                bits: *bits,
                unsigned: *unsigned,
            },
            Json::Null => JsonView::Null,
            Json::Other => JsonView::Other,
        }
    }
}

/// Fields by their views.
pub open spec fn fields(v: Seq<(String, Json)>) -> Seq<(Seq<char>, JsonView)> {
    v.map_values(|f: (String, Json)| (f.0@, f.1@))
}

/// The fields of the object that `serde_json` reads from a text, in their order; nothing where
/// the text is no JSON or no object.
pub uninterp spec fn json_object(text: Seq<char>) -> Option<Seq<(Seq<char>, JsonView)>>;

/// `serde_json::from_str` into a `serde_json::Value`, and the fields of the object that it holds. A key
/// that comes twice in the text stands there once, with its last value; the contract leaves that unsaid.
#[verifier::external_body]
pub(crate) fn read_object(s: &str) -> (r: Option<Vec<(String, Json)>>)
    ensures
        (match r {
            Some(v) => Some(fields(v@)),
            None => None,
        }) == json_object(s@),
{
    let value: serde_json::Value = serde_json::from_str(s).ok()?;
    let mut out = Vec::new();
    for (k, v) in value.as_object()? {
        let field = match v {
            serde_json::Value::String(t) => Json::Text(t.clone()),
            serde_json::Value::Number(n) => {
                Json::Number { bits: n.as_f64().map(|x| x.to_bits()), unsigned: n.as_u64() }
            },
            serde_json::Value::Null => Json::Null,
            serde_json::Value::Bool(_) => Json::Other,
            serde_json::Value::Array(_) | serde_json::Value::Object(_) => Json::Other,
        };
        out.push((k.clone(), field));
    }
    Some(out)
}

/// The value of the first field with this key.
pub open spec fn lookup(v: Seq<(Seq<char>, JsonView)>, key: Seq<char>) -> Option<JsonView>
    decreases v.len(),
{
    if v.len() == 0 {
        None
    } else if v[0].0 == key {
        Some(v[0].1)
    } else {
        lookup(v.drop_first(), key)
    }
}

pub proof fn lemma_lookup(v: Seq<(Seq<char>, JsonView)>, key: Seq<char>, i: int)
    requires
        0 <= i <= v.len(),
        i < v.len() ==> v[i].0 == key,
        forall|j: int| 0 <= j < i ==> (#[trigger] v[j]).0 != key,
    ensures
        lookup(v, key) == if i < v.len() {
            Some(v[i].1)
        } else {
            None
        },
    decreases v.len(),
{
    if i > 0 {
        assert(v[0].0 != key);
        let t = v.drop_first();
        assert forall|j: int| 0 <= j < i - 1 implies (#[trigger] t[j]).0 != key by {
            assert(t[j] == v[j + 1]);
        }
        lemma_lookup(t, key, i - 1);
    }
}

/// Finds a field by its key.
pub fn get<'a>(v: &'a Vec<(String, Json)>, key: &str) -> (r: Option<&'a Json>)
    ensures
        (match r {
            Some(j) => Some(j@),
            None => None,
        }) == lookup(fields(v@), key@),
{
    let mut i: usize = 0;
    while i < v.len()
        invariant
            i <= v@.len(),
            forall|j: int| 0 <= j < i ==> (#[trigger] fields(v@)[j]).0 != key@,
        decreases v@.len() - i,
    {
        assert(fields(v@)[i as int] == (v@[i as int].0@, v@[i as int].1@));
        if text::same(v[i].0.as_str(), key) {
            proof {
                lemma_lookup(fields(v@), key@, i as int);
            }
            return Some(&v[i].1);
        }
        i += 1;
    }
    proof {
        lemma_lookup(fields(v@), key@, i as int);
    }
    None
}

/// The value of a field that is written.
#[derive(Debug)]
pub enum Field {
    Text(String),
    /// A number, in decimal.
    Number(String),
    Null,
}

pub enum FieldView {
    Text(Seq<char>),
    Number(Seq<char>),
    Null,
}

impl View for Field {
    type V = FieldView;

    open spec fn view(&self) -> FieldView {
        match self {
            Field::Text(s) => FieldView::Text(s@),
            Field::Number(s) => FieldView::Number(s@),
            Field::Null => FieldView::Null,
        }
    }
}

/// Fields to write, by their views.
pub open spec fn field_views(v: Seq<(String, Field)>) -> Seq<(Seq<char>, FieldView)> {
    v.map_values(|f: (String, Field)| (f.0@, f.1@))
}

/// Whether no two fields share a key.
pub open spec fn distinct_keys(v: Seq<(Seq<char>, FieldView)>) -> bool {
    forall|i: int, j: int|
        0 <= i < j < v.len() ==> (#[trigger] v[i]).0 != (#[trigger] v[j]).0
}

/// Whether a field that is read is what a field that is written leaves: a text and a finite number
/// are read back as they are, and null, and what is no finite number, as null.
pub open spec fn reads_back(written: FieldView, read: JsonView) -> bool {
    read == match written {
        FieldView::Text(s) => JsonView::Text(s),
        FieldView::Null => JsonView::Null,
        FieldView::Number(s) => match number::float(s) {
            Some(d) => if d.finite() {
                JsonView::Number { bits: Some(d.bits), unsigned: None }
            } else {
                JsonView::Null
            },
            None => JsonView::Null,
        },
    }
}

/// Whether the first key is an ordinary one. A first key that begins with a dollar sign may be one by
/// which `serde_json` marks a value of its own.
pub open spec fn plain_first_key(v: Seq<(Seq<char>, FieldView)>) -> bool {
    v.len() > 0 && v[0].0.len() > 0 ==> v[0].0[0] != '$'
}

/// What `serde_json` writes for an object with these fields, in this order. A number is the double
/// nearest to its decimal text, and null where that is not finite.
pub uninterp spec fn json_text(v: Seq<(Seq<char>, FieldView)>) -> Seq<char>;

/// `serde_json::Value::to_string` on an object. What it writes, `serde_json::from_str` reads back to
/// the same fields in the same order, where no key comes twice and the first one is ordinary. A number
/// is the double that `f64::from_str` reads from its decimal text, written with a point or an exponent
/// in the shortest form that is that double; with the feature `float_roundtrip` it is read back as it
/// was.
#[verifier::external_body]
pub(crate) fn write_object(v: &Vec<(String, Field)>) -> (r: String)
    ensures
        r@ == json_text(field_views(v@)),
        distinct_keys(field_views(v@)) && plain_first_key(field_views(v@)) ==> json_object(
            r@,
        ) is Some && json_object(r@)->0.len() == v@.len() && forall|i: int|
            #![trigger json_object(r@)->0[i]]
            0 <= i < v@.len() ==> json_object(r@)->0[i].0 == v@[i].0@ && reads_back(
                v@[i].1@,
                json_object(r@)->0[i].1,
            ),
{
    let mut map = serde_json::Map::new();
    for (k, f) in v {
        let value = match f {
            Field::Text(s) => serde_json::Value::from(s.as_str()),
            Field::Number(s) => {
                serde_json::Value::from(s.parse().ok().and_then(serde_json::Number::from_f64))
            },
            Field::Null => serde_json::Value::Null,
        };
        map.insert(k.clone(), value);
    }
    serde_json::Value::Object(map).to_string()
}

/// A field is found under its key wherever there is one, and it is the first with that key.
pub proof fn law_lookup_is_the_first(v: Seq<(Seq<char>, JsonView)>, key: Seq<char>)
    ensures
        lookup(v, key) is None <==> forall|i: int| 0 <= i < v.len() ==> (#[trigger] v[i]).0 != key,
        lookup(v, key) is Some ==> exists|i: int|
            0 <= i < v.len() && #[trigger] v[i] == (key, lookup(v, key)->0) && forall|j: int|
                0 <= j < i ==> (#[trigger] v[j]).0 != key,
    decreases v.len(),
{
    if v.len() > 0 {
        if v[0].0 == key {
            assert(v[0] == (key, lookup(v, key)->0));
        } else {
            let t = v.drop_first();
            law_lookup_is_the_first(t, key);
            if lookup(t, key) is Some {
                let i = choose|i: int|
                    0 <= i < t.len() && #[trigger] t[i] == (key, lookup(t, key)->0) && forall|j: int|
                        0 <= j < i ==> (#[trigger] t[j]).0 != key;
                assert(v[i + 1] == t[i]);
                assert forall|j: int| 0 <= j < i + 1 implies (#[trigger] v[j]).0 != key by {
                    if j > 0 {
                        assert(v[j] == t[j - 1]);
                    }
                }
            } else {
                assert forall|i: int| 0 <= i < v.len() implies (#[trigger] v[i]).0 != key by {
                    if i > 0 {
                        assert(v[i] == t[i - 1]);
                    }
                }
            }
        }
    }
}

}
