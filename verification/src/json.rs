//! JSON documents: read from bytes, looked into, written to bytes.
//!
//! The reading and the writing are serde_json's. What this library looks
//! into is a document of its own, [`Json`], which keeps of a document what
//! the protocol asks for.

use crate::table;
use crate::text;
use serde_json::Value;
use vstd::prelude::*;
use vstd::string::*;
use vstd::utf8;

verus! {

/// What a JSON document says: a text, a whole number that fits 64 bits
/// without a sign, a list, named fields, or anything else: `null`, a
/// truth value, a number of another kind.
pub enum Tree {
    Text(Seq<char>),
    Number(u64),
    Array(Seq<Tree>),
    Object(Map<Seq<char>, Tree>),
    Other,
}

/// How deep lists and objects may stand in one another for a document that
/// was written to be read back.
pub const DEEPEST: u8 = 127;

impl Tree {
    /// The field `name`, where this is an object that has it.
    pub open spec fn field(self, name: Seq<char>) -> Option<Tree> {
        match self {
            Tree::Object(fields) => if fields.contains_key(name) {
                Some(fields[name])
            } else {
                None
            },
            _ => None,
        }
    }

    /// Whether this is an object that has a field.
    pub open spec fn has_fields(self) -> bool {
        self matches Tree::Object(fields) && fields != Map::<Seq<char>, Tree>::empty()
    }

    /// This object with the field `name` set to `value`.
    pub open spec fn with(self, name: Seq<char>, value: Tree) -> Tree {
        match self {
            Tree::Object(fields) => Tree::Object(fields.insert(name, value)),
            _ => Tree::Other,
        }
    }

    /// Whether this can be written: nothing in it is [`Tree::Other`], and
    /// no more than `depth` lists and objects stand in one another.
    pub open spec fn writable(self, depth: nat) -> bool
        decreases depth,
    {
        match self {
            Tree::Text(_) => true,
            Tree::Number(_) => true,
            Tree::Array(items) => depth > 0 && forall|i: int|
                0 <= i < items.len() ==> (#[trigger] items[i]).writable((depth - 1) as nat),
            Tree::Object(fields) => depth > 0 && forall|name: Seq<char>| #[trigger]
                fields.contains_key(name) ==> fields[name].writable((depth - 1) as nat),
            Tree::Other => false,
        }
    }
}

/// An object with no field.
pub open spec fn no_fields() -> Tree {
    Tree::Object(Map::empty())
}

/// A list of texts.
pub open spec fn text_list(texts: Seq<Seq<char>>) -> Tree {
    Tree::Array(texts.map_values(|text: Seq<char>| Tree::Text(text)))
}

/// What bytes are read as: what the document says, or why they are none.
pub type Reading = Result<Tree, Seq<char>>;

/// The text of a field that may be missing or be no text: then it is empty.
pub open spec fn text_or_empty(field: Option<Tree>) -> Seq<char> {
    match field {
        Some(Tree::Text(text)) => text,
        _ => Seq::empty(),
    }
}

/// A JSON document. Of two fields with one name the later counts.
pub enum Json {
    Text(String),
    Number(u64),
    Array(Vec<Json>),
    Object(Vec<(String, Json)>),
    Other,
}

/// What `json` says.
pub open spec fn said(json: Json) -> Tree
    decreases json,
{
    match json {
        Json::Text(text) => Tree::Text(text@),
        Json::Number(number) => Tree::Number(number),
        Json::Array(items) => Tree::Array(said_each(items@)),
        Json::Object(fields) => Tree::Object(table::gathered(said_fields(fields@))),
        Json::Other => Tree::Other,
    }
}

/// What each of `items` says.
pub open spec fn said_each(items: Seq<Json>) -> Seq<Tree>
    decreases items,
{
    Seq::new(
        items.len(),
        |i: int|
            if 0 <= i < items.len() {
                said(items[i])
            } else {
                Tree::Other
            },
    )
}

/// What each of `fields` says, under its name.
pub open spec fn said_fields(fields: Seq<(String, Json)>) -> Seq<(Seq<char>, Tree)>
    decreases fields,
{
    Seq::new(
        fields.len(),
        |i: int|
            if 0 <= i < fields.len() {
                (fields[i].0@, said(fields[i].1))
            } else {
                (Seq::empty(), Tree::Other)
            },
    )
}

impl Json {
    /// Whether this can be written: nothing in it is [`Json::Other`], and
    /// no more than `depth` lists and objects stand in one another.
    pub open spec fn writable(self, depth: nat) -> bool
        decreases depth,
    {
        match self {
            Json::Text(_) => true,
            Json::Number(_) => true,
            Json::Array(items) => depth > 0 && forall|i: int|
                0 <= i < items@.len() ==> (#[trigger] items@[i]).writable((depth - 1) as nat),
            Json::Object(fields) => depth > 0 && forall|i: int|
                0 <= i < fields@.len() ==> (#[trigger] fields@[i]).1.writable((depth - 1) as nat),
            Json::Other => false,
        }
    }

    /// What can be written says what can be written.
    pub proof fn lemma_writable(self, depth: nat)
        requires
            self.writable(depth),
        ensures
            self@.writable(depth),
        decreases depth,
    {
        match self {
            Json::Array(items) => {
                let trees = said_each(items@);
                assert forall|i: int| 0 <= i < trees.len() implies (#[trigger] trees[i]).writable(
                    (depth - 1) as nat,
                ) by {
                    items@[i].lemma_writable((depth - 1) as nat);
                }
            },
            Json::Object(fields) => {
                let pairs = said_fields(fields@);
                assert forall|i: int| 0 <= i < pairs.len() implies (#[trigger] pairs[i]).1.writable(
                    (depth - 1) as nat,
                ) by {
                    fields@[i].1.lemma_writable((depth - 1) as nat);
                }
                lemma_gathered_writable(pairs, (depth - 1) as nat);
            },
            _ => {},
        }
    }
}

/// Fields that can be written make an object with fields that can.
proof fn lemma_gathered_writable(pairs: Seq<(Seq<char>, Tree)>, depth: nat)
    requires
        forall|i: int| 0 <= i < pairs.len() ==> (#[trigger] pairs[i]).1.writable(depth),
    ensures
        forall|name: Seq<char>| #[trigger]
            table::gathered(pairs).contains_key(name) ==> table::gathered(pairs)[name].writable(depth),
    decreases pairs.len(),
{
    if pairs.len() > 0 {
        let fewer = pairs.drop_last();
        assert forall|i: int| 0 <= i < fewer.len() implies (#[trigger] fewer[i]).1.writable(depth) by {
            assert(fewer[i] == pairs[i]);
        }
        lemma_gathered_writable(fewer, depth);
        assert(pairs[pairs.len() - 1].1.writable(depth));
        assert forall|name: Seq<char>| #[trigger]
            table::gathered(pairs).contains_key(name) implies table::gathered(pairs)[name].writable(depth) by {
            if name != pairs.last().0 {
                assert(table::gathered(fewer).contains_key(name));
            }
        }
    }
}

impl Json {
    /// An object with no field.
    pub fn object() -> (json: Json)
        ensures
            json@ == no_fields(),
            json is Object,
            forall|depth: nat| depth > 0 ==> #[trigger] json.writable(depth),
    {
        let fields: Vec<(String, Json)> = Vec::new();
        assert(table::gathered(said_fields(fields@)) == Map::<Seq<char>, Tree>::empty());
        Json::Object(fields)
    }

    /// This object with the field `name` set to `value`.
    pub fn with(self, name: &str, value: Json) -> (json: Json)
        requires
            self is Object,
        ensures
            json is Object,
            json@ == self@.with(name@, value@),
            forall|depth: nat|
                depth > 0 && self.writable(depth) && value.writable((depth - 1) as nat)
                    ==> #[trigger] json.writable(depth),
    {
        match self {
            Json::Object(fields) => {
                let mut fields = fields;
                let ghost before = fields@;
                fields.push((name.to_string(), value));
                proof {
                    assert(said_fields(fields@).drop_last() == said_fields(before));
                    let json = Json::Object(fields);
                    assert forall|depth: nat|
                        depth > 0 && self.writable(depth) && value.writable(
                            (depth - 1) as nat,
                        ) implies #[trigger] json.writable(depth) by {
                        assert forall|i: int| 0 <= i < fields@.len() implies (
                        #[trigger] fields@[i]).1.writable((depth - 1) as nat) by {
                            if i < before.len() {
                                assert(fields@[i] == before[i]);
                            }
                        }
                    }
                }
                Json::Object(fields)
            },
            other => other,
        }
    }

    /// A list of texts.
    pub fn texts(texts: &[String]) -> (json: Json)
        ensures
            json@ == text_list(texts@.map_values(|text: String| text@)),
            forall|depth: nat| depth > 0 ==> #[trigger] json.writable(depth),
    {
        let mut items: Vec<Json> = Vec::new();
        while items.len() < texts.len()
            invariant
                items.len() <= texts.len(),
                forall|i: int|
                    0 <= i < items.len() ==> (#[trigger] items@[i]) is Text && said(items@[i])
                        == Tree::Text(texts@[i]@),
            decreases texts.len() - items.len(),
        {
            let at: usize = items.len();
            items.push(Json::Text(texts[at].clone()));
        }
        proof {
            let views = texts@.map_values(|text: String| text@);
            assert(said_each(items@) == views.map_values(|text: Seq<char>| Tree::Text(text)));
            let json = Json::Array(items);
            assert forall|depth: nat| depth > 0 implies #[trigger] json.writable(depth) by {
                assert forall|i: int| 0 <= i < items@.len() implies (#[trigger] items@[i]).writable(
                    (depth - 1) as nat,
                ) by {}
            }
        }
        Json::Array(items)
    }

    /// The field `name`, where this is an object that has it.
    pub fn field(&self, name: &str) -> (field: Option<&Json>)
        ensures
            match field {
                Some(field) => self@.field(name@) == Some(field@),
                None => self@.field(name@) is None,
            },
    {
        match self {
            Json::Object(fields) => {
                let ghost pairs = said_fields(fields@);
                let mut left: usize = fields.len();
                assert(pairs.take(pairs.len() as int) == pairs);
                while left > 0
                    invariant
                        left <= fields.len(),
                        self@ == Tree::Object(table::gathered(pairs)),
                        pairs == said_fields(fields@),
                        table::gathered(pairs).contains_key(name@) == table::gathered(
                            pairs.take(left as int),
                        ).contains_key(name@),
                        table::gathered(pairs)[name@] == table::gathered(pairs.take(left as int))[name@],
                    decreases left,
                {
                    assert(pairs.take(left as int).drop_last() == pairs.take(left - 1));
                    assert(pairs.take(left as int).last() == pairs[left - 1]);
                    if text::same(fields[left - 1].0.as_str(), name) {
                        return Some(&fields[left - 1].1);
                    }
                    left = left - 1;
                }
                None
            },
            _ => None,
        }
    }

    /// The text, where this is one.
    pub fn as_str(&self) -> (text: Option<&str>)
        ensures
            match text {
                Some(text) => self@ == Tree::Text(text@),
                None => !(self@ is Text),
            },
    {
        match self {
            Json::Text(text) => Some(text.as_str()),
            _ => None,
        }
    }

    /// The number, where this is one.
    pub fn as_u64(&self) -> (number: Option<u64>)
        ensures
            match number {
                Some(number) => self@ == Tree::Number(number),
                None => !(self@ is Number),
            },
    {
        match self {
            Json::Number(number) => Some(*number),
            _ => None,
        }
    }

    /// The items, where this is a list.
    pub fn as_array(&self) -> (items: Option<&Vec<Json>>)
        ensures
            match items {
                Some(items) => self@ == Tree::Array(said_each(items@)),
                None => !(self@ is Array),
            },
    {
        match self {
            Json::Array(items) => Some(items),
            _ => None,
        }
    }

    /// Whether this is an object that has a field.
    pub fn has_fields(&self) -> (yes: bool)
        ensures
            yes == self@.has_fields(),
    {
        match self {
            Json::Object(fields) => {
                proof {
                    let pairs = said_fields(fields@);
                    table::lemma_gathered_keys(pairs);
                    if pairs.len() > 0 {
                        assert(table::gathered(pairs).contains_key(pairs[0].0));
                    }
                }
                fields.len() > 0
            },
            _ => false,
        }
    }

    /// The text of the field `name`, empty where it is missing or no text.
    pub fn text_of(&self, name: &str) -> (text: &str)
        ensures
            text@ == text_or_empty(self@.field(name@)),
    {
        proof {
            reveal_strlit("");
        }
        match self.field(name) {
            Some(field) => match field.as_str() {
                Some(text) => text,
                None => "",
            },
            None => "",
        }
    }
}

impl View for Json {
    type V = Tree;

    open spec fn view(&self) -> Tree {
        said(*self)
    }
}

/// serde_json's document. What stands in one is [`tree`].
#[verifier::external_type_specification]
#[verifier::external_body]
pub struct ExValue(serde_json::Value);

/// What a document of serde_json holds: `String`, `Array` and `Object` by
/// what stands in them, a `Number` by what `as_u64` makes of it, and
/// `Null`, `Bool` and every other `Number` as [`Tree::Other`].
pub uninterp spec fn tree(value: Value) -> Tree;

/// What `serde_json::from_slice` reads from `bytes` as a document: what it
/// holds, or the text of the error.
pub uninterp spec fn json_decoded(bytes: Seq<u8>) -> Reading;

/// How serde_json writes a document that holds `tree`, compactly.
pub uninterp spec fn json_rendered(tree: Tree) -> Seq<char>;

/// `serde_json::from_slice::<Value>`, the error by the text it shows. What
/// it reads depends on the bytes alone and is named [`json_decoded`].
#[verifier::external_body]
fn value_from_slice(bytes: &[u8]) -> (read: Result<Value, String>)
    ensures
        match read {
            Ok(value) => json_decoded(bytes@) == Reading::Ok(tree(value)),
            Err(why) => json_decoded(bytes@) == Reading::Err(why@),
        },
{
    serde_json::from_slice::<Value>(bytes).map_err(|e| e.to_string())
}

/// `Value::as_str`: the text, where the document is one.
#[verifier::external_body]
fn value_as_str(value: &Value) -> (text: Option<&str>)
    ensures
        match text {
            Some(text) => tree(*value) == Tree::Text(text@),
            None => !(tree(*value) is Text),
        },
{
    value.as_str()
}

/// `Value::as_u64`: the number, where the document is a whole one that fits
/// 64 bits without a sign.
#[verifier::external_body]
fn value_as_u64(value: &Value) -> (number: Option<u64>)
    ensures
        match number {
            Some(number) => tree(*value) == Tree::Number(number),
            None => !(tree(*value) is Number),
        },
{
    value.as_u64()
}

/// `Value::as_array`: the items, where the document is a list.
#[verifier::external_body]
fn value_as_array(value: &Value) -> (items: Option<&Vec<Value>>)
    ensures
        match items {
            Some(items) => tree(*value) == Tree::Array(
                items@.map_values(|item: Value| tree(item)),
            ),
            None => !(tree(*value) is Array),
        },
{
    value.as_array()
}

/// `Value::as_object` and `Map::iter`: the fields, each under a name of its
/// own, where the document is an object.
#[verifier::external_body]
fn value_fields(value: &Value) -> (fields: Option<Vec<(&String, &Value)>>)
    ensures
        match fields {
            Some(fields) => {
                let pairs = fields@.map_values(|field: (&String, &Value)| (field.0@, tree(*field.1)));
                table::keys_differ(pairs) && tree(*value) == Tree::Object(table::gathered(pairs))
            },
            None => !(tree(*value) is Object),
        },
{
    value.as_object().map(|fields| fields.iter().collect())
}

/// `Value::String`: a document that is one text.
#[verifier::external_body]
fn value_from_text(text: String) -> (value: Value)
    ensures
        tree(value) == Tree::Text(text@),
{
    Value::String(text)
}

/// `Value::from`: a document that is one number.
#[verifier::external_body]
fn value_from_number(number: u64) -> (value: Value)
    ensures
        tree(value) == Tree::Number(number),
{
    Value::from(number)
}

/// `Value::Array`: a document that is a list of documents.
#[verifier::external_body]
fn value_from_items(items: Vec<Value>) -> (value: Value)
    ensures
        tree(value) == Tree::Array(items@.map_values(|item: Value| tree(item))),
{
    Value::Array(items)
}

/// `Value::Object` of `Map::new`: a document with no field.
#[verifier::external_body]
fn value_without_fields() -> (value: Value)
    ensures
        tree(value) == Tree::Object(Map::<Seq<char>, Tree>::empty()),
{
    Value::Object(serde_json::Map::new())
}

/// Assignment through the index of `Value`: an object with the field `name`
/// set, whether it had it or not.
#[verifier::external_body]
fn value_set_field(value: &mut Value, name: &str, field: Value)
    requires
        tree(*old(value)) is Object,
    ensures
        tree(*final(value)) == Tree::Object(
            tree(*old(value))->Object_0.insert(name@, tree(field)),
        ),
{
    value[name] = field;
}

/// `to_string` of `Value`: the document written compactly, which depends on
/// what it holds alone and is named [`json_rendered`], and which
/// `serde_json::from_slice` reads back as what it holds.
#[verifier::external_body]
fn value_to_string(value: &Value) -> (text: String)
    requires
        tree(*value).writable(DEEPEST as nat),
    ensures
        text@ == json_rendered(tree(*value)),
        json_decoded(utf8::encode_utf8(text@)) == Reading::Ok(tree(*value)),
{
    value.to_string()
}

/// The document that `value` holds.
fn from_value(value: &Value) -> (json: Json)
    ensures
        json@ == tree(*value),
    decreases tree(*value),
{
    let ghost whole = tree(*value);
    if let Some(text) = value_as_str(value) {
        return Json::Text(text.to_string());
    }
    if let Some(number) = value_as_u64(value) {
        return Json::Number(number);
    }
    if let Some(items) = value_as_array(value) {
        let ghost trees = items@.map_values(|item: Value| tree(item));
        let mut read: Vec<Json> = Vec::new();
        while read.len() < items.len()
            invariant
                read.len() <= items.len(),
                whole == tree(*value),
                whole == Tree::Array(trees),
                trees == items@.map_values(|item: Value| tree(item)),
                forall|i: int| 0 <= i < read.len() ==> said(#[trigger] read@[i]) == trees[i],
            decreases items.len() - read.len(),
        {
            let at: usize = read.len();
            assert(trees[at as int] == tree(items@[at as int]));
            assert(decreases_to!(whole => whole->Array_0));
            assert(decreases_to!(trees => trees[at as int]));
            let item = from_value(&items[at]);
            read.push(item);
        }
        assert(said_each(read@) == trees);
        return Json::Array(read);
    }
    if let Some(fields) = value_fields(value) {
        let ghost pairs = fields@.map_values(
            |field: (&String, &Value)| (field.0@, tree(*field.1)),
        );
        let mut read: Vec<(String, Json)> = Vec::new();
        while read.len() < fields.len()
            invariant
                read.len() <= fields.len(),
                whole == tree(*value),
                whole == Tree::Object(table::gathered(pairs)),
                table::keys_differ(pairs),
                pairs == fields@.map_values(
                    |field: (&String, &Value)| (field.0@, tree(*field.1)),
                ),
                forall|i: int|
                    0 <= i < read.len() ==> (#[trigger] read@[i]).0@ == pairs[i].0 && said(read@[i].1)
                        == pairs[i].1,
            decreases fields.len() - read.len(),
        {
            let at: usize = read.len();
            proof {
                table::lemma_gathered_keys(pairs);
                table::lemma_gathered_values(pairs);
                assert(pairs[at as int] == (fields@[at as int].0@, tree(*fields@[at as int].1)));
                assert(decreases_to!(whole => whole->Object_0));
                assert(decreases_to!(table::gathered(pairs) => table::gathered(pairs)[pairs[at as int].0]));
            }
            let (name, field) = fields[at];
            let field = from_value(field);
            read.push((name.clone(), field));
        }
        assert(said_fields(read@) == pairs);
        return Json::Object(read);
    }
    Json::Other
}

/// `json` as a document of serde_json.
fn into_value(json: &Json, Ghost(depth): Ghost<nat>) -> (value: Value)
    requires
        json.writable(depth),
    ensures
        tree(value) == json@,
    decreases depth,
{
    match json {
        Json::Text(text) => value_from_text(text.clone()),
        Json::Number(number) => value_from_number(*number),
        Json::Array(items) => {
            let mut values: Vec<Value> = Vec::new();
            while values.len() < items.len()
                invariant
                    values.len() <= items.len(),
                    depth > 0,
                    forall|i: int|
                        0 <= i < items@.len() ==> (#[trigger] items@[i]).writable((depth - 1) as nat),
                    forall|i: int| 0 <= i < values.len() ==> tree(#[trigger] values@[i]) == said(items@[i]),
                decreases items.len() - values.len(),
            {
                let at: usize = values.len();
                let value = into_value(&items[at], Ghost((depth - 1) as nat));
                values.push(value);
            }
            assert(values@.map_values(|item: Value| tree(item)) == said_each(items@));
            value_from_items(values)
        },
        Json::Object(fields) => {
            let ghost pairs = said_fields(fields@);
            let mut value = value_without_fields();
            let mut at: usize = 0;
            assert(table::gathered(pairs.take(0)) == Map::<Seq<char>, Tree>::empty());
            while at < fields.len()
                invariant
                    at <= fields.len(),
                    depth > 0,
                    forall|i: int|
                        0 <= i < fields@.len() ==> (#[trigger] fields@[i]).1.writable(
                            (depth - 1) as nat,
                        ),
                    pairs == said_fields(fields@),
                    tree(value) == Tree::Object(table::gathered(pairs.take(at as int))),
                decreases fields.len() - at,
            {
                assert(pairs.take(at + 1).drop_last() == pairs.take(at as int));
                let field = into_value(&fields[at].1, Ghost((depth - 1) as nat));
                value_set_field(&mut value, fields[at].0.as_str(), field);
                at = at + 1;
            }
            assert(pairs.take(pairs.len() as int) == pairs);
            value
        },
        Json::Other => value_without_fields(),
    }
}

/// What came of reading a document, in specifications.
pub open spec fn reading(read: Result<Json, String>) -> Reading {
    match read {
        Ok(json) => Ok(json@),
        Err(why) => Err(why@),
    }
}

/// Read a document from `bytes`, or learn why they are none.
pub fn parse(bytes: &[u8]) -> (read: Result<Json, String>)
    ensures
        reading(read) == json_decoded(bytes@),
{
    match value_from_slice(bytes) {
        Ok(value) => Ok(from_value(&value)),
        Err(why) => Err(why),
    }
}

/// The bytes of a document that says `tree`.
pub open spec fn json_bytes(tree: Tree) -> Seq<u8> {
    utf8::encode_utf8(json_rendered(tree))
}

/// Write a document to bytes: they are read back as it.
pub fn write(json: &Json) -> (bytes: Vec<u8>)
    requires
        json.writable(DEEPEST as nat),
    ensures
        bytes@ == json_bytes(json@),
        json_decoded(bytes@) == Reading::Ok(json@),
{
    let value = into_value(json, Ghost(DEEPEST as nat));
    proof {
        json.lemma_writable(DEEPEST as nat);
    }
    value_to_string(&value).as_str().as_bytes_vec()
}

} // verus!
