//! JSON documents, built and written out with `serde_json`.
use vstd::prelude::*;
use vstd::utf8::encode_utf8;

verus! {

/// What a JSON value holds.
pub enum Document {
    Null,
    Bool(bool),
    /// A number without sign, fraction or exponent.
    Natural(nat),
    /// Any other number, by its notation.
    Real(Seq<char>),
    Text(Seq<char>),
    List(Seq<Document>),
    Object(Map<Seq<char>, Document>),
}

/// The JSON values of `serde_json`.
#[verifier::external_type_specification]
#[verifier::external_body]
pub struct ExValue(serde_json::Value);

/// The members of the JSON objects of `serde_json`.
#[verifier::external_type_specification]
#[verifier::external_body]
#[verifier::reject_recursive_types(K)]
#[verifier::reject_recursive_types(V)]
pub struct ExMembers<K, V>(serde_json::Map<K, V>);

/// The errors of `serde_json`.
#[verifier::external_type_specification]
#[verifier::external_body]
pub struct ExError(serde_json::Error);

/// What a `serde_json::Value` holds.
pub uninterp spec fn contents(value: serde_json::Value) -> Document;

/// What a `serde_json::Map` holds: a value for each of its keys.
pub uninterp spec fn members(map: serde_json::Map<String, serde_json::Value>) -> Map<
    Seq<char>,
    Document,
>;

/// The text that `serde_json::to_string` writes for a value that holds
/// `document`.
pub uninterp spec fn json_text(document: Document) -> Seq<char>;

/// What each of the values holds.
pub open spec fn documents(values: Seq<serde_json::Value>) -> Seq<Document> {
    values.map_values(|value: serde_json::Value| contents(value))
}

/// The texts as JSON strings.
pub open spec fn text_documents(items: Seq<Seq<char>>) -> Seq<Document> {
    items.map_values(|item: Seq<char>| Document::Text(item))
}

/// What each of the strings holds.
pub open spec fn strings(items: Seq<String>) -> Seq<Seq<char>> {
    items.map_values(|item: String| item@)
}

/// No members at all.
pub open spec fn no_members() -> Map<Seq<char>, Document> {
    Map::empty()
}

/// The members with one more where there is a text for it.
pub open spec fn with_text(
    map: Map<Seq<char>, Document>,
    key: Seq<char>,
    text: Option<Seq<char>>,
) -> Map<Seq<char>, Document> {
    match text {
        Some(t) => map.insert(key, Document::Text(t)),
        None => map,
    }
}

/// `serde_json::Value::Null` is the null value.
#[verifier::external_body]
pub(crate) fn null_value() -> (value: serde_json::Value)
    ensures
        contents(value) == Document::Null,
{
    serde_json::Value::Null
}

/// `serde_json::Value::Bool` holds the truth value that it is given.
#[verifier::external_body]
pub(crate) fn bool_value(b: bool) -> (value: serde_json::Value)
    ensures
        contents(value) == Document::Bool(b),
{
    serde_json::Value::Bool(b)
}

/// `serde_json::Value::from` on a `u64` holds the number that it is given.
#[verifier::external_body]
pub(crate) fn natural_value(n: u64) -> (value: serde_json::Value)
    ensures
        contents(value) == Document::Natural(n as nat),
{
    serde_json::Value::from(n)
}

/// `serde_json::Value::String` holds the string that it is given.
#[verifier::external_body]
pub(crate) fn text_value(text: String) -> (value: serde_json::Value)
    ensures
        contents(value) == Document::Text(text@),
{
    serde_json::Value::String(text)
}

/// `serde_json::Value::Array` holds the values that it is given, in their order.
#[verifier::external_body]
pub(crate) fn list_value(items: Vec<serde_json::Value>) -> (value: serde_json::Value)
    ensures
        contents(value) == Document::List(documents(items@)),
{
    serde_json::Value::Array(items)
}

/// `serde_json::Value::Object` holds the members of the map that it is given.
#[verifier::external_body]
pub(crate) fn object_value(map: serde_json::Map<String, serde_json::Value>) -> (value:
    serde_json::Value)
    ensures
        contents(value) == Document::Object(members(map)),
{
    serde_json::Value::Object(map)
}

/// `serde_json::Map::new` makes a map without members.
#[verifier::external_body]
pub(crate) fn new_members() -> (map: serde_json::Map<String, serde_json::Value>)
    ensures
        members(map) == no_members(),
{
    serde_json::Map::new()
}

/// `serde_json::Map::insert` gives the key the value, in place of one that it
/// had, and leaves the other keys alone.
#[verifier::external_body]
pub(crate) fn put(
    map: &mut serde_json::Map<String, serde_json::Value>,
    key: &str,
    value: serde_json::Value,
)
    ensures
        members(*final(map)) == members(*old(map)).insert(key@, contents(value)),
{
    map.insert(key.to_owned(), value);
}

/// `serde_json::to_string` writes every value, as a text that depends on what
/// the value holds alone: the members of an object stand in the order of their
/// keys. What the text looks like is left unsaid.
#[verifier::external_body]
pub(crate) fn to_string(value: &serde_json::Value) -> (r: Result<String, serde_json::Error>)
    ensures
        r is Ok,
        r->Ok_0@ == json_text(contents(*value)),
{
    serde_json::to_string(value)
}

/// `serde_json::to_vec` writes every value, as bytes that depend on what the
/// value holds alone: the UTF-8 bytes of the text that `serde_json::to_string`
/// writes for it.
#[verifier::external_body]
pub(crate) fn to_vec(value: &serde_json::Value) -> (r: Result<Vec<u8>, serde_json::Error>)
    ensures
        r is Ok,
        r->Ok_0@ == encode_utf8(json_text(contents(*value))),
{
    serde_json::to_vec(value)
}

/// Adds a text.
pub(crate) fn put_text(
    map: &mut serde_json::Map<String, serde_json::Value>,
    key: &str,
    text: &str,
)
    ensures
        members(*final(map)) == members(*old(map)).insert(key@, Document::Text(text@)),
{
    put(map, key, text_value(text.to_owned()));
}

/// Adds a text where there is one.
pub(crate) fn put_some_text(
    map: &mut serde_json::Map<String, serde_json::Value>,
    key: &str,
    text: &Option<String>,
)
    ensures
        members(*final(map)) == with_text(
            members(*old(map)),
            key@,
            crate::text::optional_text(*text),
        ),
{
    if let Some(t) = text {
        put_text(map, key, t.as_str());
    }
}

/// The texts as a JSON array.
pub(crate) fn texts_value(items: &Vec<String>) -> (value: serde_json::Value)
    ensures
        contents(value) == Document::List(text_documents(strings(items@))),
{
    let mut values: Vec<serde_json::Value> = Vec::new();
    let mut i: usize = 0;
    while i < items.len()
        invariant
            i <= items@.len(),
            documents(values@) == text_documents(strings(items@)).take(i as int),
        decreases items@.len() - i,
    {
        let ghost earlier = values@;
        values.push(text_value(items[i].clone()));
        i += 1;
        assert(documents(values@) =~= documents(earlier).push(
            Document::Text(items@[i - 1]@),
        ));
        assert(text_documents(strings(items@)).take(i as int) =~= text_documents(
            strings(items@),
        ).take(i - 1).push(Document::Text(items@[i - 1]@)));
    }
    assert(text_documents(strings(items@)).take(i as int) =~= text_documents(strings(items@)));
    list_value(values)
}

// ---------------------------------------------------------------------------
// Laws
// ---------------------------------------------------------------------------

/// `map` has the text under the key where there is one, and else not the key.
pub open spec fn shows(
    map: Map<Seq<char>, Document>,
    key: Seq<char>,
    text: Option<Seq<char>>,
) -> bool {
    match text {
        Some(t) => map.contains_key(key) && map[key] == Document::Text(t),
        None => !map.contains_key(key),
    }
}

/// The value is the list of the texts, in their order.
pub open spec fn is_list_of(value: Document, items: Seq<Seq<char>>) -> bool {
    &&& value is List
    &&& value->List_0.len() == items.len()
    &&& forall|i: int|
        0 <= i < items.len() ==> #[trigger] value->List_0[i] == Document::Text(items[i])
}

/// `map` has the number under the key.
pub open spec fn counts(map: Map<Seq<char>, Document>, key: Seq<char>, n: nat) -> bool {
    map.contains_key(key) && map[key] == Document::Natural(n)
}

/// `map` has the truth value under the key.
pub open spec fn tells(map: Map<Seq<char>, Document>, key: Seq<char>, b: bool) -> bool {
    map.contains_key(key) && map[key] == Document::Bool(b)
}

/// Lists are shown item by item, in their order: values by what they hold, texts
/// as JSON strings, and strings by their characters.
pub proof fn law_lists_are_shown_item_by_item(
    values: Seq<serde_json::Value>,
    items: Seq<Seq<char>>,
    owned: Seq<String>,
)
    ensures
        documents(values).len() == values.len(),
        forall|i: int|
            0 <= i < values.len() ==> #[trigger] documents(values)[i] == contents(values[i]),
        text_documents(items).len() == items.len(),
        forall|i: int|
            0 <= i < items.len() ==> #[trigger] text_documents(items)[i] == Document::Text(
                items[i],
            ),
        strings(owned).len() == owned.len(),
        forall|i: int| 0 <= i < owned.len() ==> #[trigger] strings(owned)[i] == owned[i]@,
{
}

/// A text that is there gets its key, one that is missing gets none, and all other
/// keys stay as they are. At first there are no keys.
pub proof fn law_optional_members_are_added(
    map: Map<Seq<char>, Document>,
    key: Seq<char>,
    text: Option<Seq<char>>,
    other: Seq<char>,
)
    ensures
        text matches Some(t) ==> with_text(map, key, text).contains_pair(key, Document::Text(t)),
        text is None ==> with_text(map, key, text) == map,
        other != key ==> (with_text(map, key, text).contains_key(other) <==> map.contains_key(
            other,
        )),
        other != key && map.contains_key(other) ==> with_text(map, key, text)[other] == map[other],
        !no_members().contains_key(other),
{
}

} // verus!
