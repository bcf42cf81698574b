//! JSON values: the tree that the library reads and rewrites, and its parser.

use crate::text::{self, chars_of, parse_usize, same_text};
use vstd::prelude::*;

verus! {

/// `serde_json::Number`: a JSON number, carried through unread.
#[verifier::external_type_specification]
#[verifier::external_body]
pub struct ExNumber(serde_json::Number);

/// `serde_json::Value`: a parsed JSON document.
#[verifier::external_type_specification]
#[verifier::external_body]
pub struct ExValue(serde_json::Value);

/// `serde_json::Map`: the object of a parsed JSON document.
#[verifier::external_type_specification]
#[verifier::external_body]
#[verifier::reject_recursive_types(K)]
#[verifier::reject_recursive_types(V)]
pub struct ExMap<K, V>(serde_json::Map<K, V>);

/// The mathematical value of a JSON document. A number is taken by its numeral.
pub enum JsonTree {
    Null,
    Bool(bool),
    Number(Seq<char>),
    Text(Seq<char>),
    Array(Seq<JsonTree>),
    Object(Map<Seq<char>, JsonTree>),
}

/// The entries of an object, of which a later one of the same key replaces an earlier one.
pub open spec fn collected(entries: Seq<(Seq<char>, JsonTree)>) -> Map<Seq<char>, JsonTree>
    decreases entries.len(),
{
    if entries.len() == 0 {
        Map::empty()
    } else {
        collected(entries.drop_last()).insert(entries.last().0, entries.last().1)
    }
}

/// The value of a key among the entries of an object.
pub open spec fn lookup(entries: Map<Seq<char>, JsonTree>, key: Seq<char>) -> Option<JsonTree> {
    if entries.dom().contains(key) {
        Some(entries[key])
    } else {
        None
    }
}

/// The position that a pointer token names in an array.
pub open spec fn array_index(token: Seq<char>) -> Option<nat> {
    if token.len() > 0 && (token[0] == '+' || (token[0] == '0' && token.len() != 1)) {
        None
    } else {
        text::unsigned_number(token, usize::MAX as nat)
    }
}

impl JsonTree {
    /// The value of an object's key.
    pub open spec fn member(self, key: Seq<char>) -> Option<JsonTree> {
        match self {
            JsonTree::Object(entries) => lookup(entries, key),
            _ => None,
        }
    }

    /// The child that one token of a JSON pointer names.
    pub open spec fn child(self, token: Seq<char>) -> Option<JsonTree> {
        match self {
            JsonTree::Object(entries) => lookup(entries, token),
            JsonTree::Array(items) => match array_index(token) {
                Some(index) => if index < items.len() {
                    Some(items[index as int])
                } else {
                    None
                },
                None => None,
            },
            _ => None,
        }
    }

    /// The descendant that the tokens of a JSON pointer name.
    pub open spec fn at(self, path: Seq<Seq<char>>) -> Option<JsonTree>
        decreases path.len(),
    {
        if path.len() == 0 {
            Some(self)
        } else {
            match self.at(path.drop_last()) {
                Some(parent) => parent.child(path.last()),
                None => None,
            }
        }
    }

    /// The value with another child in place of the one that a pointer token names.
    pub open spec fn with_child(self, token: Seq<char>, value: JsonTree) -> JsonTree {
        match self {
            JsonTree::Object(entries) => JsonTree::Object(entries.insert(token, value)),
            JsonTree::Array(items) => match array_index(token) {
                Some(index) => JsonTree::Array(items.update(index as int, value)),
                None => self,
            },
            _ => self,
        }
    }

    /// The characters of a string value.
    pub open spec fn text(self) -> Option<Seq<char>> {
        match self {
            JsonTree::Text(text) => Some(text),
            _ => None,
        }
    }

    /// The truth value of a boolean value.
    pub open spec fn flag(self) -> Option<bool> {
        match self {
            JsonTree::Bool(flag) => Some(flag),
            _ => None,
        }
    }

    /// The items of an array.
    pub open spec fn items(self) -> Option<Seq<JsonTree>> {
        match self {
            JsonTree::Array(items) => Some(items),
            _ => None,
        }
    }
}

/// The string that a key of an object holds.
pub open spec fn text_member(tree: JsonTree, key: Seq<char>) -> Option<Seq<char>> {
    match tree.member(key) {
        Some(value) => value.text(),
        None => None,
    }
}

/// The string at a pointer.
pub open spec fn text_at(tree: JsonTree, path: Seq<Seq<char>>) -> Option<Seq<char>> {
    match tree.at(path) {
        Some(value) => value.text(),
        None => None,
    }
}

/// The tokens that a slice of strings stands for.
pub open spec fn tokens(path: Seq<&str>) -> Seq<Seq<char>> {
    path.map_values(|token: &str| token@)
}

/// A JSON document.
#[derive(Debug, PartialEq)]
pub enum Json {
    Null,
    Bool(bool),
    Number(serde_json::Number),
    Text(String),
    Array(Vec<Json>),
    Object(Vec<(String, Json)>),
}

/// The numeral of a `serde_json::Number`, as its `Display` writes it.
pub uninterp spec fn numeral(number: serde_json::Number) -> Seq<char>;

/// The tree of an array's items.
pub open spec fn item_trees(items: Seq<Json>) -> Seq<JsonTree>
    decreases items,
{
    Seq::new(
        items.len(),
        |i: int|
            if 0 <= i < items.len() {
                items[i].tree()
            } else {
                JsonTree::Null
            },
    )
}

/// The entries of an object's members.
pub open spec fn entry_trees(members: Seq<(String, Json)>) -> Seq<(Seq<char>, JsonTree)>
    decreases members,
{
    Seq::new(
        members.len(),
        |i: int|
            if 0 <= i < members.len() {
                (members[i].0@, members[i].1.tree())
            } else {
                (Seq::empty(), JsonTree::Null)
            },
    )
}

impl Json {
    /// The value of a document.
    pub open spec fn tree(self) -> JsonTree
        decreases self,
    {
        match self {
            Json::Null => JsonTree::Null,
            Json::Bool(value) => JsonTree::Bool(value),
            Json::Number(number) => JsonTree::Number(numeral(number)),
            Json::Text(text) => JsonTree::Text(text@),
            Json::Array(items) => JsonTree::Array(item_trees(items@)),
            Json::Object(members) => JsonTree::Object(collected(entry_trees(members@))),
        }
    }
}

impl View for Json {
    type V = JsonTree;

    open spec fn view(&self) -> JsonTree {
        self.tree()
    }
}

/// What a `serde_json::Value` holds.
pub uninterp spec fn value_tree(value: serde_json::Value) -> JsonTree;

/// What a `serde_json::Map` holds.
pub uninterp spec fn map_entries(
    map: serde_json::Map<String, serde_json::Value>,
) -> Map<Seq<char>, JsonTree>;

/// What `serde_json::from_str` makes of a text: the value that it parses, or the message
/// of its error.
pub uninterp spec fn parsed_text(text: Seq<char>) -> Result<JsonTree, Seq<char>>;

/// What `serde_json::from_slice` makes of a run of bytes: the value that it parses, or the
/// message of its error.
pub uninterp spec fn parsed_bytes(bytes: Seq<u8>) -> Result<JsonTree, Seq<char>>;

/// One level of a parsed document.
enum Parts {
    Null,
    Bool(bool),
    Number(serde_json::Number),
    Text(String),
    Array(Vec<serde_json::Value>),
    Object(serde_json::Map<String, serde_json::Value>),
}

/// Calls `serde_json::from_str` for a `serde_json::Value`. The value it returns holds what
/// `parsed_text` names for this text, and so does the message of the error it returns.
#[verifier::external_body]
fn read_text(text: &str) -> (parsed: Result<serde_json::Value, String>)
    ensures
        match parsed {
            Ok(value) => parsed_text(text@) == Ok::<JsonTree, Seq<char>>(value_tree(value)),
            Err(message) => parsed_text(text@) == Err::<JsonTree, Seq<char>>(message@),
        },
{
    serde_json::from_str(text).map_err(|error: serde_json::Error| error.to_string())
}

/// Calls `serde_json::from_slice` for a `serde_json::Value`. The value it returns holds what
/// `parsed_bytes` names for these bytes, and so does the message of the error it returns.
#[verifier::external_body]
fn read_bytes(bytes: &[u8]) -> (parsed: Result<serde_json::Value, String>)
    ensures
        match parsed {
            Ok(value) => parsed_bytes(bytes@) == Ok::<JsonTree, Seq<char>>(value_tree(value)),
            Err(message) => parsed_bytes(bytes@) == Err::<JsonTree, Seq<char>>(message@),
        },
{
    serde_json::from_slice(bytes).map_err(|error: serde_json::Error| error.to_string())
}

/// Takes a `serde_json::Value` apart by its variants. The value holds what the variant
/// and its field hold.
#[verifier::external_body]
fn parts_of(value: serde_json::Value) -> (parts: Parts)
    ensures
        match parts {
            Parts::Null => value_tree(value) == JsonTree::Null,
            Parts::Bool(flag) => value_tree(value) == JsonTree::Bool(flag),
            Parts::Number(number) => value_tree(value) == JsonTree::Number(numeral(number)),
            Parts::Text(text) => value_tree(value) == JsonTree::Text(text@),
            Parts::Array(items) => value_tree(value) == JsonTree::Array(
                Seq::new(items@.len(), |i: int| value_tree(items@[i])),
            ),
            Parts::Object(map) => value_tree(value) == JsonTree::Object(map_entries(map)),
        },
{
    match value {
        serde_json::Value::Null => Parts::Null,
        serde_json::Value::Bool(flag) => Parts::Bool(flag),
        serde_json::Value::Number(number) => Parts::Number(number),
        serde_json::Value::String(text) => Parts::Text(text),
        serde_json::Value::Array(items) => Parts::Array(items),
        serde_json::Value::Object(map) => Parts::Object(map),
    }
}

/// The entries that a vector of keys and parsed values stands for.
pub open spec fn value_entries(entries: Seq<(String, serde_json::Value)>) -> Seq<
    (Seq<char>, JsonTree),
> {
    entries.map_values(|entry: (String, serde_json::Value)| (entry.0@, value_tree(entry.1)))
}

/// Whether no two entries have the same key.
pub open spec fn distinct_keys(entries: Seq<(Seq<char>, JsonTree)>) -> bool {
    forall|i: int, j: int|
        0 <= i < j < entries.len() ==> (#[trigger] entries[i]).0 != (#[trigger] entries[j]).0
}

/// Calls `serde_json::Map::into_iter` and collects the entries, which are those that the map
/// holds, each key once. Nothing is said of their order.
#[verifier::external_body]
fn entries_of(map: serde_json::Map<String, serde_json::Value>) -> (entries: Vec<
    (String, serde_json::Value),
>)
    ensures
        map_entries(map) == collected(value_entries(entries@)),
        distinct_keys(value_entries(entries@)),
{
    map.into_iter().collect()
}

/// Puts a `serde_json::Value` together from a variant and its field. The value holds what
/// they hold.
#[verifier::external_body]
fn value_of(parts: Parts) -> (value: serde_json::Value)
    ensures
        match parts {
            Parts::Null => value_tree(value) == JsonTree::Null,
            Parts::Bool(flag) => value_tree(value) == JsonTree::Bool(flag),
            Parts::Number(number) => value_tree(value) == JsonTree::Number(numeral(number)),
            Parts::Text(text) => value_tree(value) == JsonTree::Text(text@),
            Parts::Array(items) => value_tree(value) == JsonTree::Array(
                Seq::new(items@.len(), |i: int| value_tree(items@[i])),
            ),
            Parts::Object(map) => value_tree(value) == JsonTree::Object(map_entries(map)),
        },
{
    match parts {
        Parts::Null => serde_json::Value::Null,
        Parts::Bool(flag) => serde_json::Value::Bool(flag),
        Parts::Number(number) => serde_json::Value::Number(number),
        Parts::Text(text) => serde_json::Value::String(text),
        Parts::Array(items) => serde_json::Value::Array(items),
        Parts::Object(map) => serde_json::Value::Object(map),
    }
}

/// Calls `serde_json::Map::new`, which makes a map without entries.
#[verifier::external_body]
fn new_map() -> (map: serde_json::Map<String, serde_json::Value>)
    ensures
        map_entries(map) == collected(Seq::empty()),
{
    serde_json::Map::new()
}

/// Calls `serde_json::Map::insert`, which puts the value under the key, in place of the value
/// that the key had.
#[verifier::external_body]
fn insert_entry(
    map: &mut serde_json::Map<String, serde_json::Value>,
    key: String,
    value: serde_json::Value,
)
    ensures
        map_entries(*final(map)) == map_entries(*old(map)).insert(key@, value_tree(value)),
{
    map.insert(key, value);
}

/// The compact text that `serde_json::to_string` writes for a value.
pub uninterp spec fn written_text(tree: JsonTree) -> Seq<char>;

/// Whether a document is not made of others.
pub open spec fn scalar(tree: JsonTree) -> bool {
    !(tree is Array) && !(tree is Object)
}

/// Whether a document can be a value of a flat object: it is a scalar or an array of scalars.
pub open spec fn plain(tree: JsonTree) -> bool {
    match tree {
        JsonTree::Array(items) => forall|i: int|
            0 <= i < items.len() ==> scalar(#[trigger] items[i]),
        JsonTree::Object(_) => false,
        _ => true,
    }
}

/// Whether every entry of an object is plain.
pub open spec fn all_plain(entries: Map<Seq<char>, JsonTree>) -> bool {
    forall|key: Seq<char>| #[trigger]
        entries.dom().contains(key) ==> plain(entries[key])
}

/// Whether a document is a flat object: each of its values is plain.
pub open spec fn flat(tree: JsonTree) -> bool {
    match tree {
        JsonTree::Object(entries) => all_plain(entries),
        _ => false,
    }
}

/// Whether two objects have the same text under every key at which one of them has a text.
pub open spec fn same_texts(left: JsonTree, right: JsonTree) -> bool {
    forall|key: Seq<char>| #[trigger] text_member(left, key) == text_member(right, key)
}

/// Whether a text is what is written for a document. It is a single line that begins and ends
/// with a token, and where the document is a flat object, it is read back as an object with
/// the same strings.
pub open spec fn is_line_of(line: Seq<char>, tree: JsonTree) -> bool {
    &&& line == written_text(tree)
    &&& !line.contains('\n')
    &&& !line.contains('\r')
    &&& text::clean(line)
    &&& flat(tree) ==> match parsed_text(line) {
        Ok(back) => same_texts(back, tree),
        Err(_) => false,
    }
}

/// Calls `serde_json::to_string` on a `serde_json::Value`. Writing a value to memory does not
/// fail. The text is the one that `written_text` names for what the value holds. It has
/// neither spaces around its tokens nor unescaped control characters, so it is a single line
/// that begins and ends with a token. Where the value is a flat object, `serde_json::from_str`
/// reads the text as an object with the same strings; of numbers nothing is said, since a
/// fraction may be read as its neighbour.
#[verifier::external_body]
fn write_value(value: &serde_json::Value) -> (written: Result<String, String>)
    ensures
        match written {
            Ok(text) => text@ == written_text(value_tree(*value)) && is_line_of(
                text@,
                value_tree(*value),
            ),
            Err(_) => false,
        },
{
    serde_json::to_string(value).map_err(|error: serde_json::Error| error.to_string())
}

/// Calls `serde_json::Number::from` for an unsigned number, whose numeral is the decimal one.
#[verifier::external_body]
fn count_number(count: u64) -> (number: serde_json::Number)
    ensures
        numeral(number) == text::decimal(count as nat),
{
    serde_json::Number::from(count)
}

/// Without duplicates each entry is found under its key, and the object is finite.
pub proof fn lemma_collected_entry(entries: Seq<(Seq<char>, JsonTree)>, at: int)
    requires
        distinct_keys(entries),
        0 <= at < entries.len(),
    ensures
        collected(entries).dom().finite(),
        collected(entries).dom().contains(entries[at].0),
        collected(entries)[entries[at].0] == entries[at].1,
    decreases entries.len(),
{
    let before = entries.drop_last();
    if at < entries.len() - 1 {
        lemma_collected_entry(before, at);
        assert(before[at] == entries[at]);
    } else if before.len() > 0 {
        lemma_collected_entry(before, 0);
    }
}

/// Of two lists of entries with the same keys, the objects have the same keys, and under each
/// key the values of the same position.
pub proof fn lemma_collected_alongside(
    first: Seq<(Seq<char>, JsonTree)>,
    second: Seq<(Seq<char>, JsonTree)>,
    key: Seq<char>,
) -> (at: int)
    requires
        first.len() == second.len(),
        forall|i: int| 0 <= i < first.len() ==> (#[trigger] first[i]).0 == second[i].0,
    ensures
        collected(first).dom().contains(key) == collected(second).dom().contains(key),
        collected(first).dom().contains(key) ==> {
            &&& 0 <= at < first.len()
            &&& collected(first)[key] == first[at].1
            &&& collected(second)[key] == second[at].1
        },
    decreases first.len(),
{
    if first.len() == 0 {
        0
    } else {
        let last = first.len() - 1;
        assert(first[last].0 == second[last].0);
        assert forall|i: int| 0 <= i < first.drop_last().len() implies (
        #[trigger] first.drop_last()[i]).0 == second.drop_last()[i].0 by {
            assert(first[i].0 == second[i].0);
        }
        let before = lemma_collected_alongside(first.drop_last(), second.drop_last(), key);
        if first[last].0 == key {
            last
        } else {
            before
        }
    }
}

/// An object that is made of plain values has plain values only.
pub proof fn lemma_collected_is_plain(entries: Seq<(Seq<char>, JsonTree)>)
    requires
        forall|i: int| 0 <= i < entries.len() ==> plain(#[trigger] entries[i].1),
    ensures
        all_plain(collected(entries)),
    decreases entries.len(),
{
    if entries.len() > 0 {
        let before = entries.drop_last();
        assert forall|i: int| 0 <= i < before.len() implies plain(#[trigger] before[i].1) by {
            assert(before[i] == entries[i]);
        }
        lemma_collected_is_plain(before);
        let last = entries[entries.len() - 1];
        assert(plain(last.1));
        let earlier = collected(before);
        let all = collected(entries);
        assert forall|key: Seq<char>| #[trigger] all.dom().contains(key) implies plain(
            all[key],
        ) by {
            if key == last.0 {
                assert(all[key] == last.1);
            } else {
                assert(earlier.dom().contains(key));
                assert(plain(earlier[key]));
                assert(all[key] == earlier[key]);
            }
        }
    }
}

/// `Clone::clone` of a `serde_json::Number` returns the same number.
pub assume_specification[ <serde_json::Number as Clone>::clone ](
    number: &serde_json::Number,
) -> (copy: serde_json::Number)
    ensures
        copy == *number,
;

impl Json {
    /// Parses a text.
    pub fn parse(text: &str) -> (parsed: Result<Json, String>)
        ensures
            match parsed {
                Ok(json) => parsed_text(text@) == Ok::<JsonTree, Seq<char>>(json@),
                Err(message) => parsed_text(text@) == Err::<JsonTree, Seq<char>>(message@),
            },
    {
        match read_text(text) {
            Ok(value) => Ok(Json::from_value(value)),
            Err(message) => Err(message),
        }
    }

    /// Parses a run of bytes.
    pub fn parse_bytes(bytes: &[u8]) -> (parsed: Result<Json, String>)
        ensures
            match parsed {
                Ok(json) => parsed_bytes(bytes@) == Ok::<JsonTree, Seq<char>>(json@),
                Err(message) => parsed_bytes(bytes@) == Err::<JsonTree, Seq<char>>(message@),
            },
    {
        match read_bytes(bytes) {
            Ok(value) => Ok(Json::from_value(value)),
            Err(message) => Err(message),
        }
    }

    fn from_value(value: serde_json::Value) -> (json: Json)
        ensures
            json@ == value_tree(value),
        decreases value_tree(value),
    {
        match parts_of(value) {
            Parts::Null => Json::Null,
            Parts::Bool(flag) => Json::Bool(flag),
            Parts::Number(number) => Json::Number(number),
            Parts::Text(text) => Json::Text(text),
            Parts::Array(values) => {
                let mut items: Vec<Json> = Vec::new();
                let ghost trees = value_tree(value)->Array_0;
                let ghost all = values@;
                for item in remaining: values
                    invariant
                        remaining.seq() == all,
                        trees == Seq::new(all.len(), |i: int| value_tree(all[i])),
                        value_tree(value) == JsonTree::Array(trees),
                        items@.len() == remaining.index(),
                        forall|i: int|
                            0 <= i < items@.len() ==> (#[trigger] items@[i])@ == trees[i],
                {
                    assert(trees[remaining.index() as int] == value_tree(item));
                    assert(decreases_to!(value_tree(value) => value_tree(value)->Array_0));
                    assert(decreases_to!(trees => trees[remaining.index() as int]));
                    items.push(Json::from_value(item));
                }
                assert(item_trees(items@) =~= trees);
                Json::Array(items)
            },
            Parts::Object(map) => {
                let entries = entries_of(map);
                let mut members: Vec<(String, Json)> = Vec::new();
                let ghost trees = value_entries(entries@);
                let ghost all = entries@;
                for entry in remaining: entries
                    invariant
                        remaining.seq() == all,
                        trees == value_entries(all),
                        distinct_keys(trees),
                        value_tree(value) == JsonTree::Object(collected(trees)),
                        members@.len() == remaining.index(),
                        forall|i: int|
                            0 <= i < members@.len() ==> (#[trigger] members@[i]).0@ == trees[i].0
                                && members@[i].1@ == trees[i].1,
                {
                    let (key, child) = entry;
                    let ghost at = remaining.index() as int;
                    assert(trees[at] == (key@, value_tree(child)));
                    proof {
                        lemma_collected_entry(trees, at);
                    }
                    assert(decreases_to!(value_tree(value) => value_tree(value)->Object_0));
                    assert(decreases_to!(collected(trees) => collected(trees)[key@]));
                    members.push((key, Json::from_value(child)));
                }
                assert(entry_trees(members@) =~= trees);
                Json::Object(members)
            },
        }
    }

    fn to_value(&self) -> (value: serde_json::Value)
        ensures
            value_tree(value) == self@,
        decreases *self,
    {
        match self {
            Json::Null => value_of(Parts::Null),
            Json::Bool(flag) => value_of(Parts::Bool(*flag)),
            Json::Number(number) => value_of(Parts::Number(number.clone())),
            Json::Text(text) => value_of(Parts::Text(text.clone())),
            Json::Array(items) => {
                let mut values: Vec<serde_json::Value> = Vec::new();
                for i in 0..items.len()
                    invariant
                        *self == Json::Array(*items),
                        values@.len() == i,
                        forall|j: int|
                            0 <= j < i ==> value_tree(#[trigger] values@[j]) == items@[j]@,
                {
                    assert(decreases_to!(*self => self->Array_0));
                    assert(decreases_to!(items => items@));
                    assert(decreases_to!(items@ => items@[i as int]));
                    values.push(items[i].to_value());
                }
                assert(Seq::new(values@.len(), |i: int| value_tree(values@[i])) =~= item_trees(
                    items@,
                ));
                value_of(Parts::Array(values))
            },
            Json::Object(members) => {
                let mut map = new_map();
                let ghost entries = entry_trees(members@);
                for i in 0..members.len()
                    invariant
                        *self == Json::Object(*members),
                        entries == entry_trees(members@),
                        map_entries(map) == collected(entries.take(i as int)),
                {
                    assert(decreases_to!(*self => self->Object_0));
                    assert(decreases_to!(members => members@));
                    assert(decreases_to!(members@ => members@[i as int]));
                    assert(decreases_to!(members@[i as int] => members@[i as int].1));
                    insert_entry(&mut map, members[i].0.clone(), members[i].1.to_value());
                    assert(entries.take(i + 1).drop_last() =~= entries.take(i as int));
                }
                assert(entries.take(entries.len() as int) =~= entries);
                value_of(Parts::Object(map))
            },
        }
    }

    /// Writes the document as one line of text.
    pub fn to_line(&self) -> (line: String)
        ensures
            is_line_of(line@, self@),
    {
        match write_value(&self.to_value()) {
            Ok(text) => text,
            Err(message) => message,
        }
    }

    /// The document of an unsigned number.
    pub fn count(count: u64) -> (json: Json)
        ensures
            json@ == JsonTree::Number(text::decimal(count as nat)),
    {
        Json::Number(count_number(count))
    }

    /// The document of a string.
    pub fn string(value: &str) -> (json: Json)
        ensures
            json@ == JsonTree::Text(value@),
    {
        Json::Text(value.to_owned())
    }

    /// The value of an object's key.
    pub fn get(&self, key: &str) -> (found: Option<&Json>)
        ensures
            match found {
                Some(value) => self@.member(key@) == Some(value@),
                None => self@.member(key@) is None,
            },
    {
        match self {
            Json::Object(members) => find_member(members, key),
            _ => None,
        }
    }

    /// The child that one token of a JSON pointer names.
    pub fn child(&self, token: &str) -> (found: Option<&Json>)
        ensures
            match found {
                Some(value) => self@.child(token@) == Some(value@),
                None => self@.child(token@) is None,
            },
    {
        match self {
            Json::Object(members) => find_member(members, token),
            Json::Array(items) => match read_array_index(token) {
                Some(index) => if index < items.len() {
                    Some(&items[index])
                } else {
                    None
                },
                None => None,
            },
            _ => None,
        }
    }

    /// The descendant that the tokens of a JSON pointer name.
    pub fn pointer(&self, path: &[&str]) -> (found: Option<&Json>)
        ensures
            match found {
                Some(value) => self@.at(tokens(path@)) == Some(value@),
                None => self@.at(tokens(path@)) is None,
            },
    {
        let mut found: Option<&Json> = Some(self);
        let ghost names = tokens(path@);
        for i in 0..path.len()
            invariant
                names == tokens(path@),
                match found {
                    Some(value) => self@.at(names.take(i as int)) == Some(value@),
                    None => self@.at(names.take(i as int)) is None,
                },
        {
            assert(names.take(i + 1).drop_last() =~= names.take(i as int));
            assert(names.take(i + 1).last() == path@[i as int]@);
            found = match found {
                Some(parent) => parent.child(path[i]),
                None => None,
            };
        }
        assert(names.take(names.len() as int) =~= names);
        found
    }

    /// The string of a string value.
    pub fn as_text(&self) -> (text: Option<&String>)
        ensures
            match text {
                Some(value) => self@.text() == Some(value@),
                None => self@.text() is None,
            },
    {
        match self {
            Json::Text(text) => Some(text),
            _ => None,
        }
    }

    /// The truth value of a boolean value.
    pub fn as_flag(&self) -> (flag: Option<bool>)
        ensures
            flag == self@.flag(),
    {
        match self {
            Json::Bool(flag) => Some(*flag),
            _ => None,
        }
    }

    /// The items of an array.
    pub fn as_items(&self) -> (items: Option<&Vec<Json>>)
        ensures
            match items {
                Some(values) => self@.items() == Some(item_trees(values@)),
                None => self@.items() is None,
            },
    {
        match self {
            Json::Array(items) => Some(items),
            _ => None,
        }
    }
}

fn read_array_index(token: &str) -> (index: Option<usize>)
    ensures
        match index {
            Some(value) => array_index(token@) == Some(value as nat),
            None => array_index(token@) is None,
        },
{
    let chars = chars_of(token);
    if chars.len() > 0 && (chars[0] == '+' || (chars[0] == '0' && chars.len() != 1)) {
        None
    } else {
        parse_usize(chars.as_slice())
    }
}

fn member_index(members: &Vec<(String, Json)>, key: &str) -> (found: Option<usize>)
    ensures
        match found {
            Some(at) => {
                &&& at < members@.len()
                &&& members@[at as int].0@ == key@
                &&& lookup(collected(entry_trees(members@)), key@) == Some(members@[at as int].1@)
                &&& forall|j: int| at < j < members@.len() ==> (#[trigger] members@[j]).0@ != key@
            },
            None => lookup(collected(entry_trees(members@)), key@) is None,
        },
{
    let ghost entries = entry_trees(members@);
    let mut left: usize = members.len();
    assert(entries.take(left as int) =~= entries);
    while left > 0
        invariant
            left <= members@.len(),
            entries == entry_trees(members@),
            lookup(collected(entries), key@) == lookup(
                collected(entries.take(left as int)),
                key@,
            ),
            forall|j: int| left <= j < members@.len() ==> (#[trigger] members@[j]).0@ != key@,
        decreases left,
    {
        let at = left - 1;
        assert(entries.take(left as int).drop_last() =~= entries.take(at as int));
        assert(entries.take(left as int).last() == entries[at as int]);
        if same_text(members[at].0.as_str(), key) {
            return Some(at);
        }
        left = at;
    }
    assert(entries.take(0) =~= Seq::<(Seq<char>, JsonTree)>::empty());
    None
}

fn find_member<'a>(members: &'a Vec<(String, Json)>, key: &str) -> (found: Option<&'a Json>)
    ensures
        match found {
            Some(value) => lookup(collected(entry_trees(members@)), key@) == Some(value@),
            None => lookup(collected(entry_trees(members@)), key@) is None,
        },
{
    match member_index(members, key) {
        Some(at) => Some(&members[at].1),
        None => None,
    }
}

/// Takes the entries of a key out of an object's members.
pub(crate) fn take_member(members: Vec<(String, Json)>, key: &str) -> (taken: (
    Vec<(String, Json)>,
    Option<Json>,
))
    ensures
        collected(entry_trees(taken.0@)) == collected(entry_trees(members@)).remove(key@),
        match taken.1 {
            Some(value) => lookup(collected(entry_trees(members@)), key@) == Some(value@),
            None => lookup(collected(entry_trees(members@)), key@) is None,
        },
{
    let ghost entries = entry_trees(members@);
    let ghost all = members@;
    let mut kept: Vec<(String, Json)> = Vec::new();
    let mut found: Option<Json> = None;
    assert(entry_trees(kept@) =~= Seq::<(Seq<char>, JsonTree)>::empty());
    assert(collected(entry_trees(kept@)) =~= Map::<Seq<char>, JsonTree>::empty().remove(key@));
    for member in remaining: members
        invariant
            remaining.seq() == all,
            entries == entry_trees(all),
            collected(entry_trees(kept@)) == collected(
                entries.take(remaining.index() as int),
            ).remove(key@),
            match found {
                Some(value) => lookup(collected(entries.take(remaining.index() as int)), key@)
                    == Some(value@),
                None => lookup(collected(entries.take(remaining.index() as int)), key@) is None,
            },
    {
        let ghost at = remaining.index() as int;
        let ghost before = kept@;
        assert(entries.take(at + 1).drop_last() =~= entries.take(at));
        assert(entries.take(at + 1).last() == (member.0@, member.1@));
        let (name, value) = member;
        if same_text(name.as_str(), key) {
            found = Some(value);
            assert(collected(entries.take(at + 1)).remove(key@) =~= collected(
                entries.take(at),
            ).remove(key@));
        } else {
            kept.push((name, value));
            assert(entry_trees(kept@).drop_last() =~= entry_trees(before));
            assert(collected(entry_trees(kept@)) =~= collected(entries.take(at + 1)).remove(key@));
        }
    }
    assert(entries.take(entries.len() as int) =~= entries);
    (kept, found)
}

/// Puts a value under a key of an object's members.
pub(crate) fn put_member(members: Vec<(String, Json)>, key: &str, value: Json) -> (put: Vec<
    (String, Json),
>)
    ensures
        collected(entry_trees(put@)) == collected(entry_trees(members@)).insert(key@, value@),
{
    let (mut kept, _) = take_member(members, key);
    let ghost before = kept@;
    kept.push((key.to_owned(), value));
    assert(entry_trees(kept@).drop_last() =~= entry_trees(before));
    assert(collected(entry_trees(kept@)) =~= collected(entry_trees(members@)).insert(
        key@,
        value@,
    ));
    kept
}

impl Clone for Json {
    fn clone(&self) -> (copy: Json)
        ensures
            copy@ == self@,
        decreases *self,
    {
        match self {
            Json::Null => Json::Null,
            Json::Bool(flag) => Json::Bool(*flag),
            Json::Number(number) => Json::Number(number.clone()),
            Json::Text(text) => Json::Text(text.clone()),
            Json::Array(items) => {
                let mut copies: Vec<Json> = Vec::new();
                for i in 0..items.len()
                    invariant
                        *self == Json::Array(*items),
                        copies@.len() == i,
                        forall|j: int|
                            0 <= j < i ==> (#[trigger] copies@[j])@ == items@[j]@,
                {
                    assert(decreases_to!(*self => self->Array_0));
                    assert(decreases_to!(items => items@));
                    assert(decreases_to!(items@ => items@[i as int]));
                    copies.push(items[i].clone());
                }
                assert(item_trees(copies@) =~= item_trees(items@));
                Json::Array(copies)
            },
            Json::Object(members) => {
                let mut copies: Vec<(String, Json)> = Vec::new();
                for i in 0..members.len()
                    invariant
                        *self == Json::Object(*members),
                        copies@.len() == i,
                        forall|j: int|
                            0 <= j < i ==> (#[trigger] copies@[j]).0@ == members@[j].0@
                                && copies@[j].1@ == members@[j].1@,
                {
                    assert(decreases_to!(*self => self->Object_0));
                    assert(decreases_to!(members => members@));
                    assert(decreases_to!(members@ => members@[i as int]));
                    assert(decreases_to!(members@[i as int] => members@[i as int].1));
                    copies.push((members[i].0.clone(), members[i].1.clone()));
                }
                assert(entry_trees(copies@) =~= entry_trees(members@));
                Json::Object(copies)
            },
        }
    }
}

} // verus!
