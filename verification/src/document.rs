//! A parsed configuration document as a tree of plain values.

use vstd::prelude::*;

use crate::error::RunError;

verus! {

/// One value of a document.
#[derive(Debug, PartialEq)]
pub enum Node {
    Text(String),
    Integer(i64),
    /// A number with a fraction. Nothing here reads it, so it is kept in the
    /// form in which templates take it.
    Float(liquid::Value),
    Flag(bool),
    /// A date or time, as it is written.
    Datetime(String),
    List(Vec<Node>),
    /// The entries of a table, in the order of the document.
    Table(Vec<(String, Node)>),
}

/// A value as `toml` parses it.
#[verifier::external_type_specification]
#[verifier::external_body]
pub struct ExTomlValue(toml::Value);

/// What `toml` reports of a text that it cannot parse.
#[verifier::external_type_specification]
#[verifier::external_body]
pub struct ExTomlError(toml::de::Error);

/// What `toml` makes of a text that it parses as a document.
pub uninterp spec fn toml_parsed(text: Seq<char>) -> Result<toml::Value, toml::de::Error>;

/// The tree that holds what a `toml` value holds.
pub uninterp spec fn toml_node(value: toml::Value) -> Node;

/// The message of a `toml` error.
pub uninterp spec fn toml_message(error: toml::de::Error) -> String;

/// What parsing the text as a TOML document gives: the document's root
/// table, or the parser's message.
pub open spec fn document_of(text: Seq<char>) -> Result<Node, String> {
    match toml_parsed(text) {
        Ok(value) => Ok(toml_node(value)),
        Err(error) => Err(toml_message(error)),
    }
}

/// Parses the text with `toml`'s `FromStr` for `toml::Value`, which reads a
/// whole document.
#[verifier::external_body]
fn parse_toml(text: &str) -> (parsed: Result<toml::Value, toml::de::Error>)
    ensures
        parsed == toml_parsed(text@),
{
    text.parse()
}

/// Rebuilds a `toml::Value` as a [`Node`], variant by variant: strings,
/// integers and booleans as they are, a float as the engine's number, a
/// datetime as its text, an array item by item, and a table entry by entry in
/// the order in which the document holds them, which `toml` keeps.
#[verifier::external_body]
fn node_of(value: &toml::Value) -> (node: Node)
    ensures
        node == toml_node(*value),
{
    match *value {
        toml::Value::String(ref text) => Node::Text(text.clone()),
        toml::Value::Integer(number) => Node::Integer(number),
        toml::Value::Float(number) => Node::Float(liquid::Value::Num(number as _)),
        toml::Value::Boolean(flag) => Node::Flag(flag),
        toml::Value::Datetime(ref moment) => Node::Datetime(moment.to_string()),
        toml::Value::Array(ref items) => Node::List(items.iter().map(node_of).collect()),
        toml::Value::Table(ref table) => Node::Table(
            table.iter().map(|(key, item)| (key.clone(), node_of(item))).collect(),
        ),
    }
}

/// The message of a `toml` error, from its `Display`.
#[verifier::external_body]
fn message_of(error: &toml::de::Error) -> (message: String)
    ensures
        message == toml_message(*error),
{
    error.to_string()
}

/// The first entry with the given key, if there is one.
pub open spec fn entry_of(entries: Seq<(String, Node)>, key: Seq<char>) -> Option<Node>
    decreases entries.len(),
{
    if entries.len() == 0 {
        None
    } else if entries[0].0@ == key {
        Some(entries[0].1)
    } else {
        entry_of(entries.skip(1), key)
    }
}

impl Node {
    /// The value under `key`, if `self` is a table that has the key.
    pub open spec fn field(self, key: Seq<char>) -> Option<Node> {
        match self {
            Node::Table(entries) => entry_of(entries@, key),
            _ => None,
        }
    }

    /// The text, if `self` is a string.
    pub open spec fn text(self) -> Option<Seq<char>> {
        match self {
            Node::Text(text) => Some(text@),
            _ => None,
        }
    }

    /// The flag, if `self` is a boolean.
    pub open spec fn flag(self) -> Option<bool> {
        match self {
            Node::Flag(flag) => Some(flag),
            _ => None,
        }
    }

    /// The items, if `self` is an array.
    pub open spec fn items(self) -> Option<Seq<Node>> {
        match self {
            Node::List(items) => Some(items@),
            _ => None,
        }
    }

    /// The entries, if `self` is a table.
    pub open spec fn entries(self) -> Option<Seq<(String, Node)>> {
        match self {
            Node::Table(entries) => Some(entries@),
            _ => None,
        }
    }

    /// The text under `key`, if `self` is a table that holds a string there.
    pub open spec fn text_field(self, key: Seq<char>) -> Option<Seq<char>> {
        match self.field(key) {
            Some(node) => node.text(),
            None => None,
        }
    }

    /// The items under `key`, if `self` is a table that holds an array there.
    pub open spec fn list_field(self, key: Seq<char>) -> Option<Seq<Node>> {
        match self.field(key) {
            Some(node) => node.items(),
            None => None,
        }
    }

    /// Looks up `key` in a table.
    pub fn get(&self, key: &str) -> (found: Option<&Node>)
        ensures
            match found {
                Some(node) => self.field(key@) == Some(*node),
                None => self.field(key@) is None,
            },
    {
        match self {
            Node::Table(entries) => {
                let wanted = key.to_owned();
                let mut i: usize = 0;
                assert(entries@.skip(0) =~= entries@);
                while i < entries.len()
                    invariant
                        i <= entries.len(),
                        wanted@ == key@,
                        self.field(key@) == entry_of(entries@, key@),
                        entry_of(entries@, key@) == entry_of(entries@.skip(i as int), key@),
                    decreases entries.len() - i,
                {
                    let ghost rest = entries@.skip(i as int);
                    assert(rest.skip(1) =~= entries@.skip(i + 1));
                    if entries[i].0 == wanted {
                        return Some(&entries[i].1);
                    }
                    i = i + 1;
                }
                None
            },
            _ => None,
        }
    }

    /// The text of a string.
    pub fn as_str(&self) -> (text: Option<&String>)
        ensures
            match text {
                Some(text) => self.text() == Some(text@) && *self == Node::Text(*text),
                None => self.text() is None,
            },
    {
        match self {
            Node::Text(text) => Some(text),
            _ => None,
        }
    }

    /// The flag of a boolean.
    pub fn as_bool(&self) -> (flag: Option<bool>)
        ensures
            flag == self.flag(),
    {
        match self {
            Node::Flag(flag) => Some(*flag),
            _ => None,
        }
    }

    /// The items of an array.
    pub fn as_array(&self) -> (items: Option<&Vec<Node>>)
        ensures
            match items {
                Some(items) => self.items() == Some(items@) && *self == Node::List(*items),
                None => self.items() is None,
            },
    {
        match self {
            Node::List(items) => Some(items),
            _ => None,
        }
    }

    /// The entries of a table.
    pub fn as_table(&self) -> (entries: Option<&Vec<(String, Node)>>)
        ensures
            match entries {
                Some(entries) => self.entries() == Some(entries@) && *self == Node::Table(*entries),
                None => self.entries() is None,
            },
    {
        match self {
            Node::Table(entries) => Some(entries),
            _ => None,
        }
    }
}

/// Parses a configuration text into its tree.
pub fn read_document(text: &str) -> (read: Result<Node, RunError>)
    ensures
        match document_of(text@) {
            Ok(root) => read == Ok::<Node, RunError>(root),
            Err(message) => read == Err::<Node, RunError>(RunError::Syntax(message)),
        },
{
    match parse_toml(text) {
        Ok(value) => Ok(node_of(&value)),
        Err(error) => Err(RunError::Syntax(message_of(&error))),
    }
}

} // verus!
