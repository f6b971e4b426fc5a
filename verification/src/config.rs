//! Reading a configuration: the tests it declares, with their variables, and
//! the files it includes.

use vstd::prelude::*;

use crate::document::{read_document, Node, document_of};
use crate::engine::{
    flag_value, list_value, make_flag, make_list, make_number, make_table, make_text, number_value,
    table_value, text_value,
};
use crate::error::RunError;
use crate::outcome::texts;
use crate::test::{Test, TestView};

verus! {

/// The name of the configuration file that is looked for when none is given.
pub const CONFIG_FILE_NAME: &'static str = "multitest.toml";

/// The mathematical content of a [`Variable`].
pub struct VariableView {
    pub name: Seq<char>,
    pub values: Seq<liquid::Value>,
}

/// A named list of values: a test is instantiated once for each of them, in
/// order.
#[derive(Debug, PartialEq)]
pub struct Variable {
    pub name: String,
    pub values: Vec<liquid::Value>,
}

impl View for Variable {
    type V = VariableView;

    open spec fn view(&self) -> VariableView {
        VariableView { name: self.name@, values: self.values@ }
    }
}

/// The contents of a sequence of variables.
pub open spec fn variable_views(variables: Seq<Variable>) -> Seq<VariableView> {
    variables.map_values(|variable: Variable| variable@)
}

/// The mathematical content of a [`Declaration`].
pub struct DeclarationView {
    pub test: TestView,
    pub variables: Seq<VariableView>,
}

/// One declared test: its parts are templates still, to be rendered once for
/// every combination of the values of its variables.
#[derive(Debug, PartialEq)]
pub struct Declaration {
    pub test: Test,
    pub variables: Vec<Variable>,
}

impl View for Declaration {
    type V = DeclarationView;

    open spec fn view(&self) -> DeclarationView {
        DeclarationView { test: self.test@, variables: variable_views(self.variables@) }
    }
}

/// The contents of a sequence of declarations.
pub open spec fn declaration_views(declarations: Seq<Declaration>) -> Seq<DeclarationView> {
    declarations.map_values(|declaration: Declaration| declaration@)
}

/// The mathematical content of a [`ParseResult`].
pub struct ParseView {
    pub tests: Seq<DeclarationView>,
    pub includes: Seq<Seq<char>>,
}

/// What one configuration file holds: its declared tests and the patterns of
/// the files it includes, both in the order of the file.
#[derive(Debug, PartialEq)]
pub struct ParseResult {
    pub tests: Vec<Declaration>,
    pub includes: Vec<String>,
}

impl View for ParseResult {
    type V = ParseView;

    open spec fn view(&self) -> ParseView {
        ParseView { tests: declaration_views(self.tests@), includes: texts(self.includes@) }
    }
}

/// The value that templates see for a node of the document: strings,
/// integers and booleans become the engine's, a datetime becomes its text,
/// arrays and tables are rebuilt item by item.
pub open spec fn liquid_of(node: Node) -> liquid::Value
    decreases node,
{
    match node {
        Node::Text(text) => text_value(text@),
        Node::Integer(number) => number_value(number),
        Node::Float(value) => value,
        Node::Flag(flag) => flag_value(flag),
        Node::Datetime(text) => text_value(text@),
        Node::List(items) => list_value(liquid_of_items(items@)),
        Node::Table(entries) => table_value(liquid_of_entries(entries@)),
    }
}

/// [`liquid_of`], item by item.
pub open spec fn liquid_of_items(items: Seq<Node>) -> Seq<liquid::Value>
    decreases items,
{
    if items.len() == 0 {
        Seq::empty()
    } else {
        liquid_of_items(items.drop_last()).push(liquid_of(items.last()))
    }
}

/// [`liquid_of`], entry by entry, the keys kept.
pub open spec fn liquid_of_entries(entries: Seq<(String, Node)>) -> Seq<(Seq<char>, liquid::Value)>
    decreases entries,
{
    if entries.len() == 0 {
        Seq::empty()
    } else {
        liquid_of_entries(entries.drop_last()).push((entries.last().0@, liquid_of(entries.last().1)))
    }
}

/// The string under `key`, if the node is a table that holds one there.
pub open spec fn string_field(node: Node, key: Seq<char>) -> Option<String> {
    match node.field(key) {
        Some(Node::Text(text)) => Some(text),
        _ => None,
    }
}

/// The name and the value of one entry of `env`.
pub open spec fn env_pair(table: Node) -> Result<(Seq<char>, Seq<char>), RunError> {
    match (string_field(table, "name"@), string_field(table, "value"@)) {
        (Some(name), Some(value)) => Ok((name@, value@)),
        (Some(name), None) => Err(RunError::EnvWithoutValue(name)),
        (None, Some(value)) => Err(RunError::EnvWithoutName(value)),
        (None, None) => Err(RunError::EnvWithoutNameOrValue),
    }
}

/// The pairs of all entries of `env`, or the error of the first entry that
/// has one.
pub open spec fn env_pairs(items: Seq<Node>) -> Result<Seq<(Seq<char>, Seq<char>)>, RunError>
    decreases items.len(),
{
    if items.len() == 0 {
        Ok(Seq::empty())
    } else {
        match env_pairs(items.drop_last()) {
            Err(error) => Err(error),
            Ok(pairs) => match env_pair(items.last()) {
                Err(error) => Err(error),
                Ok(pair) => Ok(pairs.push(pair)),
            },
        }
    }
}

/// The texts of the items, if all of them are strings.
pub open spec fn texts_of(items: Seq<Node>) -> Option<Seq<Seq<char>>>
    decreases items.len(),
{
    if items.len() == 0 {
        Some(Seq::empty())
    } else {
        match (texts_of(items.drop_last()), items.last().text()) {
            (Some(texts), Some(text)) => Some(texts.push(text)),
            _ => None,
        }
    }
}

/// The environment that a test declares: none, if it has no array `env`.
pub open spec fn declared_env(test: Node) -> Result<Seq<(Seq<char>, Seq<char>)>, RunError> {
    match test.list_field("env"@) {
        Some(items) => env_pairs(items),
        None => Ok(Seq::empty()),
    }
}

/// Whether a test asks for an empty environment: no, unless `clear_env` is a
/// boolean that says so.
pub open spec fn declared_clear_env(test: Node) -> bool {
    match test.field("clear_env"@) {
        Some(Node::Flag(flag)) => flag,
        _ => false,
    }
}

/// The test that an entry of `tests` declares. Its name must be a string and
/// its command a non-empty array of strings.
pub open spec fn declared_test(test: Node) -> Result<TestView, RunError> {
    match string_field(test, "name"@) {
        None => Err(RunError::MissingName),
        Some(name) => match test.list_field("command"@) {
            None => Err(RunError::MissingCommand),
            Some(items) => match texts_of(items) {
                None => Err(RunError::InvalidCommand(name)),
                Some(command) => if command.len() == 0 {
                    Err(RunError::InvalidCommand(name))
                } else {
                    match declared_env(test) {
                        Err(error) => Err(error),
                        Ok(env) => Ok(
                            TestView {
                                name: name@,
                                command,
                                env,
                                clear_env: declared_clear_env(test),
                            },
                        ),
                    }
                },
            },
        },
    }
}

/// The variable that one entry of `variables` declares: its values must be an
/// array.
pub open spec fn declared_variable(key: String, value: Node) -> Result<VariableView, RunError> {
    match value.items() {
        Some(items) => Ok(VariableView { name: key@, values: liquid_of_items(items) }),
        None => Err(RunError::VariableNotArray(key)),
    }
}

/// The variables of all entries, or the error of the first entry that has
/// one.
pub open spec fn variables_of(entries: Seq<(String, Node)>) -> Result<Seq<VariableView>, RunError>
    decreases entries.len(),
{
    if entries.len() == 0 {
        Ok(Seq::empty())
    } else {
        match variables_of(entries.drop_last()) {
            Err(error) => Err(error),
            Ok(variables) => match declared_variable(entries.last().0, entries.last().1) {
                Err(error) => Err(error),
                Ok(variable) => Ok(variables.push(variable)),
            },
        }
    }
}

/// The variables that a test declares: none, if it has no table `variables`.
pub open spec fn declared_variables(test: Node) -> Result<Seq<VariableView>, RunError> {
    match test.field("variables"@) {
        Some(Node::Table(entries)) => variables_of(entries@),
        _ => Ok(Seq::empty()),
    }
}

/// The declaration that an entry of `tests` makes.
pub open spec fn declaration_of(test: Node) -> Result<DeclarationView, RunError> {
    match declared_test(test) {
        Err(error) => Err(error),
        Ok(declared) => match declared_variables(test) {
            Err(error) => Err(error),
            Ok(variables) => Ok(DeclarationView { test: declared, variables }),
        },
    }
}

/// The declarations of all entries of `tests`, or the error of the first
/// entry that has one.
pub open spec fn declarations_of(items: Seq<Node>) -> Result<Seq<DeclarationView>, RunError>
    decreases items.len(),
{
    if items.len() == 0 {
        Ok(Seq::empty())
    } else {
        match declarations_of(items.drop_last()) {
            Err(error) => Err(error),
            Ok(declarations) => match declaration_of(items.last()) {
                Err(error) => Err(error),
                Ok(declaration) => Ok(declarations.push(declaration)),
            },
        }
    }
}

/// What a document holds. `tests` and `includes` count only where they are
/// arrays; the tests are read first, then the includes, which must be
/// strings.
pub open spec fn parsed(root: Node) -> Result<ParseView, RunError> {
    let tests = match root.list_field("tests"@) {
        Some(items) => declarations_of(items),
        None => Ok(Seq::empty()),
    };
    match tests {
        Err(error) => Err(error),
        Ok(tests) => match root.list_field("includes"@) {
            None => Ok(ParseView { tests, includes: Seq::empty() }),
            Some(items) => match texts_of(items) {
                None => Err(RunError::IncludeNotString),
                Some(includes) => Ok(ParseView { tests, includes }),
            },
        },
    }
}

/// What a configuration text holds.
pub open spec fn parsed_text(text: Seq<char>) -> Result<ParseView, RunError> {
    match document_of(text) {
        Err(message) => Err(RunError::Syntax(message)),
        Ok(root) => parsed(root),
    }
}

/// Whether `result` is what `expected` describes: the same error, or a value
/// with that content.
pub open spec fn delivers<T: View>(result: Result<T, RunError>, expected: Result<T::V, RunError>) -> bool {
    match expected {
        Ok(view) => result matches Ok(value) && value@ == view,
        Err(error) => result == Err::<T, RunError>(error),
    }
}

/// The string under `key` of a table.
fn get_str<'a>(node: &'a Node, key: &str) -> (found: Option<&'a String>)
    ensures
        match found {
            Some(text) => string_field(*node, key@) == Some(*text),
            None => string_field(*node, key@) is None,
        },
{
    match node.get(key) {
        Some(value) => value.as_str(),
        None => None,
    }
}

/// The array under `key` of a table.
fn get_array<'a>(node: &'a Node, key: &str) -> (found: Option<&'a Vec<Node>>)
    ensures
        match found {
            Some(items) => node.list_field(key@) == Some(items@),
            None => node.list_field(key@) is None,
        },
{
    match node.get(key) {
        Some(value) => value.as_array(),
        None => None,
    }
}

/// Copies out the texts of an array of strings.
fn strings_of(items: &Vec<Node>) -> (found: Option<Vec<String>>)
    ensures
        match found {
            Some(strings) => texts_of(items@) == Some(texts(strings@)),
            None => texts_of(items@) is None,
        },
{
    let mut strings: Vec<String> = Vec::new();
    let mut i: usize = 0;
    while i < items.len()
        invariant
            i <= items.len(),
            texts_of(items@.subrange(0, i as int)) == Some(texts(strings@)),
        decreases items.len() - i,
    {
        let ghost done = items@.subrange(0, i as int);
        let ghost next = items@.subrange(0, i + 1);
        assert(next.drop_last() =~= done);
        match items[i].as_str() {
            Some(text) => {
                strings.push(text.clone());
            },
            None => {
                proof {
                    lemma_texts_of_prefix(items@, i + 1);
                }
                return None;
            },
        }
        i = i + 1;
    }
    assert(items@.subrange(0, items.len() as int) =~= items@);
    Some(strings)
}

/// If some items at the front are not all strings, neither are all items.
proof fn lemma_texts_of_prefix(items: Seq<Node>, n: int)
    requires
        0 <= n <= items.len(),
        texts_of(items.subrange(0, n)) is None,
    ensures
        texts_of(items) is None,
    decreases items.len() - n,
{
    if n < items.len() {
        let next = items.subrange(0, n + 1);
        assert(next.drop_last() =~= items.subrange(0, n));
        lemma_texts_of_prefix(items, n + 1);
    } else {
        assert(items.subrange(0, n) =~= items);
    }
}

/// Reads one entry of `env`: a table with a string `name` and a string
/// `value`.
pub fn env_from_table(table: &Node) -> (pair: Result<(String, String), RunError>)
    ensures
        match env_pair(*table) {
            Ok(expected) => pair matches Ok(found) && (found.0@, found.1@) == expected,
            Err(error) => pair == Err::<(String, String), RunError>(error),
        },
{
    let name = get_str(table, "name");
    let value = get_str(table, "value");
    match (name, value) {
        (Some(name), Some(value)) => Ok((name.clone(), value.clone())),
        (Some(name), None) => Err(RunError::EnvWithoutValue(name.clone())),
        (None, Some(value)) => Err(RunError::EnvWithoutName(value.clone())),
        (None, None) => Err(RunError::EnvWithoutNameOrValue),
    }
}

/// The value that templates see for a node of the document.
pub fn toml_value_to_liquid(toml_value: &Node) -> (value: liquid::Value)
    ensures
        value == liquid_of(*toml_value),
    decreases toml_value,
{
    match toml_value {
        Node::Text(text) => make_text(text.clone()),
        Node::Integer(number) => make_number(*number),
        Node::Float(value) => value.clone(),
        Node::Flag(flag) => make_flag(*flag),
        Node::Datetime(text) => make_text(text.clone()),
        Node::List(items) => {
            let mut values: Vec<liquid::Value> = Vec::new();
            let mut i: usize = 0;
            while i < items.len()
                invariant
                    i <= items.len(),
                    *toml_value == Node::List(*items),
                    values@ == liquid_of_items(items@.subrange(0, i as int)),
                decreases items.len() - i,
            {
                let ghost next = items@.subrange(0, i + 1);
                assert(next.drop_last() =~= items@.subrange(0, i as int));
                assert(decreases_to!(*toml_value => toml_value->List_0));
                values.push(toml_value_to_liquid(&items[i]));
                i = i + 1;
            }
            assert(items@.subrange(0, items.len() as int) =~= items@);
            make_list(values)
        },
        Node::Table(entries) => {
            let mut values: Vec<(String, liquid::Value)> = Vec::new();
            let mut i: usize = 0;
            while i < entries.len()
                invariant
                    i <= entries.len(),
                    *toml_value == Node::Table(*entries),
                    crate::engine::keyed(values@) == liquid_of_entries(entries@.subrange(0, i as int)),
                decreases entries.len() - i,
            {
                let ghost next = entries@.subrange(0, i + 1);
                assert(next.drop_last() =~= entries@.subrange(0, i as int));
                assert(decreases_to!(*toml_value => toml_value->Table_0));
                let value = toml_value_to_liquid(&entries[i].1);
                let key = entries[i].0.clone();
                values.push((key, value));
                i = i + 1;
            }
            assert(entries@.subrange(0, entries.len() as int) =~= entries@);
            make_table(values)
        },
    }
}

/// The values of all items, in order.
fn values_of(items: &Vec<Node>) -> (values: Vec<liquid::Value>)
    ensures
        values@ == liquid_of_items(items@),
{
    let mut values: Vec<liquid::Value> = Vec::new();
    let mut i: usize = 0;
    while i < items.len()
        invariant
            i <= items.len(),
            values@ == liquid_of_items(items@.subrange(0, i as int)),
        decreases items.len() - i,
    {
        let ghost next = items@.subrange(0, i + 1);
        assert(next.drop_last() =~= items@.subrange(0, i as int));
        values.push(toml_value_to_liquid(&items[i]));
        i = i + 1;
    }
    assert(items@.subrange(0, items.len() as int) =~= items@);
    values
}

impl Variable {
    /// Reads one entry of `variables`: the key is the variable's name, the
    /// value the array of its values.
    pub fn try_from_tuple(entry: (&String, &Node)) -> (variable: Result<Variable, RunError>)
        ensures
            delivers(variable, declared_variable(*entry.0, *entry.1)),
    {
        match entry.1.as_array() {
            Some(items) => Ok(Variable { name: entry.0.clone(), values: values_of(items) }),
            None => Err(RunError::VariableNotArray(entry.0.clone())),
        }
    }
}

/// If the entries at the front hold an error, it is the error of all.
proof fn lemma_variables_of_prefix(entries: Seq<(String, Node)>, n: int)
    requires
        0 <= n <= entries.len(),
        variables_of(entries.subrange(0, n)) is Err,
    ensures
        variables_of(entries) == variables_of(entries.subrange(0, n)),
    decreases entries.len() - n,
{
    if n < entries.len() {
        let next = entries.subrange(0, n + 1);
        assert(next.drop_last() =~= entries.subrange(0, n));
        lemma_variables_of_prefix(entries, n + 1);
    } else {
        assert(entries.subrange(0, n) =~= entries);
    }
}

/// If the entries at the front hold an error, it is the error of all.
proof fn lemma_env_pairs_prefix(items: Seq<Node>, n: int)
    requires
        0 <= n <= items.len(),
        env_pairs(items.subrange(0, n)) is Err,
    ensures
        env_pairs(items) == env_pairs(items.subrange(0, n)),
    decreases items.len() - n,
{
    if n < items.len() {
        let next = items.subrange(0, n + 1);
        assert(next.drop_last() =~= items.subrange(0, n));
        lemma_env_pairs_prefix(items, n + 1);
    } else {
        assert(items.subrange(0, n) =~= items);
    }
}

/// If the entries at the front hold an error, it is the error of all.
proof fn lemma_declarations_of_prefix(items: Seq<Node>, n: int)
    requires
        0 <= n <= items.len(),
        declarations_of(items.subrange(0, n)) is Err,
    ensures
        declarations_of(items) == declarations_of(items.subrange(0, n)),
    decreases items.len() - n,
{
    if n < items.len() {
        let next = items.subrange(0, n + 1);
        assert(next.drop_last() =~= items.subrange(0, n));
        lemma_declarations_of_prefix(items, n + 1);
    } else {
        assert(items.subrange(0, n) =~= items);
    }
}

/// Reads the table `variables` of a test, entry by entry.
pub fn variables_from_toml(test: &Node) -> (variables: Result<Vec<Variable>, RunError>)
    ensures
        match declared_variables(*test) {
            Ok(expected) => variables matches Ok(found) && variable_views(found@) == expected,
            Err(error) => variables == Err::<Vec<Variable>, RunError>(error),
        },
{
    let entries = match test.get("variables") {
        Some(table) => match table.as_table() {
            Some(entries) => entries,
            None => {
                let none: Vec<Variable> = Vec::new();
                return Ok(none);
            },
        },
        None => {
            let none: Vec<Variable> = Vec::new();
            return Ok(none);
        },
    };
    let mut variables: Vec<Variable> = Vec::new();
    let mut i: usize = 0;
    assert(variable_views(variables@) =~= Seq::empty());
    while i < entries.len()
        invariant
            i <= entries.len(),
            declared_variables(*test) == variables_of(entries@),
            variables_of(entries@.subrange(0, i as int)) == Ok::<Seq<VariableView>, RunError>(
                variable_views(variables@),
            ),
        decreases entries.len() - i,
    {
        let ghost next = entries@.subrange(0, i + 1);
        let ghost found = variable_views(variables@);
        assert(next.drop_last() =~= entries@.subrange(0, i as int));
        match Variable::try_from_tuple((&entries[i].0, &entries[i].1)) {
            Ok(variable) => {
                variables.push(variable);
                assert(variable_views(variables@) =~= found.push(variable@));
            },
            Err(error) => {
                proof {
                    lemma_variables_of_prefix(entries@, i + 1);
                }
                return Err(error);
            },
        }
        i = i + 1;
    }
    assert(entries@.subrange(0, entries.len() as int) =~= entries@);
    Ok(variables)
}

/// Reads the array `env` of a test, entry by entry.
fn env_from_toml(test: &Node) -> (env: Result<Vec<(String, String)>, RunError>)
    ensures
        match declared_env(*test) {
            Ok(expected) => env matches Ok(found) && crate::test::pair_texts(found@) == expected,
            Err(error) => env == Err::<Vec<(String, String)>, RunError>(error),
        },
{
    let mut env: Vec<(String, String)> = Vec::new();
    assert(crate::test::pair_texts(env@) =~= Seq::empty());
    let items = match get_array(test, "env") {
        Some(items) => items,
        None => {
            return Ok(env);
        },
    };
    let mut i: usize = 0;
    while i < items.len()
        invariant
            i <= items.len(),
            declared_env(*test) == env_pairs(items@),
            env_pairs(items@.subrange(0, i as int)) == Ok::<Seq<(Seq<char>, Seq<char>)>, RunError>(
                crate::test::pair_texts(env@),
            ),
        decreases items.len() - i,
    {
        let ghost next = items@.subrange(0, i + 1);
        let ghost found = crate::test::pair_texts(env@);
        assert(next.drop_last() =~= items@.subrange(0, i as int));
        match env_from_table(&items[i]) {
            Ok(pair) => {
                env.push(pair);
                assert(crate::test::pair_texts(env@) =~= found.push((pair.0@, pair.1@)));
            },
            Err(error) => {
                proof {
                    lemma_env_pairs_prefix(items@, i + 1);
                }
                return Err(error);
            },
        }
        i = i + 1;
    }
    assert(items@.subrange(0, items.len() as int) =~= items@);
    Ok(env)
}

/// Reads one entry of `tests`: a table with a string `name`, a non-empty
/// array of strings `command`, and, if it has them, a boolean `clear_env`
/// and an array `env`.
pub fn test_from_toml(test: &Node) -> (declared: Result<Test, RunError>)
    ensures
        delivers(declared, declared_test(*test)),
{
    let name = match get_str(test, "name") {
        Some(name) => name,
        None => {
            return Err(RunError::MissingName);
        },
    };
    let command = match get_array(test, "command") {
        Some(items) => match strings_of(items) {
            Some(command) => command,
            None => {
                return Err(RunError::InvalidCommand(name.clone()));
            },
        },
        None => {
            return Err(RunError::MissingCommand);
        },
    };
    if command.len() == 0 {
        return Err(RunError::InvalidCommand(name.clone()));
    }
    let clear_env = match test.get("clear_env") {
        Some(value) => match value.as_bool() {
            Some(flag) => flag,
            None => false,
        },
        None => false,
    };
    let env = match env_from_toml(test) {
        Ok(env) => env,
        Err(error) => {
            return Err(error);
        },
    };
    Ok(Test::new(name.clone(), command, clear_env, env))
}

/// Reads one entry of `tests` with its variables.
pub fn declaration_from_toml(test: &Node) -> (declaration: Result<Declaration, RunError>)
    ensures
        delivers(declaration, declaration_of(*test)),
{
    let declared = match test_from_toml(test) {
        Ok(declared) => declared,
        Err(error) => {
            return Err(error);
        },
    };
    let variables = match variables_from_toml(test) {
        Ok(variables) => variables,
        Err(error) => {
            return Err(error);
        },
    };
    Ok(Declaration { test: declared, variables })
}

/// Reads a configuration text: the tests it declares and the patterns of the
/// files it includes. The first thing that is wrong, in the order of the
/// text's tests and then of its includes, is the error.
pub fn parse_config(config_text: &str) -> (config: Result<ParseResult, RunError>)
    ensures
        delivers(config, parsed_text(config_text@)),
{
    let root = match read_document(config_text) {
        Ok(root) => root,
        Err(error) => {
            return Err(error);
        },
    };
    let mut tests: Vec<Declaration> = Vec::new();
    assert(declaration_views(tests@) =~= Seq::empty());
    match get_array(&root, "tests") {
        Some(items) => {
            let mut i: usize = 0;
            while i < items.len()
                invariant
                    i <= items.len(),
                    root.list_field("tests"@) == Some(items@),
                    document_of(config_text@) == Ok::<Node, String>(root),
                    declarations_of(items@.subrange(0, i as int)) == Ok::<
                        Seq<DeclarationView>,
                        RunError,
                    >(declaration_views(tests@)),
                decreases items.len() - i,
            {
                let ghost next = items@.subrange(0, i + 1);
                let ghost found = declaration_views(tests@);
                assert(next.drop_last() =~= items@.subrange(0, i as int));
                match declaration_from_toml(&items[i]) {
                    Ok(declaration) => {
                        tests.push(declaration);
                        assert(declaration_views(tests@) =~= found.push(declaration@));
                    },
                    Err(error) => {
                        proof {
                            lemma_declarations_of_prefix(items@, i + 1);
                        }
                        return Err(error);
                    },
                }
                i = i + 1;
            }
            assert(items@.subrange(0, items.len() as int) =~= items@);
        },
        None => {},
    }
    let includes = match get_array(&root, "includes") {
        Some(items) => match strings_of(items) {
            Some(includes) => includes,
            None => {
                return Err(RunError::IncludeNotString);
            },
        },
        None => {
            let none: Vec<String> = Vec::new();
            assert(texts(none@) =~= Seq::empty());
            none
        },
    };
    Ok(ParseResult { tests, includes })
}

/// Every declaration of a list that is read without error is the
/// declaration of the entry at its place.
pub proof fn lemma_declarations_of_each(items: Seq<Node>, index: int)
    requires
        declarations_of(items) is Ok,
        0 <= index < items.len(),
    ensures
        declarations_of(items)->Ok_0.len() == items.len(),
        declaration_of(items[index]) == Ok::<DeclarationView, RunError>(
            declarations_of(items)->Ok_0[index],
        ),
    decreases items.len(),
{
    lemma_declarations_of_len(items);
    if index < items.len() - 1 {
        lemma_declarations_of_each(items.drop_last(), index);
    }
}

/// A list that is read without error gives one declaration for each entry.
pub proof fn lemma_declarations_of_len(items: Seq<Node>)
    requires
        declarations_of(items) is Ok,
    ensures
        declarations_of(items)->Ok_0.len() == items.len(),
    decreases items.len(),
{
    if items.len() > 0 {
        lemma_declarations_of_len(items.drop_last());
    }
}

/// The command of a declared test is never empty.
pub proof fn lemma_declared_command(text: Seq<char>, index: int)
    requires
        parsed_text(text) is Ok,
        0 <= index < parsed_text(text)->Ok_0.tests.len(),
    ensures
        parsed_text(text)->Ok_0.tests[index].test.command.len() > 0,
{
    let root = document_of(text)->Ok_0;
    match root.list_field("tests"@) {
        Some(items) => {
            lemma_declarations_of_len(items);
            lemma_declarations_of_each(items, index);
        },
        None => {},
    }
}

} // verus!
