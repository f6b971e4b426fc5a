//! The template engine: templates are compiled and rendered by `liquid`,
//! whose types are opaque here.

use vstd::prelude::*;

use crate::markup::{literal, plain};

verus! {

/// A compiled template.
#[verifier::external_type_specification]
#[verifier::external_body]
pub struct ExTemplate(liquid::Template);

/// A value that a template can refer to.
#[verifier::external_type_specification]
#[verifier::external_body]
pub struct ExValue(liquid::Value);

/// What the engine reports when it cannot compile or render.
#[verifier::external_type_specification]
#[verifier::external_body]
pub struct ExEngineError(liquid::Error);

/// `liquid::Value` derives `Clone`: the copy is the same value.
pub assume_specification[ <liquid::Value as Clone>::clone ](value: &liquid::Value) -> (copy:
    liquid::Value)
    ensures
        copy == *value,
;

/// The engine's string value with the given text.
pub uninterp spec fn text_value(text: Seq<char>) -> liquid::Value;

/// The engine's number that stands for the given integer.
pub uninterp spec fn number_value(number: i64) -> liquid::Value;

/// The engine's boolean value.
pub uninterp spec fn flag_value(flag: bool) -> liquid::Value;

/// The engine's array with the given items.
pub uninterp spec fn list_value(items: Seq<liquid::Value>) -> liquid::Value;

/// The engine's object built from the given entries in order, a later entry
/// replacing an earlier one of the same key.
pub uninterp spec fn table_value(entries: Seq<(Seq<char>, liquid::Value)>) -> liquid::Value;

/// The keys of the entries as texts, the values unchanged.
pub open spec fn keyed(entries: Seq<(String, liquid::Value)>) -> Seq<(Seq<char>, liquid::Value)> {
    entries.map_values(|entry: (String, liquid::Value)| (entry.0@, entry.1))
}

/// Builds `liquid::Value::Str`, which holds the text as it is.
#[verifier::external_body]
pub(crate) fn make_text(text: String) -> (value: liquid::Value)
    ensures
        value == text_value(text@),
{
    liquid::Value::Str(text)
}

/// Builds `liquid::Value::Num`, which holds the integer converted to the
/// engine's number type.
#[verifier::external_body]
pub(crate) fn make_number(number: i64) -> (value: liquid::Value)
    ensures
        value == number_value(number),
{
    liquid::Value::Num(number as _)
}

/// Builds `liquid::Value::Bool`.
#[verifier::external_body]
pub(crate) fn make_flag(flag: bool) -> (value: liquid::Value)
    ensures
        value == flag_value(flag),
{
    liquid::Value::Bool(flag)
}

/// Builds `liquid::Value::Array`, which holds the items in order.
#[verifier::external_body]
pub(crate) fn make_list(items: Vec<liquid::Value>) -> (value: liquid::Value)
    ensures
        value == list_value(items@),
{
    liquid::Value::Array(items)
}

/// Builds `liquid::Value::Object`, a hash map filled with the entries in
/// order.
#[verifier::external_body]
pub(crate) fn make_table(entries: Vec<(String, liquid::Value)>) -> (value: liquid::Value)
    ensures
        value == table_value(keyed(entries@)),
{
    liquid::Value::Object(entries.into_iter().collect())
}

/// What the engine says of an error.
pub uninterp spec fn message_text(error: liquid::Error) -> Seq<char>;

/// The engine's own description of an error, from its `Display`.
#[verifier::external_body]
pub(crate) fn describe(error: &liquid::Error) -> (text: String)
    ensures
        text@ == message_text(*error),
{
    error.to_string()
}

/// The values that names stand for when the entries are bound in order, a
/// later entry replacing an earlier one of the same name.
pub open spec fn bound(entries: Seq<(String, liquid::Value)>) -> Map<Seq<char>, liquid::Value>
    decreases entries.len(),
{
    if entries.len() == 0 {
        Map::empty()
    } else {
        bound(entries.drop_last()).insert(entries.last().0@, entries.last().1)
    }
}

/// No two entries have the same name.
pub open spec fn distinct(entries: Seq<(String, liquid::Value)>) -> bool {
    forall|i: int, j: int| 0 <= i < j < entries.len() ==> entries[i].0@ != entries[j].0@
}

/// Replacing the value of the one entry with a name binds that name anew and
/// leaves the others as they were.
proof fn lemma_bound_update(
    entries: Seq<(String, liquid::Value)>,
    i: int,
    name: String,
    value: liquid::Value,
)
    requires
        distinct(entries),
        0 <= i < entries.len(),
        entries[i].0@ == name@,
    ensures
        distinct(entries.update(i, (name, value))),
        bound(entries.update(i, (name, value))) == bound(entries).insert(name@, value),
    decreases entries.len(),
{
    let updated = entries.update(i, (name, value));
    let front = entries.drop_last();
    if i == entries.len() - 1 {
        assert(updated.drop_last() =~= front);
    } else {
        assert(updated.drop_last() =~= front.update(i, (name, value)));
        lemma_bound_update(front, i, name, value);
    }
}

/// What the engine can answer when it is asked to render: a text, nothing,
/// or an error.
pub enum Rendering {
    Text(Seq<char>),
    Nothing,
    Failure,
}

/// Holds of a text and a template where the engine, asked to compile the
/// text, can answer with the template; and of a text and no template where
/// it can answer with an error. Nothing is claimed of which texts the engine
/// compiles, beyond what the call that asks it says.
pub uninterp spec fn compiles_to(text: Seq<char>, template: Option<liquid::Template>) -> bool;

/// Holds of a template, bindings and an answer where the engine, asked to
/// render the template with the bindings, can give that answer. It is a
/// relation and no function: what the engine answers may depend on more than
/// these, on the order in which the hash map of an object is walked.
pub uninterp spec fn renders_to(
    template: liquid::Template,
    bindings: Map<Seq<char>, liquid::Value>,
    rendering: Rendering,
) -> bool;

/// The answer that the engine gave to a request to compile.
pub open spec fn compiled_answer(parsed: Result<liquid::Template, liquid::Error>) -> Option<
    liquid::Template,
> {
    match parsed {
        Ok(template) => Some(template),
        Err(_) => None,
    }
}

/// The answer that the engine gave to a request to render.
pub open spec fn rendered_answer(rendered: Result<Option<String>, liquid::Error>) -> Rendering {
    match rendered {
        Ok(Some(text)) => Rendering::Text(text@),
        Ok(None) => Rendering::Nothing,
        Err(_) => Rendering::Failure,
    }
}

/// Whether the template is one that the engine compiled a text of the
/// template language to: literal text and references to names.
pub open spec fn safe(template: liquid::Template) -> bool {
    exists|text: Seq<char>| plain(text) && #[trigger] compiles_to(text, Some(template))
}

/// Calls `liquid::parse` with the default options. What comes back, a
/// template or an error, is an answer of the engine to the text; and a text
/// without markup, which the engine takes as it is, always compiles.
///
/// Only texts of the template language are admitted: on markup with nothing
/// in it, or with a name that it reads as a truth value, the engine panics.
#[verifier::external_body]
fn parse_template(text: &str) -> (parsed: Result<liquid::Template, liquid::Error>)
    requires
        plain(text@),
    ensures
        compiles_to(text@, compiled_answer(parsed)),
        literal(text@) ==> parsed is Ok,
{
    liquid::parse(text, Default::default())
}

/// Calls `liquid::Renderable::render` on the template, with a fresh
/// `liquid::Context` whose values are the given bindings, a later binding
/// replacing an earlier one of the same name. What comes back, a text,
/// nothing or an error, is an answer of the engine to the template under
/// these bindings; and the template of a text without markup renders to
/// that text.
///
/// Only templates of texts of the template language are admitted: some tags
/// and filters that compile make the engine panic when they are rendered.
#[verifier::external_body]
fn render_template(
    template: &liquid::Template,
    bindings: &Vec<(String, liquid::Value)>,
) -> (rendered: Result<Option<String>, liquid::Error>)
    requires
        safe(*template),
    ensures
        renders_to(*template, bound(bindings@), rendered_answer(rendered)),
        forall|text: Seq<char>|
            literal(text) && #[trigger] compiles_to(text, Some(*template)) ==> rendered_answer(
                rendered,
            ) == Rendering::Text(text),
{
    let mut context = liquid::Context::with_values(bindings.iter().cloned().collect());
    liquid::Renderable::render(template, &mut context)
}

/// The variables that a template is rendered with: each name stands for one
/// value.
#[derive(Debug)]
pub struct Bindings {
    entries: Vec<(String, liquid::Value)>,
}

impl View for Bindings {
    type V = Map<Seq<char>, liquid::Value>;

    closed spec fn view(&self) -> Map<Seq<char>, liquid::Value> {
        bound(self.entries@)
    }
}

impl Bindings {
    /// No name is bound twice.
    pub closed spec fn wf(&self) -> bool {
        distinct(self.entries@)
    }

    /// No name is bound.
    pub fn new() -> (bindings: Bindings)
        ensures
            bindings.wf(),
            bindings@ == Map::<Seq<char>, liquid::Value>::empty(),
    {
        Bindings { entries: Vec::new() }
    }

    /// Binds `name` to `value`, in place of what it stood for before.
    pub fn bind(&mut self, name: String, value: liquid::Value)
        requires
            old(self).wf(),
        ensures
            final(self).wf(),
            final(self)@ == old(self)@.insert(name@, value),
    {
        let mut i: usize = 0;
        while i < self.entries.len()
            invariant
                i <= self.entries.len(),
                *self == *old(self),
                distinct(self.entries@),
                forall|k: int| 0 <= k < i ==> self.entries@[k].0@ != name@,
            decreases self.entries.len() - i,
        {
            if self.entries[i].0 == name {
                proof {
                    lemma_bound_update(self.entries@, i as int, name, value);
                }
                self.entries.set(i, (name, value));
                return ;
            }
            i = i + 1;
        }
        let ghost before = self.entries@;
        self.entries.push((name, value));
        assert(self.entries@.drop_last() =~= before);
    }

    /// Renders the template with these bindings. What the engine answers is
    /// its own to say.
    pub(crate) fn render(&self, template: &liquid::Template) -> (rendered: Result<
        Option<String>,
        liquid::Error,
    >)
        requires
            safe(*template),
        ensures
            renders_to(*template, self@, rendered_answer(rendered)),
            forall|text: Seq<char>|
                literal(text) && #[trigger] compiles_to(text, Some(*template)) ==> rendered_answer(
                    rendered,
                ) == Rendering::Text(text),
    {
        render_template(template, &self.entries)
    }
}

/// Compiles a template. What the engine answers is its own to say.
pub(crate) fn compile(text: &str) -> (parsed: Result<liquid::Template, liquid::Error>)
    requires
        plain(text@),
    ensures
        compiles_to(text@, compiled_answer(parsed)),
        literal(text@) ==> parsed is Ok,
{
    parse_template(text)
}

} // verus!
