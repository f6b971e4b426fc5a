//! From a declared test to its instances: the templates are compiled, then
//! rendered once for every combination of the values of the variables.

use vstd::prelude::*;

use crate::config::{variable_views, Declaration, DeclarationView, Variable, VariableView};
use crate::engine::{
    compile, compiles_to, describe, make_text, message_text, renders_to, safe, text_value,
    Bindings, Rendering,
};
use crate::error::{Field, RunError};
use crate::markup::{is_plain, lemma_literal_is_plain, literal, plain};
use crate::test::{Test, TestView};

verus! {

/// A declared test with every template compiled.
pub struct TestTemplate {
    pub name: liquid::Template,
    pub command: Vec<liquid::Template>,
    pub clear_env: bool,
    pub env: Vec<(liquid::Template, liquid::Template)>,
}

/// The contents of a sequence of tests.
pub open spec fn test_views(tests: Seq<Test>) -> Seq<TestView> {
    tests.map_values(|test: Test| test@)
}

/// Whether the engine can make the template of the text, which is of the
/// template language.
pub open spec fn turns(text: Seq<char>, template: liquid::Template) -> bool {
    plain(text) && compiles_to(text, Some(template))
}

/// Whether the text can be refused: it is not of the template language, or
/// the engine can answer it with an error.
pub open spec fn refuses(text: Seq<char>) -> bool {
    !plain(text) || compiles_to(text, None)
}

/// Whether `text` can come of rendering the template with the bindings: the
/// engine can answer with it, or with nothing where it is empty.
pub open spec fn renders(
    template: liquid::Template,
    bindings: Map<Seq<char>, liquid::Value>,
    text: Seq<char>,
) -> bool {
    ||| renders_to(template, bindings, Rendering::Text(text))
    ||| text.len() == 0 && renders_to(template, bindings, Rendering::Nothing)
}

/// Whether what was rendered is the text that the template was made of,
/// wherever that text holds no markup: then `rendered` is that text.
pub open spec fn echoes(template: liquid::Template, rendered: Option<Seq<char>>) -> bool {
    forall|text: Seq<char>|
        literal(text) && #[trigger] compiles_to(text, Some(template)) ==> rendered == Some(text)
}

/// What becomes of a template that the engine was asked to compile: the
/// template itself, or an error that names the field it was for and holds
/// the engine's message.
pub fn compiled(field: Field, parsed: Result<liquid::Template, liquid::Error>) -> (template: Result<
    liquid::Template,
    RunError,
>)
    ensures
        match parsed {
            Ok(found) => template == Ok::<liquid::Template, RunError>(found),
            Err(error) => template matches Err(RunError::Compile { field: named, message }) && named
                == field && message@ == message_text(error),
        },
{
    match parsed {
        Ok(found) => Ok(found),
        Err(error) => Err(RunError::Compile { field, message: describe(&error) }),
    }
}

/// What becomes of a field that the engine was asked to render: its text,
/// which is empty where the engine gave none, or an error that names the
/// field and holds the engine's message.
pub fn rendered(field: Field, outcome: Result<Option<String>, liquid::Error>) -> (text: Result<
    String,
    RunError,
>)
    ensures
        match outcome {
            Ok(Some(found)) => text == Ok::<String, RunError>(found),
            Ok(None) => text matches Ok(empty) && empty@.len() == 0,
            Err(error) => text matches Err(RunError::Render { field: named, message }) && named
                == field && message@ == message_text(error),
        },
{
    match outcome {
        Ok(Some(found)) => Ok(found),
        Ok(None) => Ok(String::new()),
        Err(error) => Err(RunError::Render { field, message: describe(&error) }),
    }
}

/// Whether a field belongs to a test with so many arguments and environment
/// pairs.
pub open spec fn field_within(field: Field, arguments: nat, pairs: nat) -> bool {
    match field {
        Field::Name => true,
        Field::Argument(index) => index < arguments,
        Field::EnvName(index) => index < pairs,
        Field::EnvValue(index) => index < pairs,
    }
}

/// Compiles the template of one field. A text that is not of the template
/// language is refused here; the others are for the engine to compile,
/// which takes a text without markup as it is.
pub fn compile_field(field: Field, text: &str) -> (template: Result<liquid::Template, RunError>)
    ensures
        match template {
            Ok(template) => turns(text@, template),
            Err(error) => {
                &&& error matches RunError::Compile { field: named, .. } && named == field
                &&& refuses(text@)
            },
        },
        !plain(text@) ==> template is Err,
        literal(text@) ==> template is Ok,
{
    proof {
        if literal(text@) {
            lemma_literal_is_plain(text@);
        }
    }
    if !is_plain(text) {
        return Err(
            RunError::Compile {
                field,
                message: "a template holds text and names in {{ }} only".to_owned(),
            },
        );
    }
    compiled(field, compile(text))
}

/// Renders the template of one field.
fn render_field(field: Field, template: &liquid::Template, bindings: &Bindings) -> (text: Result<
    String,
    RunError,
>)
    requires
        safe(*template),
    ensures
        match text {
            Ok(text) => renders(*template, bindings@, text@) && echoes(*template, Some(text@)),
            Err(error) => {
                &&& error matches RunError::Render { field: named, .. } && named == field
                &&& renders_to(*template, bindings@, Rendering::Failure)
                &&& echoes(*template, None)
            },
        },
{
    let outcome = bindings.render(template);
    rendered(field, outcome)
}

/// The text of a field of a test.
pub open spec fn field_text(test: TestView, field: Field) -> Seq<char> {
    match field {
        Field::Name => test.name,
        Field::Argument(index) => test.command[index as int],
        Field::EnvName(index) => test.env[index as int].0,
        Field::EnvValue(index) => test.env[index as int].1,
    }
}

/// Whether no field of the test holds markup.
pub open spec fn literal_test(test: TestView) -> bool {
    &&& literal(test.name)
    &&& forall|i: int| 0 <= i < test.command.len() ==> literal(#[trigger] test.command[i])
    &&& forall|i: int|
        0 <= i < test.env.len() ==> literal((#[trigger] test.env[i]).0) && literal(test.env[i].1)
}

impl TestTemplate {
    /// Whether the templates are what the engine compiled the fields of
    /// `test` to, one for one.
    pub open spec fn compiled_from(&self, test: TestView) -> bool {
        &&& turns(test.name, self.name)
        &&& self.command@.len() == test.command.len()
        &&& forall|i: int|
            0 <= i < test.command.len() ==> turns(#[trigger] test.command[i], self.command@[i])
        &&& self.env@.len() == test.env.len()
        &&& forall|i: int|
            0 <= i < test.env.len() ==> {
                &&& turns((#[trigger] test.env[i]).0, self.env@[i].0)
                &&& turns(test.env[i].1, self.env@[i].1)
            }
        &&& self.clear_env == test.clear_env
    }

    /// Whether every template is one of a text of the template language.
    pub open spec fn wf(&self) -> bool {
        &&& safe(self.name)
        &&& forall|i: int| 0 <= i < self.command@.len() ==> safe(#[trigger] self.command@[i])
        &&& forall|i: int|
            0 <= i < self.env@.len() ==> safe((#[trigger] self.env@[i]).0) && safe(self.env@[i].1)
    }

    /// The template of a field.
    pub open spec fn field_template(&self, field: Field) -> liquid::Template {
        match field {
            Field::Name => self.name,
            Field::Argument(index) => self.command@[index as int],
            Field::EnvName(index) => self.env@[index as int].0,
            Field::EnvValue(index) => self.env@[index as int].1,
        }
    }

    /// Whether `test` can come of rendering the templates with the bindings:
    /// every field of its template, all with the same bindings, and
    /// `clear_env` as it is.
    pub open spec fn instance(&self, bindings: Map<Seq<char>, liquid::Value>, test: TestView) -> bool {
        &&& renders(self.name, bindings, test.name)
        &&& test.command.len() == self.command@.len()
        &&& forall|i: int|
            0 <= i < test.command.len() ==> renders(
                self.command@[i],
                bindings,
                #[trigger] test.command[i],
            )
        &&& test.env.len() == self.env@.len()
        &&& forall|i: int|
            0 <= i < test.env.len() ==> {
                &&& renders(self.env@[i].0, bindings, (#[trigger] test.env[i]).0)
                &&& renders(self.env@[i].1, bindings, test.env[i].1)
            }
        &&& test.clear_env == self.clear_env
    }

    /// Whether `error` says that rendering an instance with the bindings
    /// failed at one of the fields of this template: the engine can answer
    /// with an error to the template of the field under these bindings.
    pub open spec fn fails(&self, bindings: Map<Seq<char>, liquid::Value>, error: RunError) -> bool {
        &&& error matches RunError::Render { field, .. }
        &&& field_within(error->Render_field, self.command@.len(), self.env@.len())
        &&& renders_to(self.field_template(error->Render_field), bindings, Rendering::Failure)
    }

    /// Whether `outcome` is what rendering gives wherever the templates were
    /// compiled from a test without markup: that test, as it is.
    pub open spec fn verbatim(&self, outcome: Option<TestView>) -> bool {
        forall|source: TestView| #[trigger]
            self.compiled_from(source) && literal_test(source) ==> outcome == Some(source)
    }

    /// Compiles the name, then the arguments, then the environment pairs,
    /// name before value, and stops at the first that does not compile.
    ///
    /// A field that is not of the template language is refused. Of the
    /// others the engine decides which compile, but for a text without
    /// markup, which always does. Whatever it says, a success holds what it
    /// compiled the fields of `test` to, and an error names a field of
    /// `test` that was refused.
    pub fn try_from_test(test: &Test) -> (template: Result<TestTemplate, RunError>)
        ensures
            match template {
                Ok(template) => template.compiled_from(test@) && template.wf(),
                Err(error) => {
                    &&& error matches RunError::Compile { field, .. }
                    &&& field_within(error->Compile_field, test@.command.len(), test@.env.len())
                    &&& refuses(field_text(test@, error->Compile_field))
                },
            },
            literal_test(test@) ==> template is Ok,
    {
        let name = match compile_field(Field::Name, test.name.as_str()) {
            Ok(template) => template,
            Err(error) => {
                return Err(error);
            },
        };
        let mut command: Vec<liquid::Template> = Vec::new();
        let mut i: usize = 0;
        while i < test.command.len()
            invariant
                i <= test.command.len(),
                command@.len() == i,
                forall|k: int| 0 <= k < i ==> turns(#[trigger] test@.command[k], command@[k]),
            decreases test.command.len() - i,
        {
            assert(test@.command[i as int] == test.command@[i as int]@);
            match compile_field(Field::Argument(i), test.command[i].as_str()) {
                Ok(template) => command.push(template),
                Err(error) => {
                    return Err(error);
                },
            }
            i = i + 1;
        }
        let mut env: Vec<(liquid::Template, liquid::Template)> = Vec::new();
        let mut j: usize = 0;
        while j < test.env.len()
            invariant
                j <= test.env.len(),
                env@.len() == j,
                forall|k: int|
                    0 <= k < j ==> {
                        &&& turns((#[trigger] test@.env[k]).0, env@[k].0)
                        &&& turns(test@.env[k].1, env@[k].1)
                    },
            decreases test.env.len() - j,
        {
            assert(test@.env[j as int] == (test.env@[j as int].0@, test.env@[j as int].1@));
            let key = match compile_field(Field::EnvName(j), test.env[j].0.as_str()) {
                Ok(template) => template,
                Err(error) => {
                    return Err(error);
                },
            };
            let value = match compile_field(Field::EnvValue(j), test.env[j].1.as_str()) {
                Ok(template) => template,
                Err(error) => {
                    return Err(error);
                },
            };
            env.push((key, value));
            j = j + 1;
        }
        let template = TestTemplate { name, command, clear_env: test.clear_env, env };
        proof {
            lemma_compiled_is_safe(template, test@);
        }
        Ok(template)
    }

    /// Renders one instance with the values bound so far: the name, the
    /// arguments and the environment pairs, name before value, all with the
    /// same bindings. Afterwards the rendered name is bound to `name`. It
    /// stops at the first field that cannot be rendered.
    ///
    /// The engine decides what each field renders to, but for the template
    /// of a text without markup, which renders to that text. Whatever it
    /// says, a success is an instance of this template under the bindings,
    /// and an error names a field of the template at which rendering failed.
    pub fn render(&self, variables_values: &mut Bindings) -> (instance: Result<Test, RunError>)
        requires
            self.wf(),
            old(variables_values).wf(),
        ensures
            final(variables_values).wf(),
            match instance {
                Ok(test) => {
                    &&& self.instance(old(variables_values)@, test@)
                    &&& final(variables_values)@ == old(variables_values)@.insert(
                        "name"@,
                        text_value(test.name@),
                    )
                    &&& self.verbatim(Some(test@))
                },
                Err(error) => {
                    &&& self.fails(old(variables_values)@, error)
                    &&& final(variables_values)@ == old(variables_values)@
                    &&& self.verbatim(None)
                },
            },
    {
        let ghost start = variables_values@;
        let ghost bindings = *variables_values;
        let name = match render_field(Field::Name, &self.name, variables_values) {
            Ok(text) => text,
            Err(error) => {
                proof {
                    self.lemma_never_verbatim(Field::Name);
                }
                return Err(error);
            },
        };
        let mut command: Vec<String> = Vec::new();
        let mut i: usize = 0;
        while i < self.command.len()
            invariant
                i <= self.command.len(),
                command@.len() == i,
                self.wf(),
                *variables_values == bindings,
                bindings@ == start,
                bindings.wf(),
                start == old(variables_values)@,
                forall|k: int|
                    0 <= k < i ==> renders(self.command@[k], start, (#[trigger] command@[k])@)
                        && echoes(self.command@[k], Some(command@[k]@)),
            decreases self.command.len() - i,
        {
            match render_field(Field::Argument(i), &self.command[i], variables_values) {
                Ok(text) => command.push(text),
                Err(error) => {
                    proof {
                        self.lemma_never_verbatim(Field::Argument(i));
                    }
                    return Err(error);
                },
            }
            i = i + 1;
        }
        let mut env: Vec<(String, String)> = Vec::new();
        let mut j: usize = 0;
        while j < self.env.len()
            invariant
                j <= self.env.len(),
                env@.len() == j,
                self.wf(),
                *variables_values == bindings,
                bindings@ == start,
                bindings.wf(),
                start == old(variables_values)@,
                forall|k: int|
                    0 <= k < j ==> {
                        &&& renders(self.env@[k].0, start, (#[trigger] env@[k]).0@)
                        &&& renders(self.env@[k].1, start, env@[k].1@)
                        &&& echoes(self.env@[k].0, Some(env@[k].0@))
                        &&& echoes(self.env@[k].1, Some(env@[k].1@))
                    },
            decreases self.env.len() - j,
        {
            let key = match render_field(Field::EnvName(j), &self.env[j].0, variables_values) {
                Ok(text) => text,
                Err(error) => {
                    proof {
                        self.lemma_never_verbatim(Field::EnvName(j));
                    }
                    return Err(error);
                },
            };
            let value = match render_field(Field::EnvValue(j), &self.env[j].1, variables_values) {
                Ok(text) => text,
                Err(error) => {
                    proof {
                        self.lemma_never_verbatim(Field::EnvValue(j));
                    }
                    return Err(error);
                },
            };
            env.push((key, value));
            j = j + 1;
        }
        variables_values.bind("name".to_owned(), make_text(name.clone()));
        let test = Test::new(name, command, self.clear_env, env);
        proof {
            assert forall|k: int| 0 <= k < test@.command.len() implies renders(
                self.command@[k],
                start,
                #[trigger] test@.command[k],
            ) && echoes(self.command@[k], Some(test@.command[k])) by {
                assert(test@.command[k] == test.command@[k]@);
            }
            assert forall|k: int| 0 <= k < test@.env.len() implies {
                &&& renders(self.env@[k].0, start, (#[trigger] test@.env[k]).0)
                &&& renders(self.env@[k].1, start, test@.env[k].1)
                &&& echoes(self.env@[k].0, Some(test@.env[k].0))
                &&& echoes(self.env@[k].1, Some(test@.env[k].1))
            } by {
                assert(test@.env[k] == (test.env@[k].0@, test.env@[k].1@));
            }
            assert forall|source: TestView| #[trigger]
                self.compiled_from(source) && literal_test(source) implies Some(test@) == Some(
                source,
            ) by {
                assert(test@.name == source.name);
                assert forall|k: int| 0 <= k < source.command.len() implies test@.command[k]
                    == source.command[k] by {
                    assert(turns(source.command[k], self.command@[k]));
                    assert(echoes(self.command@[k], Some(test@.command[k])));
                }
                assert(test@.command =~= source.command);
                assert forall|k: int| 0 <= k < source.env.len() implies test@.env[k]
                    == source.env[k] by {
                    assert(turns(source.env[k].0, self.env@[k].0));
                    assert(echoes(self.env@[k].0, Some(test@.env[k].0)));
                    assert(echoes(self.env@[k].1, Some(test@.env[k].1)));
                }
                assert(test@.env =~= source.env);
            }
        }
        Ok(test)
    }

    /// A template that failed to render at one field was not compiled from a
    /// test without markup.
    proof fn lemma_never_verbatim(&self, field: Field)
        requires
            field_within(field, self.command@.len(), self.env@.len()),
            echoes(self.field_template(field), None),
        ensures
            self.verbatim(None),
    {
        assert forall|source: TestView| #[trigger]
            self.compiled_from(source) && literal_test(source) implies false by {
            match field {
                Field::Name => {
                    assert(compiles_to(source.name, Some(self.name)));
                },
                Field::Argument(index) => {
                    assert(turns(source.command[index as int], self.command@[index as int]));
                },
                Field::EnvName(index) => {
                    assert(turns(source.env[index as int].0, self.env@[index as int].0));
                },
                Field::EnvValue(index) => {
                    assert(turns(source.env[index as int].0, self.env@[index as int].0));
                },
            }
        }
    }
}

/// Templates that were compiled from a test are templates of texts of the
/// template language.
pub proof fn lemma_compiled_is_safe(template: TestTemplate, test: TestView)
    requires
        template.compiled_from(test),
    ensures
        template.wf(),
{
    assert(turns(test.name, template.name));
    assert forall|i: int| 0 <= i < template.command@.len() implies safe(
        #[trigger] template.command@[i],
    ) by {
        assert(turns(test.command[i], template.command@[i]));
    }
    assert forall|i: int| 0 <= i < template.env@.len() implies safe(
        (#[trigger] template.env@[i]).0,
    ) && safe(template.env@[i].1) by {
        assert(turns(test.env[i].0, template.env@[i].0));
        assert(turns(test.env[i].1, template.env@[i].1));
    }
}

/// How many instances the variables give: the product of the numbers of
/// their values, which is one where there is no variable.
pub open spec fn width(variables: Seq<VariableView>) -> nat
    decreases variables.len(),
{
    if variables.len() == 0 {
        1
    } else {
        variables[0].values.len() * width(variables.skip(1))
    }
}

/// The bindings that an expansion leaves behind: those it started with, the
/// variables bound to their last values, and `name` bound to the name of the
/// last instance.
pub open spec fn bindings_after(
    variables: Seq<VariableView>,
    bindings: Map<Seq<char>, liquid::Value>,
    tests: Seq<TestView>,
) -> Map<Seq<char>, liquid::Value>
    decreases variables.len(), 1nat, 0nat,
{
    if variables.len() == 0 {
        bindings.insert("name"@, text_value(tests[0].name))
    } else {
        bindings_through(variables, bindings, tests, variables[0].values.len())
    }
}

/// The bindings after the first `count` values of the first variable were
/// gone through, which gave `tests`.
pub open spec fn bindings_through(
    variables: Seq<VariableView>,
    bindings: Map<Seq<char>, liquid::Value>,
    tests: Seq<TestView>,
    count: nat,
) -> Map<Seq<char>, liquid::Value>
    decreases variables.len(), 0nat, count,
{
    if variables.len() == 0 || count == 0 {
        bindings
    } else {
        let rest = width(variables.skip(1));
        let cut = (count - 1) * rest;
        bindings_after(
            variables.skip(1),
            bindings_through(variables, bindings, tests.subrange(0, cut), (count - 1) as nat).insert(
                variables[0].name,
                variables[0].values[count - 1],
            ),
            tests.subrange(cut, cut + rest),
        )
    }
}

/// Whether `tests` can be the instances of the template for the variables,
/// in depth-first order, starting from the given bindings.
///
/// Without a variable there is one instance, rendered with the bindings as
/// they are; its name is bound to `name` afterwards. Else the values of the
/// first variable are gone through in order: the variable is bound to the
/// value, in place of what it stood for, and the instances for the other
/// variables follow, which start from the bindings that the value before
/// has left behind.
pub open spec fn expanded(
    template: TestTemplate,
    variables: Seq<VariableView>,
    bindings: Map<Seq<char>, liquid::Value>,
    tests: Seq<TestView>,
) -> bool
    decreases variables.len(), 1nat, 0nat,
{
    if variables.len() == 0 {
        tests.len() == 1 && template.instance(bindings, tests[0])
    } else {
        branched(template, variables, bindings, tests, variables[0].values.len())
    }
}

/// Whether `tests` can be the instances for the first `count` values of the
/// first variable. Each value gives as many instances as the other variables
/// have combinations.
pub open spec fn branched(
    template: TestTemplate,
    variables: Seq<VariableView>,
    bindings: Map<Seq<char>, liquid::Value>,
    tests: Seq<TestView>,
    count: nat,
) -> bool
    decreases variables.len(), 0nat, count,
{
    if variables.len() == 0 {
        false
    } else if count == 0 {
        tests.len() == 0
    } else {
        let rest = width(variables.skip(1));
        let cut = (count - 1) * rest;
        &&& tests.len() == count * rest
        &&& branched(template, variables, bindings, tests.subrange(0, cut), (count - 1) as nat)
        &&& expanded(
            template,
            variables.skip(1),
            bindings_through(variables, bindings, tests.subrange(0, cut), (count - 1) as nat).insert(
                variables[0].name,
                variables[0].values[count - 1],
            ),
            tests.subrange(cut, cut + rest),
        )
    }
}

/// Whether `error` can be why an expansion has failed: some values of the
/// first variable were gone through, the next was bound, and the expansion
/// for the other variables failed from there; without a variable, rendering
/// the instance failed under the bindings that were reached.
pub open spec fn fails_within(
    template: TestTemplate,
    variables: Seq<VariableView>,
    bindings: Map<Seq<char>, liquid::Value>,
    error: RunError,
) -> bool
    decreases variables.len(),
{
    if variables.len() == 0 {
        template.fails(bindings, error)
    } else {
        error is Render && exists|count: nat, tests: Seq<TestView>|
            {
                &&& count < variables[0].values.len()
                &&& #[trigger] branched(template, variables, bindings, tests, count)
                &&& fails_within(
                    template,
                    variables.skip(1),
                    bindings_through(variables, bindings, tests, count).insert(
                        variables[0].name,
                        variables[0].values[count as int],
                    ),
                    error,
                )
            }
    }
}

/// An expansion has as many instances as the variables have combinations.
pub proof fn lemma_expanded_width(
    template: TestTemplate,
    variables: Seq<VariableView>,
    bindings: Map<Seq<char>, liquid::Value>,
    tests: Seq<TestView>,
)
    requires
        expanded(template, variables, bindings, tests),
    ensures
        tests.len() == width(variables),
{
    if variables.len() == 0 {
        assert(width(variables) == 1);
    } else {
        let count = variables[0].values.len();
        let rest = width(variables.skip(1));
        assert(width(variables) == count * rest);
        assert(branched(template, variables, bindings, tests, count));
        if count == 0 {
            assert(tests.len() == 0);
            assert(0 * rest == 0);
        } else {
            assert(tests.len() == count * rest);
        }
    }
}

/// Renders one instance for every combination of the values of the variables
/// from `level` on, and appends them to `collected_test`.
fn gen_matrices(
    test_template: &TestTemplate,
    variables: &Vec<Variable>,
    level: usize,
    variables_values: &mut Bindings,
    collected_test: &mut Vec<Test>,
) -> (done: Result<(), RunError>)
    requires
        test_template.wf(),
        level <= variables.len(),
        old(variables_values).wf(),
    ensures
        final(variables_values).wf(),
        width(variable_views(variables@).skip(level as int)) == 0 ==> done is Ok,
        match done {
            Ok(_) => {
                let new = test_views(
                    final(collected_test)@.subrange(
                        old(collected_test)@.len() as int,
                        final(collected_test)@.len() as int,
                    ),
                );
                &&& old(collected_test)@.len() <= final(collected_test)@.len()
                &&& final(collected_test)@.subrange(0, old(collected_test)@.len() as int) == old(
                    collected_test,
                )@
                &&& expanded(
                    *test_template,
                    variable_views(variables@).skip(level as int),
                    old(variables_values)@,
                    new,
                )
                &&& final(variables_values)@ == bindings_after(
                    variable_views(variables@).skip(level as int),
                    old(variables_values)@,
                    new,
                )
                &&& level == variables@.len() ==> test_template.verbatim(Some(new[0]))
            },
            Err(error) => {
                &&& fails_within(
                    *test_template,
                    variable_views(variables@).skip(level as int),
                    old(variables_values)@,
                    error,
                )
                &&& level == variables@.len() ==> test_template.verbatim(None)
            },
        },
    decreases variables.len() - level,
{
    let ghost before = collected_test@;
    let ghost start = variables_values@;
    let ghost views = variable_views(variables@);
    let ghost here = views.skip(level as int);
    if level == variables.len() {
        assert(here =~= Seq::empty());
        match test_template.render(variables_values) {
            Ok(test) => {
                collected_test.push(test);
                proof {
                    assert(collected_test@.subrange(0, before.len() as int) =~= before);
                    let new = test_views(
                        collected_test@.subrange(before.len() as int, collected_test@.len() as int),
                    );
                    assert(new =~= seq![test@]);
                }
                Ok(())
            },
            Err(error) => Err(error),
        }
    } else {
        let current_variable = &variables[level];
        let ghost rest = width(views.skip(level + 1));
        proof {
            assert(here[0] == variables@[level as int]@);
            assert(here.skip(1) =~= views.skip(level + 1));
            assert(width(here) == current_variable.values@.len() * rest);
            assert(collected_test@.subrange(0, before.len() as int) =~= before);
            assert(test_views(collected_test@.subrange(before.len() as int, before.len() as int))
                =~= Seq::empty());
        }
        let mut i: usize = 0;
        while i < current_variable.values.len()
            invariant
                i <= current_variable.values.len(),
                level < variables.len(),
                test_template.wf(),
                current_variable == &variables[level as int],
                views == variable_views(variables@),
                here == views.skip(level as int),
                here.len() > 0,
                here[0] == current_variable@,
                here.skip(1) == views.skip(level + 1),
                rest == width(views.skip(level + 1)),
                width(here) == current_variable.values@.len() * rest,
                variables_values.wf(),
                start == old(variables_values)@,
                before.len() <= collected_test@.len(),
                collected_test@.len() == before.len() + i * rest,
                collected_test@.subrange(0, before.len() as int) == before,
                branched(
                    *test_template,
                    here,
                    start,
                    test_views(
                        collected_test@.subrange(before.len() as int, collected_test@.len() as int),
                    ),
                    i as nat,
                ),
                variables_values@ == bindings_through(
                    here,
                    start,
                    test_views(
                        collected_test@.subrange(before.len() as int, collected_test@.len() as int),
                    ),
                    i as nat,
                ),
            decreases current_variable.values.len() - i,
        {
            let ghost so_far = collected_test@;
            let ghost done = test_views(so_far.subrange(before.len() as int, so_far.len() as int));
            variables_values.bind(current_variable.name.clone(), current_variable.values[i].clone());
            let ghost entered = variables_values@;
            match gen_matrices(test_template, variables, level + 1, variables_values, collected_test) {
                Ok(_) => {},
                Err(error) => {
                    proof {
                        assert(current_variable.values@.len() * rest != 0) by (nonlinear_arith)
                            requires
                                current_variable.values@.len() > 0,
                                rest > 0,
                        ;
                        assert(branched(*test_template, here, start, done, i as nat));
                        assert(fails_within(*test_template, here.skip(1), entered, error));
                        assert(fails_within(*test_template, here, start, error));
                    }
                    return Err(error);
                },
            }
            proof {
                let block = test_views(
                    collected_test@.subrange(so_far.len() as int, collected_test@.len() as int),
                );
                let all = test_views(
                    collected_test@.subrange(before.len() as int, collected_test@.len() as int),
                );
                lemma_expanded_width(*test_template, views.skip(level + 1), entered, block);
                assert((i + 1) * rest == i * rest + rest) by (nonlinear_arith);
                assert(collected_test@.subrange(0, so_far.len() as int) == so_far);
                assert(collected_test@.subrange(0, before.len() as int) =~= so_far.subrange(
                    0,
                    before.len() as int,
                ));
                let cut = i * rest;
                assert(all.subrange(0, cut as int) =~= done) by {
                    assert forall|k: int| 0 <= k < cut implies all.subrange(0, cut as int)[k]
                        == done[k] by {
                        assert(collected_test@.subrange(0, so_far.len() as int)[before.len() + k]
                            == so_far[before.len() + k]);
                    }
                }
                assert(all.subrange(cut as int, cut + rest) =~= block);
                assert(branched(*test_template, here, start, all, (i + 1) as nat));
                assert(variables_values@ == bindings_through(here, start, all, (i + 1) as nat));
            }
            i = i + 1;
        }
        Ok(())
    }
}

/// Renders the instances of a compiled test: one for every combination of
/// the values of the variables, in depth-first order, the first variable
/// changing slowest. Where one field of one instance cannot be rendered, the
/// whole expansion fails and no instance is handed out.
///
/// The engine decides what each field renders to. Whatever it says, a
/// success holds what [`expanded`] describes, so [`width`] instances, and an
/// error is one that [`fails_within`] describes. Where some variable has no
/// value, nothing is rendered and the expansion succeeds with no instance;
/// and templates without markup and without variables give the test that
/// they were compiled from.
pub fn expand(test_template: &TestTemplate, variables: &Vec<Variable>) -> (instances: Result<
    Vec<Test>,
    RunError,
>)
    requires
        test_template.wf(),
    ensures
        width(variable_views(variables@)) == 0 ==> instances is Ok,
        match instances {
            Ok(tests) => {
                &&& tests@.len() == width(variable_views(variables@))
                &&& expanded(
                    *test_template,
                    variable_views(variables@),
                    Map::empty(),
                    test_views(tests@),
                )
                &&& variables@.len() == 0 ==> test_template.verbatim(Some(tests@[0]@))
            },
            Err(error) => {
                &&& fails_within(*test_template, variable_views(variables@), Map::empty(), error)
                &&& variables@.len() == 0 ==> test_template.verbatim(None)
            },
        },
{
    let mut variables_values = Bindings::new();
    let mut collected_test: Vec<Test> = Vec::new();
    assert(variable_views(variables@).skip(0) =~= variable_views(variables@));
    match gen_matrices(test_template, variables, 0, &mut variables_values, &mut collected_test) {
        Ok(_) => {
            proof {
                assert(collected_test@.subrange(0, collected_test@.len() as int) =~= collected_test@);
                lemma_expanded_width(
                    *test_template,
                    variable_views(variables@),
                    Map::empty(),
                    test_views(collected_test@),
                );
            }
            Ok(collected_test)
        },
        Err(error) => Err(error),
    }
}

/// Whether `tests` can be the instances of a declaration: the instances, for
/// its variables and starting without bindings, of templates that its fields
/// compile to.
pub open spec fn instantiated(declaration: DeclarationView, tests: Seq<TestView>) -> bool {
    exists|template: TestTemplate|
        #[trigger] template.compiled_from(declaration.test) && expanded(
            template,
            declaration.variables,
            Map::empty(),
            tests,
        )
}

/// Whether `error` can be why a declaration has no instances: it names a
/// field that was refused, or the expansion of templates that the fields
/// compile to failed with it.
pub open spec fn refused(declaration: DeclarationView, error: RunError) -> bool {
    match error {
        RunError::Compile { field, .. } => {
            &&& field_within(field, declaration.test.command.len(), declaration.test.env.len())
            &&& refuses(field_text(declaration.test, field))
        },
        RunError::Render { field, .. } => {
            exists|template: TestTemplate|
                #[trigger] template.compiled_from(declaration.test) && fails_within(
                    template,
                    declaration.variables,
                    Map::empty(),
                    error,
                )
        },
        _ => false,
    }
}

/// Compiles a declared test and renders its instances.
///
/// The engine decides which templates compile and what they render to.
/// Whatever it says, a success holds what [`instantiated`] describes, and an
/// error is one that [`refused`] describes. A declaration without markup and
/// without variables has one instance, the declared test as it is.
pub fn instantiate(declaration: &Declaration) -> (instances: Result<Vec<Test>, RunError>)
    ensures
        match instances {
            Ok(tests) => instantiated(declaration@, test_views(tests@)),
            Err(error) => refused(declaration@, error),
        },
        literal_test(declaration@.test) && declaration@.variables.len() == 0 ==> instances is Ok
            && test_views(instances->Ok_0@) == seq![declaration@.test],
{
    let test_template = match TestTemplate::try_from_test(&declaration.test) {
        Ok(test_template) => test_template,
        Err(error) => {
            return Err(error);
        },
    };
    let instances = expand(&test_template, &declaration.variables);
    proof {
        assert(test_template.compiled_from(declaration@.test));
        if instances is Ok {
            let tests = instances->Ok_0;
            assert(expanded(
                test_template,
                declaration@.variables,
                Map::empty(),
                test_views(tests@),
            ));
            if literal_test(declaration@.test) && declaration@.variables.len() == 0 {
                assert(test_views(tests@) =~= seq![declaration@.test]);
            }
        } else {
            let error = instances->Err_0;
            assert(fails_within(test_template, declaration@.variables, Map::empty(), error));
        }
    }
    instances
}

/// A test without variables has exactly one instance.
pub proof fn lemma_width_without_variables()
    ensures
        width(Seq::<VariableView>::empty()) == 1,
{
}

/// Two variables give as many instances as the product of the numbers of
/// their values.
pub proof fn lemma_width_of_two(first: VariableView, second: VariableView)
    ensures
        width(seq![first, second]) == first.values.len() * second.values.len(),
{
    let both = seq![first, second];
    let last = both.skip(1);
    assert(last.len() == 1 && last[0] == second);
    assert(last.skip(1) =~= Seq::<VariableView>::empty());
    assert(width(last.skip(1)) == 1);
    assert(width(last) == second.values.len() * width(last.skip(1)));
    assert(second.values.len() * 1 == second.values.len());
    assert(width(both) == first.values.len() * width(last));
}

/// One variable without values leaves a test without instances, whatever
/// the other variables hold.
pub proof fn lemma_width_with_empty_variable(variables: Seq<VariableView>, index: int)
    requires
        0 <= index < variables.len(),
        variables[index].values.len() == 0,
    ensures
        width(variables) == 0,
    decreases variables.len(),
{
    if index == 0 {
        assert(0 * width(variables.skip(1)) == 0);
    } else {
        assert(variables.skip(1)[index - 1] == variables[index]);
        lemma_width_with_empty_variable(variables.skip(1), index - 1);
        assert(variables[0].values.len() * 0 == 0) by (nonlinear_arith);
    }
}

/// A test without variables expands to exactly one instance, rendered with
/// the bindings as they are: with none, where the expansion starts without
/// bindings, so from the literal text of its templates alone.
pub proof fn lemma_expanded_without_variables(
    template: TestTemplate,
    bindings: Map<Seq<char>, liquid::Value>,
    tests: Seq<TestView>,
)
    requires
        expanded(template, Seq::empty(), bindings, tests),
    ensures
        tests.len() == 1,
        template.instance(bindings, tests[0]),
{
}

/// Where one variable has no value, an expansion has no instance.
pub proof fn lemma_expanded_with_empty_variable(
    template: TestTemplate,
    variables: Seq<VariableView>,
    bindings: Map<Seq<char>, liquid::Value>,
    tests: Seq<TestView>,
    index: int,
)
    requires
        expanded(template, variables, bindings, tests),
        0 <= index < variables.len(),
        variables[index].values.len() == 0,
    ensures
        tests.len() == 0,
{
    lemma_expanded_width(template, variables, bindings, tests);
    lemma_width_with_empty_variable(variables, index);
}

/// The instances for one value of the first variable stand together, after
/// those for the values before it, and are an expansion for the other
/// variables, with the first variable bound to that value.
pub proof fn lemma_branch(
    template: TestTemplate,
    variables: Seq<VariableView>,
    bindings: Map<Seq<char>, liquid::Value>,
    tests: Seq<TestView>,
    count: nat,
    index: nat,
)
    requires
        variables.len() > 0,
        branched(template, variables, bindings, tests, count),
        index < count <= variables[0].values.len(),
    ensures
        (index + 1) * width(variables.skip(1)) <= tests.len(),
        expanded(
            template,
            variables.skip(1),
            bindings_through(
                variables,
                bindings,
                tests.subrange(0, index as int * width(variables.skip(1))),
                index,
            ).insert(variables[0].name, variables[0].values[index as int]),
            tests.subrange(
                index as int * width(variables.skip(1)),
                (index as int + 1) * width(variables.skip(1)),
            ),
        ),
    decreases count,
{
    let rest = width(variables.skip(1));
    let cut = (count - 1) * rest;
    assert(tests.len() == count * rest);
    if index == count - 1 {
        assert((index + 1) * rest == cut + rest) by (nonlinear_arith)
            requires
                cut == (count - 1) * rest,
                index == count - 1,
        ;
    } else {
        assert(cut <= count * rest) by (nonlinear_arith)
            requires
                cut == (count - 1) * rest,
                count >= 1,
        ;
        let front = tests.subrange(0, cut);
        assert(front.len() == cut);
        lemma_branch(template, variables, bindings, front, (count - 1) as nat, index);
        assert((index + 1) * rest <= cut);
        assert(index * rest <= (index + 1) * rest) by (nonlinear_arith);
        let low = index as int * rest;
        let high = (index as int + 1) * rest;
        assert(front.subrange(0, low) =~= tests.subrange(0, low));
        assert(front.subrange(low, high) =~= tests.subrange(low, high));
    }
}

/// An expansion binds the variables and `name` and nothing else: what any
/// other name stands for stays as it was.
pub proof fn lemma_bindings_after_keeps(
    variables: Seq<VariableView>,
    bindings: Map<Seq<char>, liquid::Value>,
    tests: Seq<TestView>,
    key: Seq<char>,
)
    requires
        key != "name"@,
        forall|k: int| 0 <= k < variables.len() ==> (#[trigger] variables[k]).name != key,
    ensures
        bindings_after(variables, bindings, tests).contains_key(key) == bindings.contains_key(key),
        bindings_after(variables, bindings, tests)[key] == bindings[key],
    decreases variables.len(), 1nat, 0nat,
{
    if variables.len() > 0 {
        lemma_bindings_through_keeps(variables, bindings, tests, variables[0].values.len(), key);
    }
}

/// Going through values of the first variable binds the variables and `name`
/// and nothing else.
pub proof fn lemma_bindings_through_keeps(
    variables: Seq<VariableView>,
    bindings: Map<Seq<char>, liquid::Value>,
    tests: Seq<TestView>,
    count: nat,
    key: Seq<char>,
)
    requires
        key != "name"@,
        forall|k: int| 0 <= k < variables.len() ==> (#[trigger] variables[k]).name != key,
    ensures
        bindings_through(variables, bindings, tests, count).contains_key(key) == bindings.contains_key(
            key,
        ),
        bindings_through(variables, bindings, tests, count)[key] == bindings[key],
    decreases variables.len(), 0nat, count,
{
    if variables.len() > 0 && count > 0 {
        let rest = width(variables.skip(1));
        let cut = (count - 1) * rest;
        let before = bindings_through(
            variables,
            bindings,
            tests.subrange(0, cut),
            (count - 1) as nat,
        );
        lemma_bindings_through_keeps(
            variables,
            bindings,
            tests.subrange(0, cut),
            (count - 1) as nat,
            key,
        );
        assert(variables[0].name != key);
        assert forall|k: int| 0 <= k < variables.skip(1).len() implies (#[trigger] variables.skip(
            1,
        )[k]).name != key by {
            assert(variables.skip(1)[k] == variables[k + 1]);
        }
        lemma_bindings_after_keeps(
            variables.skip(1),
            before.insert(variables[0].name, variables[0].values[count - 1]),
            tests.subrange(cut, cut + rest),
            key,
        );
    }
}

/// With two variables, the instances come in depth-first order: the one for
/// value `i` of the first variable and value `j` of the second stands at
/// `i * n + j`, where the second variable has `n` values. It is rendered
/// with the second variable bound to its value `j`, and with the first bound
/// to its value `i` unless its name is that of the second variable or
/// `name`, which the instances before may have bound anew.
pub proof fn lemma_two_variables(
    template: TestTemplate,
    first: VariableView,
    second: VariableView,
    tests: Seq<TestView>,
    i: nat,
    j: nat,
)
    requires
        expanded(template, seq![first, second], Map::empty(), tests),
        i < first.values.len(),
        j < second.values.len(),
    ensures
        tests.len() == first.values.len() * second.values.len(),
        i * second.values.len() + j < tests.len(),
        exists|bindings: Map<Seq<char>, liquid::Value>|
            {
                &&& #[trigger] template.instance(bindings, tests[i as int * second.values.len() + j])
                &&& bindings.contains_pair(second.name, second.values[j as int])
                &&& first.name != second.name && first.name != "name"@ ==> bindings.contains_pair(
                    first.name,
                    first.values[i as int],
                )
            },
{
    let variables = seq![first, second];
    let inner = variables.skip(1);
    let n = second.values.len() as int;
    let i = i as int;
    let j = j as int;
    lemma_width_of_two(first, second);
    lemma_expanded_width(template, variables, Map::empty(), tests);
    assert(inner.len() == 1 && inner[0] == second);
    assert(inner.skip(1) =~= Seq::<VariableView>::empty());
    assert(width(inner.skip(1)) == 1);
    assert(width(inner) == n * 1);
    assert(width(inner) == n);

    lemma_branch(template, variables, Map::empty(), tests, first.values.len(), i as nat);
    let entered = bindings_through(variables, Map::empty(), tests.subrange(0, i * n), i as nat).insert(
        first.name,
        first.values[i],
    );
    let block = tests.subrange(i * n, (i + 1) * n);
    assert(expanded(template, inner, entered, block));
    assert((i + 1) * n == i * n + n) by (nonlinear_arith);
    assert(block.len() == n);

    lemma_branch(template, inner, entered, block, n as nat, j as nat);
    assert(j * 1 == j && (j + 1) * 1 == j + 1);
    let through = bindings_through(inner, entered, block.subrange(0, j), j as nat);
    let bindings = through.insert(second.name, second.values[j]);
    let single = block.subrange(j, j + 1);
    assert(expanded(template, inner.skip(1), bindings, single));
    assert(single[0] == tests[i * n + j]);
    assert(template.instance(bindings, tests[i * n + j]));
    if first.name != second.name && first.name != "name"@ {
        lemma_bindings_through_keeps(inner, entered, block.subrange(0, j), j as nat, first.name);
        assert(entered.contains_pair(first.name, first.values[i]));
        assert(bindings.contains_pair(first.name, first.values[i]));
    }
}

impl TestTemplate {
    /// Whether `test` has the shape that this template gives its instances:
    /// as many arguments, as many environment pairs, the same `clear_env`.
    pub open spec fn shapes(&self, test: TestView) -> bool {
        &&& test.command.len() == self.command@.len()
        &&& test.env.len() == self.env@.len()
        &&& test.clear_env == self.clear_env
    }
}

/// Every instance of an expansion has the shape of the template.
pub proof fn lemma_expanded_shapes(
    template: TestTemplate,
    variables: Seq<VariableView>,
    bindings: Map<Seq<char>, liquid::Value>,
    tests: Seq<TestView>,
    index: int,
)
    requires
        expanded(template, variables, bindings, tests),
        0 <= index < tests.len(),
    ensures
        template.shapes(tests[index]),
    decreases variables.len(), 1nat, 0nat,
{
    if variables.len() > 0 {
        lemma_branched_shapes(
            template,
            variables,
            bindings,
            tests,
            variables[0].values.len(),
            index,
        );
    }
}

/// Every instance for the first values of the first variable has the shape
/// of the template.
pub proof fn lemma_branched_shapes(
    template: TestTemplate,
    variables: Seq<VariableView>,
    bindings: Map<Seq<char>, liquid::Value>,
    tests: Seq<TestView>,
    count: nat,
    index: int,
)
    requires
        variables.len() > 0,
        branched(template, variables, bindings, tests, count),
        0 <= index < tests.len(),
    ensures
        template.shapes(tests[index]),
    decreases variables.len(), 0nat, count,
{
    if count > 0 {
        let rest = width(variables.skip(1));
        let cut = (count - 1) * rest;
        assert(cut + rest == count * rest) by (nonlinear_arith)
            requires
                cut == (count - 1) * rest,
        ;
        assert(0 <= cut) by (nonlinear_arith)
            requires
                cut == (count - 1) * rest,
                count >= 1,
                rest >= 0,
        ;
        if index < cut {
            let front = tests.subrange(0, cut);
            assert(front[index] == tests[index]);
            lemma_branched_shapes(template, variables, bindings, front, (count - 1) as nat, index);
        } else {
            let block = tests.subrange(cut, cut + rest);
            assert(block[index - cut] == tests[index]);
            lemma_expanded_shapes(
                template,
                variables.skip(1),
                bindings_through(variables, bindings, tests.subrange(0, cut), (count - 1) as nat).insert(
                    variables[0].name,
                    variables[0].values[count - 1],
                ),
                block,
                index - cut,
            );
        }
    }
}

/// The instances of a declaration are as many as its variables have
/// combinations, and each has the shape of the declared test: as many
/// arguments, as many environment pairs, the same `clear_env`.
pub proof fn lemma_instantiated_shapes(declaration: DeclarationView, tests: Seq<TestView>)
    requires
        instantiated(declaration, tests),
    ensures
        tests.len() == width(declaration.variables),
        forall|k: int|
            0 <= k < tests.len() ==> {
                &&& (#[trigger] tests[k]).command.len() == declaration.test.command.len()
                &&& tests[k].env.len() == declaration.test.env.len()
                &&& tests[k].clear_env == declaration.test.clear_env
            },
{
    let template = choose|template: TestTemplate|
        #[trigger] template.compiled_from(declaration.test) && expanded(
            template,
            declaration.variables,
            Map::empty(),
            tests,
        );
    lemma_expanded_width(template, declaration.variables, Map::empty(), tests);
    assert forall|k: int| 0 <= k < tests.len() implies {
        &&& (#[trigger] tests[k]).command.len() == declaration.test.command.len()
        &&& tests[k].env.len() == declaration.test.env.len()
        &&& tests[k].clear_env == declaration.test.clear_env
    } by {
        lemma_expanded_shapes(template, declaration.variables, Map::empty(), tests, k);
    }
}

} // verus!
