//! Running a configuration. The runner decides; its host acts.
//!
//! A run is a conversation: the runner hands out an [`Action`], the host
//! performs it and reports what happened as an [`Event`], and the runner
//! answers with the next action, until it hands out [`Action::Done`]. The
//! runner never touches files, directories or processes itself.
//!
//! One configuration file is one scope. The host opens the file, enters its
//! directory, resolves its include patterns; then the scope's own tests run,
//! in the order of the file, then its includes, each as a scope of its own
//! whose outcome is merged into this one; at last the host leaves, which
//! restores the directory it was in before the file was opened.

use vstd::prelude::*;

use crate::config::{
    declaration_views, lemma_declared_command, parse_config, parsed_text, Declaration,
    DeclarationView, ParseResult,
};
use crate::error::RunError;
use crate::filter::{is_selected, selected};
use crate::matrix::{instantiate, instantiated, lemma_instantiated_shapes, refused, test_views};
use crate::outcome::{texts, RunConfigResult, Tally};
use crate::test::{Launch, Test, TestView};

verus! {

/// What the host reports of the action it was asked for.
#[derive(Debug, PartialEq, Eq)]
pub enum Event {
    /// The file was read and the directory the host was in is remembered:
    /// the file's text, and the directory that holds the file, empty where
    /// that is the directory the host is in.
    Opened { text: String, dir: String },
    /// The host is now in the directory it was asked to enter.
    Entered,
    /// The files that match the pattern, in the order of the match.
    Matched(Vec<String>),
    /// How the run of the test's command ended.
    Finished(Launch),
    /// Nothing was asked of the host but to go on.
    Resumed,
    /// The host is back in the directory it remembered.
    Left,
    /// The host could not do what was asked; the text says why.
    Failed(String),
    /// The host could not tell which directory it is in, so that it has
    /// none to remember; the text says why.
    Lost(String),
}

/// What the runner asks of its host.
#[derive(Debug, PartialEq, Eq)]
pub enum Action {
    /// Remember the directory you are in and read this file.
    Open(String),
    /// Move into this directory.
    Enter(String),
    /// Find the files that match this pattern.
    Glob(String),
    /// Run the command of this test.
    Run(Test),
    /// The test with this name was left out by the filter; go on.
    Skip(String),
    /// Go on.
    Continue,
    /// Move back to the directory remembered last, and forget it.
    Leave,
    /// The run is over.
    Done(Result<RunConfigResult, RunError>),
}

/// The mathematical content of an [`Action`].
pub enum ActionView {
    Open(Seq<char>),
    Enter(Seq<char>),
    Glob(Seq<char>),
    Run(TestView),
    Skip(Seq<char>),
    Continue,
    Leave,
    Done(Result<Tally, RunError>),
}

impl View for Action {
    type V = ActionView;

    open spec fn view(&self) -> ActionView {
        match *self {
            Action::Open(path) => ActionView::Open(path@),
            Action::Enter(dir) => ActionView::Enter(dir@),
            Action::Glob(pattern) => ActionView::Glob(pattern@),
            Action::Run(test) => ActionView::Run(test@),
            Action::Skip(name) => ActionView::Skip(name@),
            Action::Continue => ActionView::Continue,
            Action::Leave => ActionView::Leave,
            Action::Done(Ok(result)) => ActionView::Done(Ok(result@)),
            Action::Done(Err(error)) => ActionView::Done(Err(error)),
        }
    }
}

/// Where a scope stands. After every step the innermost scope waits for an
/// event; the other stages are passed through within a step.
pub enum StageView {
    /// Waits for `Opened`.
    Opening,
    /// The file is read and its directory, which is not the host's, is yet
    /// to be entered.
    Arrived(Seq<char>),
    /// Waits for `Entered`.
    Entering,
    /// The next include pattern is to be resolved; then the tests follow.
    Globbing,
    /// Waits for `Matched`.
    Matching,
    /// The next test is to be run; then the includes follow.
    Testing,
    /// Waits for `Finished`, of the test with this name.
    Running(Seq<char>),
    /// Waits for `Resumed`.
    Pausing,
    /// The next included file is to be opened, or is being run.
    Including,
    /// The run has failed and the scope is to be left.
    Failing,
    /// Waits for `Left`.
    Leaving,
}

#[derive(Debug)]
enum Stage {
    Opening,
    Arrived(String),
    Entering,
    Globbing,
    Matching,
    Testing,
    Running(String),
    Pausing,
    Including,
    Failing,
    Leaving,
}

impl View for Stage {
    type V = StageView;

    closed spec fn view(&self) -> StageView {
        match *self {
            Stage::Opening => StageView::Opening,
            Stage::Arrived(dir) => StageView::Arrived(dir@),
            Stage::Entering => StageView::Entering,
            Stage::Globbing => StageView::Globbing,
            Stage::Matching => StageView::Matching,
            Stage::Testing => StageView::Testing,
            Stage::Running(name) => StageView::Running(name@),
            Stage::Pausing => StageView::Pausing,
            Stage::Including => StageView::Including,
            Stage::Failing => StageView::Failing,
            Stage::Leaving => StageView::Leaving,
        }
    }
}

/// One configuration file in the course of its run.
pub struct ScopeModel {
    pub stage: StageView,
    /// The declared tests that are not yet expanded, in the order of the
    /// file.
    pub declarations: Seq<DeclarationView>,
    /// The instances of the declaration expanded last that are not yet run.
    pub instances: Seq<TestView>,
    /// The include patterns that are not yet resolved.
    pub patterns: Seq<Seq<char>>,
    /// The included files that are not yet run, in the order in which the
    /// patterns were matched.
    pub includes: Seq<Seq<char>>,
    /// What the scope's tests and the includes that are done have produced.
    pub tally: Tally,
}

impl ScopeModel {
    /// A scope whose file is yet to be opened.
    pub open spec fn fresh() -> ScopeModel {
        ScopeModel {
            stage: StageView::Opening,
            declarations: Seq::empty(),
            instances: Seq::empty(),
            patterns: Seq::empty(),
            includes: Seq::empty(),
            tally: Tally::zero(),
        }
    }

    /// The scope at another stage.
    pub open spec fn at(self, stage: StageView) -> ScopeModel {
        ScopeModel { stage, ..self }
    }
}

/// The first error of a run stays its error.
pub open spec fn first_error(earlier: Option<RunError>, later: RunError) -> RunError {
    match earlier {
        Some(error) => error,
        None => later,
    }
}

/// The scopes with the innermost one, if there is one, marked as failing.
pub open spec fn failing(scopes: Seq<ScopeModel>) -> Seq<ScopeModel> {
    if scopes.len() == 0 {
        scopes
    } else {
        scopes.drop_last().push(scopes.last().at(StageView::Failing))
    }
}

/// The mathematical content of a [`Runner`].
pub struct RunnerModel {
    /// The filter that selects the tests to run.
    pub filter: Option<regex::Regex>,
    /// The scopes that are open, the outermost first.
    pub scopes: Seq<ScopeModel>,
    /// Why the run has failed, once it has.
    pub error: Option<RunError>,
    /// What the run has produced, once the outermost scope is left and until
    /// it is handed out.
    pub result: Option<Tally>,
}

impl RunnerModel {
    /// The innermost scope.
    pub open spec fn top(self) -> ScopeModel {
        self.scopes.last()
    }

    /// The run with another innermost scope.
    pub open spec fn with_top(self, top: ScopeModel) -> RunnerModel {
        RunnerModel { scopes: self.scopes.drop_last().push(top), ..self }
    }

    /// The run after it failed within the innermost scope, which is open
    /// and has to be left.
    pub open spec fn failed(self, error: RunError) -> RunnerModel {
        RunnerModel {
            scopes: failing(self.scopes),
            error: Some(first_error(self.error, error)),
            result: None,
            ..self
        }
    }

    /// The run after its innermost scope is gone for an error: the scope
    /// around it fails in turn.
    pub open spec fn unwound(self, error: RunError) -> RunnerModel {
        RunnerModel {
            scopes: failing(self.scopes.drop_last()),
            error: Some(first_error(self.error, error)),
            result: None,
            ..self
        }
    }

    /// The run after its innermost scope was left in good order. While the
    /// run is failing, the scope around it fails in turn. Else the outcome
    /// of the scope is the outcome of the run, where it was the outermost,
    /// and is merged into the scope around it, which goes on with its
    /// includes, where it was not.
    pub open spec fn left(self) -> RunnerModel {
        let child = self.top();
        let rest = self.scopes.drop_last();
        if self.error is Some {
            RunnerModel { scopes: failing(rest), ..self }
        } else if rest.len() == 0 {
            RunnerModel { scopes: rest, error: None, result: Some(child.tally), ..self }
        } else if rest.last().tally.ignored + child.tally.ignored > u32::MAX {
            RunnerModel {
                scopes: failing(rest),
                error: Some(RunError::TooManyIgnored),
                result: None,
                ..self
            }
        } else {
            RunnerModel {
                scopes: rest.drop_last().push(
                    ScopeModel {
                        stage: StageView::Including,
                        tally: rest.last().tally.merge(child.tally),
                        ..rest.last()
                    },
                ),
                ..self
            }
        }
    }

    /// The run after the host's report is taken in. A report that the
    /// innermost scope was not waiting for fails the run.
    pub open spec fn absorbed(self, event: Event) -> RunnerModel {
        if self.scopes.len() == 0 {
            self
        } else {
            let top = self.top();
            match top.stage {
                StageView::Opening => match event {
                    Event::Opened { text, dir } => match parsed_text(text@) {
                        Ok(config) => self.with_top(
                            ScopeModel {
                                stage: if dir@.len() > 0 {
                                    StageView::Arrived(dir@)
                                } else {
                                    StageView::Globbing
                                },
                                declarations: config.tests,
                                patterns: config.includes,
                                ..top
                            },
                        ),
                        Err(error) => self.failed(error),
                    },
                    Event::Failed(message) => self.unwound(RunError::Unreadable(message)),
                    Event::Lost(message) => self.unwound(RunError::Directory(message)),
                    _ => self.unwound(RunError::Unexpected),
                },
                StageView::Entering => match event {
                    Event::Entered => self.with_top(top.at(StageView::Globbing)),
                    Event::Failed(message) => self.failed(RunError::Directory(message)),
                    _ => self.failed(RunError::Unexpected),
                },
                StageView::Matching => match event {
                    Event::Matched(paths) => self.with_top(
                        ScopeModel {
                            stage: StageView::Globbing,
                            includes: top.includes + texts(paths@),
                            ..top
                        },
                    ),
                    Event::Failed(message) => self.failed(RunError::Include(message)),
                    _ => self.failed(RunError::Unexpected),
                },
                StageView::Running(name) => match event {
                    Event::Finished(launch) => self.with_top(
                        ScopeModel {
                            stage: StageView::Testing,
                            tally: if launch.passed() {
                                top.tally.with_success(name)
                            } else {
                                top.tally.with_failure(name)
                            },
                            ..top
                        },
                    ),
                    _ => self.failed(RunError::Unexpected),
                },
                StageView::Pausing => match event {
                    Event::Resumed => self.with_top(top.at(StageView::Testing)),
                    _ => self.failed(RunError::Unexpected),
                },
                StageView::Leaving => match event {
                    Event::Left => self.left(),
                    Event::Failed(message) => self.unwound(RunError::Directory(message)),
                    _ => self.unwound(RunError::Unexpected),
                },
                _ => self.failed(RunError::Unexpected),
            }
        }
    }

    /// Whether the next decision needs the instances of the innermost
    /// scope's next declaration: the scope is at its tests, and no instance
    /// is left of the declaration before.
    pub open spec fn wants_expansion(self) -> bool {
        &&& self.scopes.len() > 0
        &&& self.top().stage == StageView::Testing || (self.top().stage == StageView::Globbing
            && self.top().patterns.len() == 0)
        &&& self.top().instances.len() == 0
        &&& self.top().declarations.len() > 0
    }

    /// The run after it failed within the innermost scope, which is left at
    /// once.
    pub open spec fn leaving_for(self, error: RunError) -> RunnerModel {
        RunnerModel {
            scopes: self.scopes.drop_last().push(self.top().at(StageView::Leaving)),
            error: Some(first_error(self.error, error)),
            result: None,
            ..self
        }
    }

    /// The decision of a scope that has no test left: its next include is
    /// opened as a scope within it, and without one it is left.
    pub open spec fn included(self) -> (RunnerModel, ActionView) {
        let top = self.top();
        if top.includes.len() > 0 {
            (
                RunnerModel {
                    scopes: self.scopes.drop_last().push(
                        ScopeModel {
                            stage: StageView::Including,
                            includes: top.includes.skip(1),
                            ..top
                        },
                    ).push(ScopeModel::fresh()),
                    ..self
                },
                ActionView::Open(top.includes[0]),
            )
        } else {
            (self.with_top(top.at(StageView::Leaving)), ActionView::Leave)
        }
    }

    /// The decision of a scope at its tests. The next instance is run where
    /// the filter selects it and counted as ignored where not. Without an
    /// instance left, the next declaration is replaced by its instances,
    /// which are given as `expansion`, and an expansion that failed fails
    /// the run. Without a declaration left, the includes follow.
    pub open spec fn tested(self, expansion: Option<Result<Seq<TestView>, RunError>>) -> (
        RunnerModel,
        ActionView,
    ) {
        let top = self.top();
        if top.instances.len() > 0 {
            let test = top.instances[0];
            if selected(self.filter, test.name) {
                (
                    self.with_top(
                        ScopeModel {
                            stage: StageView::Running(test.name),
                            instances: top.instances.skip(1),
                            ..top
                        },
                    ),
                    ActionView::Run(test),
                )
            } else if top.tally.ignored >= u32::MAX {
                (self.leaving_for(RunError::TooManyIgnored), ActionView::Leave)
            } else {
                (
                    self.with_top(
                        ScopeModel {
                            stage: StageView::Pausing,
                            instances: top.instances.skip(1),
                            tally: top.tally.with_ignored(),
                            ..top
                        },
                    ),
                    ActionView::Skip(test.name),
                )
            }
        } else if top.declarations.len() > 0 {
            match expansion {
                Some(Ok(instances)) => (
                    self.with_top(
                        ScopeModel {
                            stage: StageView::Pausing,
                            declarations: top.declarations.skip(1),
                            instances,
                            ..top
                        },
                    ),
                    ActionView::Continue,
                ),
                Some(Err(error)) => (self.leaving_for(error), ActionView::Leave),
                None => (self.leaving_for(RunError::Unexpected), ActionView::Leave),
            }
        } else {
            self.included()
        }
    }

    /// What the run asks of the host next, and the run after that.
    pub open spec fn decided(self, expansion: Option<Result<Seq<TestView>, RunError>>) -> (
        RunnerModel,
        ActionView,
    ) {
        if self.scopes.len() == 0 {
            let over = RunnerModel { error: None, result: None, ..self };
            match (self.error, self.result) {
                (Some(error), _) => (over, ActionView::Done(Err(error))),
                (None, Some(tally)) => (over, ActionView::Done(Ok(tally))),
                (None, None) => (over, ActionView::Done(Err(RunError::Unexpected))),
            }
        } else {
            let top = self.top();
            match top.stage {
                StageView::Arrived(dir) => (
                    self.with_top(top.at(StageView::Entering)),
                    ActionView::Enter(dir),
                ),
                StageView::Globbing => if top.patterns.len() > 0 {
                    (
                        self.with_top(
                            ScopeModel {
                                stage: StageView::Matching,
                                patterns: top.patterns.skip(1),
                                ..top
                            },
                        ),
                        ActionView::Glob(top.patterns[0]),
                    )
                } else {
                    self.tested(expansion)
                },
                StageView::Testing => self.tested(expansion),
                StageView::Including => self.included(),
                StageView::Failing => (self.with_top(top.at(StageView::Leaving)), ActionView::Leave),
                _ => (self.leaving_for(RunError::Unexpected), ActionView::Leave),
            }
        }
    }
}

struct Scope {
    stage: Stage,
    declarations: Vec<Declaration>,
    instances: Vec<Test>,
    patterns: Vec<String>,
    includes: Vec<String>,
    result: RunConfigResult,
}

impl View for Scope {
    type V = ScopeModel;

    closed spec fn view(&self) -> ScopeModel {
        ScopeModel {
            stage: self.stage@,
            declarations: declaration_views(self.declarations@),
            instances: test_views(self.instances@),
            patterns: texts(self.patterns@),
            includes: texts(self.includes@),
            tally: self.result@,
        }
    }
}

impl Scope {
    fn fresh() -> (scope: Scope)
        ensures
            scope@ == ScopeModel::fresh(),
    {
        let scope = Scope {
            stage: Stage::Opening,
            declarations: Vec::new(),
            instances: Vec::new(),
            patterns: Vec::new(),
            includes: Vec::new(),
            result: RunConfigResult::default(),
        };
        assert(scope@.declarations =~= Seq::empty());
        assert(scope@.instances =~= Seq::empty());
        assert(scope@.includes =~= Seq::empty());
        scope
    }
}

spec fn scope_models(scopes: Seq<Scope>) -> Seq<ScopeModel> {
    scopes.map_values(|scope: Scope| scope@)
}

/// The run of a configuration file and of the files it includes.
pub struct Runner {
    filter: Option<regex::Regex>,
    scopes: Vec<Scope>,
    error: Option<RunError>,
    result: Option<RunConfigResult>,
}

impl View for Runner {
    type V = RunnerModel;

    closed spec fn view(&self) -> RunnerModel {
        RunnerModel {
            filter: self.filter,
            scopes: scope_models(self.scopes@),
            error: self.error,
            result: match self.result {
                Some(result) => Some(result@),
                None => None,
            },
        }
    }
}

impl Runner {
    /// Marks the innermost scope, if there is one, as failing.
    fn mark_failing(&mut self)
        ensures
            scope_models(final(self).scopes@) == failing(scope_models(old(self).scopes@)),
            final(self).filter == old(self).filter,
            final(self).error == old(self).error,
            final(self).result == old(self).result,
    {
        let ghost before = scope_models(self.scopes@);
        match self.scopes.pop() {
            Some(top) => {
                let ghost rest = scope_models(self.scopes@);
                let Scope { stage: _, declarations, instances, patterns, includes, result } = top;
                let marked = Scope {
                    stage: Stage::Failing,
                    declarations,
                    instances,
                    patterns,
                    includes,
                    result,
                };
                self.scopes.push(marked);
            },
            None => {
            },
        }
    }

    /// Keeps the first error of the run.
    fn note(&mut self, error: RunError)
        ensures
            final(self).error == Some(first_error(old(self).error, error)),
            final(self).result is None,
            final(self).filter == old(self).filter,
            final(self).scopes == old(self).scopes,
    {
        if self.error.is_none() {
            self.error = Some(error);
        }
        self.result = None;
    }

    /// Puts the innermost scope back, and fails the run within it.
    fn fail(&mut self, top: Scope, error: RunError)
        ensures
            final(self)@ == (RunnerModel {
                filter: old(self).filter,
                scopes: scope_models(old(self).scopes@).push(top@),
                error: old(self).error,
                result: None,
            }).failed(error),
            final(self).filter == old(self).filter,
    {
        let ghost rest = scope_models(self.scopes@);
        self.scopes.push(top);
        assert(scope_models(self.scopes@) =~= rest.push(top@));
        self.mark_failing();
        self.note(error);
    }

    /// Fails the run after the innermost scope is gone.
    fn unwind(&mut self, error: RunError)
        ensures
            final(self)@ == (RunnerModel {
                filter: old(self).filter,
                scopes: failing(scope_models(old(self).scopes@)),
                error: Some(first_error(old(self).error, error)),
                result: None,
            }),
            final(self).filter == old(self).filter,
    {
        self.mark_failing();
        self.note(error);
    }

    /// Takes in what the host reports.
    pub fn absorb(&mut self, event: Event)
        ensures
            final(self)@ == old(self)@.absorbed(event),
    {
        let ghost before = self@;
        let top = match self.scopes.pop() {
            Some(top) => top,
            None => {
                return ;
            },
        };
        let ghost rest = scope_models(self.scopes@);
        assert(rest =~= before.scopes.drop_last());
        assert(before.scopes =~= rest.push(top@));
        let Scope { stage, declarations, instances, patterns, includes, result } = top;
        match stage {
            Stage::Opening => match event {
                Event::Opened { text, dir } => match parse_config(text.as_str()) {
                    Ok(config) => {
                        let ParseResult { tests, includes: found } = config;
                        let stage = if dir.as_str().is_empty() {
                            Stage::Globbing
                        } else {
                            Stage::Arrived(dir)
                        };
                        let next = Scope {
                            stage,
                            declarations: tests,
                            instances,
                            patterns: found,
                            includes,
                            result,
                        };
                        self.scopes.push(next);
                        assert(scope_models(self.scopes@) =~= rest.push(next@));
                    },
                    Err(error) => {
                        self.fail(
                            Scope { stage: Stage::Opening, declarations, instances, patterns, includes, result },
                            error,
                        );
                    },
                },
                Event::Failed(message) => {
                    self.unwind(RunError::Unreadable(message));
                },
                Event::Lost(message) => {
                    self.unwind(RunError::Directory(message));
                },
                _ => {
                    self.unwind(RunError::Unexpected);
                },
            },
            Stage::Entering => match event {
                Event::Entered => {
                    let next = Scope {
                        stage: Stage::Globbing,
                        declarations,
                        instances,
                        patterns,
                        includes,
                        result,
                    };
                    self.scopes.push(next);
                    assert(scope_models(self.scopes@) =~= rest.push(next@));
                },
                Event::Failed(message) => {
                    self.fail(
                        Scope { stage: Stage::Entering, declarations, instances, patterns, includes, result },
                        RunError::Directory(message),
                    );
                },
                _ => {
                    self.fail(
                        Scope { stage: Stage::Entering, declarations, instances, patterns, includes, result },
                        RunError::Unexpected,
                    );
                },
            },
            Stage::Matching => match event {
                Event::Matched(paths) => {
                    let mut paths = paths;
                    let mut includes = includes;
                    let ghost known = texts(includes@);
                    let ghost found = texts(paths@);
                    includes.append(&mut paths);
                    assert(texts(includes@) =~= known + found);
                    let next = Scope {
                        stage: Stage::Globbing,
                        declarations,
                        instances,
                        patterns,
                        includes,
                        result,
                    };
                    self.scopes.push(next);
                    assert(scope_models(self.scopes@) =~= rest.push(next@));
                },
                Event::Failed(message) => {
                    self.fail(
                        Scope { stage: Stage::Matching, declarations, instances, patterns, includes, result },
                        RunError::Include(message),
                    );
                },
                _ => {
                    self.fail(
                        Scope { stage: Stage::Matching, declarations, instances, patterns, includes, result },
                        RunError::Unexpected,
                    );
                },
            },
            Stage::Running(name) => match event {
                Event::Finished(launch) => {
                    let mut result = result;
                    if launch.is_pass() {
                        result.record_success(name);
                    } else {
                        result.record_failure(name);
                    }
                    let next = Scope {
                        stage: Stage::Testing,
                        declarations,
                        instances,
                        patterns,
                        includes,
                        result,
                    };
                    self.scopes.push(next);
                    assert(scope_models(self.scopes@) =~= rest.push(next@));
                },
                _ => {
                    self.fail(
                        Scope {
                            stage: Stage::Running(name),
                            declarations,
                            instances,
                            patterns,
                            includes,
                            result,
                        },
                        RunError::Unexpected,
                    );
                },
            },
            Stage::Pausing => match event {
                Event::Resumed => {
                    let next = Scope {
                        stage: Stage::Testing,
                        declarations,
                        instances,
                        patterns,
                        includes,
                        result,
                    };
                    self.scopes.push(next);
                    assert(scope_models(self.scopes@) =~= rest.push(next@));
                },
                _ => {
                    self.fail(
                        Scope { stage: Stage::Pausing, declarations, instances, patterns, includes, result },
                        RunError::Unexpected,
                    );
                },
            },
            Stage::Leaving => match event {
                Event::Left => {
                    let ghost child = ScopeModel { tally: result@, ..ScopeModel::fresh() };
                    assert(rest.push(child).drop_last() =~= rest);
                    self.leave(result);
                },
                Event::Failed(message) => {
                    self.unwind(RunError::Directory(message));
                },
                _ => {
                    self.unwind(RunError::Unexpected);
                },
            },
            other => {
                self.fail(
                    Scope { stage: other, declarations, instances, patterns, includes, result },
                    RunError::Unexpected,
                );
            },
        }
    }

    /// Settles the outcome of a scope that was left in good order.
    fn leave(&mut self, outcome: RunConfigResult)
        ensures
            final(self)@ == (RunnerModel {
                filter: old(self).filter,
                scopes: scope_models(old(self).scopes@).push(
                    ScopeModel { tally: outcome@, ..ScopeModel::fresh() },
                ),
                error: old(self).error,
                result: old(self)@.result,
            }).left(),
            final(self).filter == old(self).filter,
    {
        let ghost rest = scope_models(self.scopes@);
        let ghost child = ScopeModel { tally: outcome@, ..ScopeModel::fresh() };
        assert(rest.push(child).drop_last() =~= rest);
        if self.error.is_some() {
            self.mark_failing();
            return ;
        }
        let parent = match self.scopes.pop() {
            Some(parent) => parent,
            None => {
                self.result = Some(outcome);
                return ;
            },
        };
        let ghost outer = scope_models(self.scopes@);
        assert(outer =~= rest.drop_last());
        if parent.result.ignored > u32::MAX - outcome.ignored {
            self.scopes.push(parent);
            assert(scope_models(self.scopes@) =~= rest);
            self.mark_failing();
            self.error = Some(RunError::TooManyIgnored);
            self.result = None;
            return ;
        }
        let Scope { stage: _, declarations, instances, patterns, includes, result } = parent;
        let mut result = result;
        result.merge(outcome);
        let next = Scope { stage: Stage::Including, declarations, instances, patterns, includes, result };
        self.scopes.push(next);
        assert(scope_models(self.scopes@) =~= outer.push(next@));
    }

    /// Ends the run: hands out its error or its outcome.
    fn done(&mut self) -> (action: Action)
        requires
            old(self).scopes@.len() == 0,
        ensures
            (final(self)@, action@) == old(self)@.decided(None),
            final(self).filter == old(self).filter,
    {
        let error = self.error.take();
        let result = self.result.take();
        match error {
            Some(error) => Action::Done(Err(error)),
            None => match result {
                Some(result) => Action::Done(Ok(result)),
                None => Action::Done(Err(RunError::Unexpected)),
            },
        }
    }

    /// Puts the innermost scope back to be left at once, for an error.
    fn leave_for(&mut self, top: Scope, error: RunError) -> (action: Action)
        ensures
            final(self)@ == (RunnerModel {
                filter: old(self).filter,
                scopes: scope_models(old(self).scopes@).push(top@),
                error: old(self).error,
                result: None,
            }).leaving_for(error),
            action@ == ActionView::Leave,
            final(self).filter == old(self).filter,
    {
        let ghost rest = scope_models(self.scopes@);
        let Scope { stage: _, declarations, instances, patterns, includes, result } = top;
        let next = Scope { stage: Stage::Leaving, declarations, instances, patterns, includes, result };
        self.scopes.push(next);
        assert(scope_models(self.scopes@) =~= rest.push(top@).drop_last().push(next@));
        self.note(error);
        Action::Leave
    }

    /// The decision of a scope that has no test left.
    fn descend(&mut self, top: Scope) -> (action: Action)
        ensures
            (final(self)@, action@) == (RunnerModel {
                filter: old(self).filter,
                scopes: scope_models(old(self).scopes@).push(top@),
                error: old(self).error,
                result: old(self)@.result,
            }).included(),
            final(self).filter == old(self).filter,
    {
        let ghost rest = scope_models(self.scopes@);
        assert(rest.push(top@).drop_last() =~= rest);
        let Scope { stage: _, declarations, instances, patterns, includes, result } = top;
        let mut includes = includes;
        if includes.len() > 0 {
            let ghost waiting = texts(includes@);
            let path = includes.remove(0);
            assert(texts(includes@) =~= waiting.skip(1));
            let next = Scope { stage: Stage::Including, declarations, instances, patterns, includes, result };
            let inner = Scope::fresh();
            self.scopes.push(next);
            self.scopes.push(inner);
            assert(scope_models(self.scopes@) =~= rest.push(next@).push(inner@));
            Action::Open(path)
        } else {
            let next = Scope { stage: Stage::Leaving, declarations, instances, patterns, includes, result };
            self.scopes.push(next);
            assert(scope_models(self.scopes@) =~= rest.push(next@));
            Action::Leave
        }
    }

    /// The decision of a scope at its tests.
    fn test(&mut self, top: Scope, expansion: Option<Result<Vec<Test>, RunError>>) -> (action: Action)
        ensures
            (final(self)@, action@) == (RunnerModel {
                filter: old(self).filter,
                scopes: scope_models(old(self).scopes@).push(top@),
                error: old(self).error,
                result: old(self)@.result,
            }).tested(expansion_view(expansion)),
            final(self).filter == old(self).filter,
    {
        let ghost rest = scope_models(self.scopes@);
        assert(rest.push(top@).drop_last() =~= rest);
        if top.instances.len() > 0 {
            let run = is_selected(&self.filter, top.instances[0].name.as_str());
            if !run && top.result.ignored == u32::MAX {
                return self.leave_for(top, RunError::TooManyIgnored);
            }
            let Scope { stage: _, declarations, instances, patterns, includes, result } = top;
            let mut instances = instances;
            let ghost waiting = test_views(instances@);
            let test = instances.remove(0);
            assert(test_views(instances@) =~= waiting.skip(1));
            if run {
                let next = Scope {
                    stage: Stage::Running(test.name.clone()),
                    declarations,
                    instances,
                    patterns,
                    includes,
                    result,
                };
                self.scopes.push(next);
                assert(scope_models(self.scopes@) =~= rest.push(next@));
                Action::Run(test)
            } else {
                let mut result = result;
                result.record_ignored();
                let next = Scope { stage: Stage::Pausing, declarations, instances, patterns, includes, result };
                self.scopes.push(next);
                assert(scope_models(self.scopes@) =~= rest.push(next@));
                Action::Skip(test.name)
            }
        } else if top.declarations.len() > 0 {
            match expansion {
                Some(Ok(tests)) => {
                    let Scope { stage: _, declarations, instances: _, patterns, includes, result } = top;
                    let mut declarations = declarations;
                    let ghost waiting = declaration_views(declarations@);
                    let _ = declarations.remove(0);
                    assert(declaration_views(declarations@) =~= waiting.skip(1));
                    let next = Scope {
                        stage: Stage::Pausing,
                        declarations,
                        instances: tests,
                        patterns,
                        includes,
                        result,
                    };
                    self.scopes.push(next);
                    assert(scope_models(self.scopes@) =~= rest.push(next@));
                    Action::Continue
                },
                Some(Err(error)) => self.leave_for(top, error),
                None => self.leave_for(top, RunError::Unexpected),
            }
        } else {
            self.descend(top)
        }
    }
}

/// The content of an expansion.
pub open spec fn expansion_view(expansion: Option<Result<Vec<Test>, RunError>>) -> Option<
    Result<Seq<TestView>, RunError>,
> {
    match expansion {
        Some(Ok(tests)) => Some(Ok(test_views(tests@))),
        Some(Err(error)) => Some(Err(error)),
        None => None,
    }
}

/// Whether `expansion` can be what expanding `declaration` gave: its
/// instances, or an error of the template engine in one of its fields.
pub open spec fn expands(
    declaration: DeclarationView,
    expansion: Result<Seq<TestView>, RunError>,
) -> bool {
    match expansion {
        Ok(tests) => instantiated(declaration, tests),
        Err(error) => refused(declaration, error),
    }
}

impl RunnerModel {
    /// Whether `expansion` is what the next decision can be made with: the
    /// expansion of the innermost scope's next declaration where one is
    /// wanted, and nothing where none is.
    pub open spec fn admits(self, expansion: Option<Result<Seq<TestView>, RunError>>) -> bool {
        if self.wants_expansion() {
            expansion matches Some(outcome) && expands(self.top().declarations[0], outcome)
        } else {
            expansion is None
        }
    }
}

impl Runner {
    /// Whether the next decision needs the instances of the innermost
    /// scope's next declaration.
    pub fn needs_expansion(&self) -> (needed: bool)
        ensures
            needed == self@.wants_expansion(),
    {
        let depth = self.scopes.len();
        if depth == 0 {
            return false;
        }
        let top = &self.scopes[depth - 1];
        let at_tests = match top.stage {
            Stage::Testing => true,
            Stage::Globbing => top.patterns.len() == 0,
            _ => false,
        };
        at_tests && top.instances.len() == 0 && top.declarations.len() > 0
    }

    /// Decides what to ask of the host next. `expansion` holds the instances
    /// of the innermost scope's next declaration, or why it has none; it is
    /// read only where [`RunnerModel::wants_expansion`] holds.
    pub fn decide(&mut self, expansion: Option<Result<Vec<Test>, RunError>>) -> (action: Action)
        ensures
            (final(self)@, action@) == old(self)@.decided(expansion_view(expansion)),
    {
        let ghost before = self@;
        let top = match self.scopes.pop() {
            Some(top) => top,
            None => {
                return self.done();
            },
        };
        let ghost rest = scope_models(self.scopes@);
        assert(rest =~= before.scopes.drop_last());
        assert(before.scopes =~= rest.push(top@));
        match &top.stage {
            Stage::Arrived(dir) => {
                let dir = dir.clone();
                let Scope { stage: _, declarations, instances, patterns, includes, result } = top;
                let next = Scope { stage: Stage::Entering, declarations, instances, patterns, includes, result };
                self.scopes.push(next);
                assert(scope_models(self.scopes@) =~= rest.push(next@));
                Action::Enter(dir)
            },
            Stage::Globbing => {
                if top.patterns.len() > 0 {
                    let Scope { stage: _, declarations, instances, patterns, includes, result } = top;
                    let mut patterns = patterns;
                    let ghost waiting = texts(patterns@);
                    let pattern = patterns.remove(0);
                    assert(texts(patterns@) =~= waiting.skip(1));
                    let next = Scope {
                        stage: Stage::Matching,
                        declarations,
                        instances,
                        patterns,
                        includes,
                        result,
                    };
                    self.scopes.push(next);
                    assert(scope_models(self.scopes@) =~= rest.push(next@));
                    Action::Glob(pattern)
                } else {
                    self.test(top, expansion)
                }
            },
            Stage::Testing => self.test(top, expansion),
            Stage::Including => self.descend(top),
            Stage::Failing => {
                let Scope { stage: _, declarations, instances, patterns, includes, result } = top;
                let next = Scope { stage: Stage::Leaving, declarations, instances, patterns, includes, result };
                self.scopes.push(next);
                assert(scope_models(self.scopes@) =~= rest.push(next@));
                Action::Leave
            },
            _ => self.leave_for(top, RunError::Unexpected),
        }
    }

    /// Takes in what the host reports and decides what to ask of it next.
    ///
    /// Where the innermost scope has run all instances of one declaration
    /// and has another, that declaration is expanded here. The template
    /// engine decides what comes of that; whatever it says, the step is the
    /// one that [`RunnerModel::decided`] describes for an expansion that the
    /// declaration admits. A step in which nothing is expanded is fully
    /// determined.
    pub fn step(&mut self, event: Event) -> (action: Action)
        ensures
            exists|expansion: Option<Result<Seq<TestView>, RunError>>|
                {
                    &&& #[trigger] old(self)@.absorbed(event).admits(expansion)
                    &&& (final(self)@, action@) == old(self)@.absorbed(event).decided(expansion)
                },
    {
        self.absorb(event);
        let ghost taken = self@;
        let expansion = if self.needs_expansion() {
            let depth = self.scopes.len();
            let declaration = &self.scopes[depth - 1].declarations[0];
            let instances = instantiate(declaration);
            Some(instances)
        } else {
            None
        };
        assert(taken.admits(expansion_view(expansion)));
        self.decide(expansion)
    }
}

/// Starts the run of a configuration file: the first thing to do is to open
/// it.
pub fn run_config(config_filename: String, filter: Option<regex::Regex>) -> (started: (Runner, Action))
    ensures
        started.0@ == RunnerModel::started(filter),
        started.1@ == ActionView::Open(config_filename@),
{
    let mut scopes: Vec<Scope> = Vec::new();
    let scope = Scope::fresh();
    scopes.push(scope);
    assert(scope_models(scopes@) =~= seq![ScopeModel::fresh()]);
    (Runner { filter, scopes, error: None, result: None }, Action::Open(config_filename))
}

/// The configuration file to use: the one that was named, else the one that
/// was found.
pub open spec fn chosen(config_filename: Option<String>, found: Option<String>) -> Option<String> {
    match config_filename {
        Some(path) => Some(path),
        None => found,
    }
}

/// Starts the run of the configuration file that was named or, where none
/// was, of the one that was found by [`find_config_file`]. Without either
/// there is nothing to run.
pub fn run_config_root(
    config_filename: Option<String>,
    found: Option<String>,
    filter: Option<regex::Regex>,
) -> (started: Result<(Runner, Action), RunError>)
    ensures
        match chosen(config_filename, found) {
            Some(path) => started matches Ok(run) && run.0@ == RunnerModel::started(filter) && run.1@
                == ActionView::Open(path@),
            None => started matches Err(RunError::ConfigNotFound),
        },
{
    let path = match config_filename {
        Some(path) => path,
        None => match found {
            Some(path) => path,
            None => {
                return Err(RunError::ConfigNotFound);
            },
        },
    };
    Ok(run_config(path, filter))
}

/// The position of the first candidate that exists, or the number of
/// candidates where none does.
pub open spec fn first_present(candidates: Seq<(String, bool)>) -> int
    decreases candidates.len(),
{
    if candidates.len() == 0 || candidates[0].1 {
        0
    } else {
        1 + first_present(candidates.skip(1))
    }
}

/// Picks the configuration file among the candidates: the paths that a
/// search tries, from the directory it starts in upwards, each with whether
/// a file is there. The first that is there is taken.
pub fn find_config_file(candidates: &Vec<(String, bool)>) -> (found: Option<String>)
    ensures
        0 <= first_present(candidates@) <= candidates@.len(),
        match found {
            Some(path) => first_present(candidates@) < candidates@.len() && path == candidates@[first_present(
                candidates@,
            )].0,
            None => first_present(candidates@) == candidates@.len(),
        },
        forall|k: int| 0 <= k < first_present(candidates@) ==> !(#[trigger] candidates@[k]).1,
        first_present(candidates@) < candidates@.len() ==> candidates@[first_present(candidates@)].1,
{
    let mut i: usize = 0;
    proof {
        assert(candidates@.skip(0) =~= candidates@);
        lemma_first_present_bounds(candidates@);
    }
    while i < candidates.len()
        invariant
            i <= candidates.len(),
            first_present(candidates@) == i + first_present(candidates@.skip(i as int)),
            0 <= first_present(candidates@.skip(i as int)) <= candidates@.len() - i,
            forall|k: int| 0 <= k < i ==> !(#[trigger] candidates@[k]).1,
        decreases candidates.len() - i,
    {
        let ghost rest = candidates@.skip(i as int);
        assert(rest.skip(1) =~= candidates@.skip(i + 1));
        if candidates[i].1 {
            return Some(candidates[i].0.clone());
        }
        proof {
            lemma_first_present_bounds(rest.skip(1));
        }
        i = i + 1;
    }
    None
}

/// The first candidate that exists is sought among the candidates.
proof fn lemma_first_present_bounds(candidates: Seq<(String, bool)>)
    ensures
        0 <= first_present(candidates) <= candidates.len(),
    decreases candidates.len(),
{
    if candidates.len() > 0 && !candidates[0].1 {
        lemma_first_present_bounds(candidates.skip(1));
    }
}

impl ScopeModel {
    /// Whether nothing was run in the scope and nothing that waits in it
    /// will be: no test is running, none has passed or failed, and the
    /// filter selects none of the instances that wait.
    pub open spec fn idle(self, filter: Option<regex::Regex>) -> bool {
        &&& !(self.stage is Running)
        &&& self.tally.executed() == 0
        &&& forall|k: int|
            0 <= k < self.instances.len() ==> !selected(filter, (#[trigger] self.instances[k]).name)
    }
}

impl RunnerModel {
    /// Whether nothing was run so far and nothing that waits will be.
    pub open spec fn idle(self) -> bool {
        &&& forall|k: int| 0 <= k < self.scopes.len() ==> (#[trigger] self.scopes[k]).idle(self.filter)
        &&& self.result matches Some(tally) ==> tally.executed() == 0
    }

    /// The run as [`run_config`] starts it.
    pub open spec fn started(filter: Option<regex::Regex>) -> RunnerModel {
        RunnerModel { filter, scopes: seq![ScopeModel::fresh()], error: None, result: None }
    }
}

/// Whether the filter selects none of the instances of an expansion.
pub open spec fn unselected(
    filter: Option<regex::Regex>,
    expansion: Option<Result<Seq<TestView>, RunError>>,
) -> bool {
    expansion matches Some(Ok(tests)) ==> forall|k: int|
        0 <= k < tests.len() ==> !selected(filter, (#[trigger] tests[k]).name)
}

/// A run starts with nothing run.
pub proof fn lemma_started_idle(filter: Option<regex::Regex>)
    ensures
        RunnerModel::started(filter).idle(),
{
}

/// Taking in a report runs nothing.
pub proof fn lemma_absorbed_idle(run: RunnerModel, event: Event)
    requires
        run.idle(),
    ensures
        run.absorbed(event).idle(),
{
}

/// Where the filter selects no instance, a decision runs nothing: it asks
/// for no test to be run, and a run that ends has executed nothing, so that
/// it is no success.
pub proof fn lemma_decided_idle(
    run: RunnerModel,
    expansion: Option<Result<Seq<TestView>, RunError>>,
)
    requires
        run.idle(),
        unselected(run.filter, expansion),
    ensures
        run.decided(expansion).0.idle(),
        !(run.decided(expansion).1 is Run),
        run.decided(expansion).1 matches ActionView::Done(Ok(tally)) ==> tally.executed() == 0
            && !tally.is_success(),
{
}

impl ScopeModel {
    /// Whether every test that waits in the scope, declared or rendered, has
    /// a command to run.
    pub open spec fn runnable(self) -> bool {
        &&& forall|k: int|
            0 <= k < self.declarations.len() ==> (#[trigger] self.declarations[k]).test.command.len() > 0
        &&& forall|k: int| 0 <= k < self.instances.len() ==> (#[trigger] self.instances[k]).command.len() > 0
    }
}

impl RunnerModel {
    /// Whether every test that waits has a command to run.
    pub open spec fn runnable(self) -> bool {
        forall|k: int| 0 <= k < self.scopes.len() ==> (#[trigger] self.scopes[k]).runnable()
    }
}

/// A run starts with nothing that waits.
pub proof fn lemma_started_runnable(filter: Option<regex::Regex>)
    ensures
        RunnerModel::started(filter).runnable(),
{
}

/// Taking in a report keeps every test that waits runnable: the tests that a
/// configuration declares have commands.
pub proof fn lemma_absorbed_runnable(run: RunnerModel, event: Event)
    requires
        run.runnable(),
    ensures
        run.absorbed(event).runnable(),
{
    if run.scopes.len() > 0 {
        match event {
            Event::Opened { text, dir } => {
                if parsed_text(text@) is Ok {
                    let config = parsed_text(text@)->Ok_0;
                    assert forall|k: int| 0 <= k < config.tests.len() implies (
                    #[trigger] config.tests[k]).test.command.len() > 0 by {
                        lemma_declared_command(text@, k);
                    }
                }
            },
            _ => {},
        }
    }
}

/// A decision that is made with an expansion that the run admits keeps every
/// test that waits runnable, and asks only for tests with a command to be
/// run.
pub proof fn lemma_decided_runnable(
    run: RunnerModel,
    expansion: Option<Result<Seq<TestView>, RunError>>,
)
    requires
        run.runnable(),
        run.admits(expansion),
    ensures
        run.decided(expansion).0.runnable(),
        run.decided(expansion).1 matches ActionView::Run(test) ==> test.command.len() > 0,
{
    if run.scopes.len() > 0 {
        let top = run.top();
        if top.declarations.len() > 0 {
            if run.wants_expansion() {
                match expansion {
                    Some(Ok(tests)) => {
                        lemma_instantiated_shapes(top.declarations[0], tests);
                    },
                    _ => {},
                }
            }
        }
    }
}

/// A scope's own tests come before its includes: an included file is opened
/// only when the scope has no pattern left to resolve, no instance left to
/// run and no declaration left to expand.
pub proof fn lemma_tests_before_includes(
    run: RunnerModel,
    expansion: Option<Result<Seq<TestView>, RunError>>,
)
    requires
        run.scopes.len() > 0,
        run.top().stage is Globbing || run.top().stage is Testing,
        run.decided(expansion).1 is Open,
    ensures
        run.top().stage is Globbing ==> run.top().patterns.len() == 0,
        run.top().instances.len() == 0,
        run.top().declarations.len() == 0,
        run.top().includes.len() > 0,
        run.decided(expansion).1 == ActionView::Open(run.top().includes[0]),
{
}

/// Scopes are closed in the reverse order of their opening, each once. A
/// report closes the innermost scope where the scope was waiting to be left,
/// whatever the report says, or was waiting for its file and the file is not
/// open; no other report opens or closes a scope.
pub proof fn lemma_absorbed_depth(run: RunnerModel, event: Event)
    requires
        run.scopes.len() > 0,
    ensures
        run.absorbed(event).scopes.len() == if run.top().stage is Leaving || (run.top().stage
            is Opening && !(event is Opened)) {
            run.scopes.len() - 1
        } else {
            run.scopes.len() as int
        },
        forall|k: int|
            0 <= k < run.absorbed(event).scopes.len() - 1 ==> #[trigger] run.absorbed(event).scopes[k]
                == run.scopes[k],
{
}

/// A decision opens a scope where it asks for a file to be opened, and only
/// there; it closes none. The run is over only when every scope is closed,
/// so that the host has left every directory that it was asked to remember.
pub proof fn lemma_decided_depth(
    run: RunnerModel,
    expansion: Option<Result<Seq<TestView>, RunError>>,
)
    ensures
        run.decided(expansion).0.scopes.len() == if run.decided(expansion).1 is Open {
            run.scopes.len() + 1
        } else {
            run.scopes.len()
        },
        run.decided(expansion).1 is Done <==> run.scopes.len() == 0,
        run.decided(expansion).1 is Leave ==> run.decided(expansion).0.top().stage
            is Leaving,
{
}

} // verus!
