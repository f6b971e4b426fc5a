//! Whole runs: what holds of a run from its start, whatever the host
//! reports and whatever the template engine makes of the declarations.
//!
//! A run is followed turn by turn. In each turn the runner takes in a report
//! of the host and decides what to ask next, with the instances of a
//! declaration where it expands one.

use vstd::prelude::*;

use crate::error::RunError;
use crate::filter::selected;
use crate::outcome::Tally;
use crate::runner::{
    failing, lemma_absorbed_idle, lemma_absorbed_runnable, lemma_decided_idle,
    lemma_decided_runnable, lemma_started_idle, lemma_started_runnable, unselected, ActionView,
    Event, RunnerModel, ScopeModel, StageView,
};
use crate::test::{Launch, TestView};

verus! {

/// One step of a run: what the host reported, and the expansion that the
/// decision after it was made with.
pub struct Turn {
    pub event: Event,
    pub expansion: Option<Result<Seq<TestView>, RunError>>,
}

impl RunnerModel {
    /// The run after the given turns, taken in order.
    pub open spec fn after(self, turns: Seq<Turn>) -> RunnerModel
        decreases turns.len(),
    {
        if turns.len() == 0 {
            self
        } else {
            self.after(turns.drop_last()).absorbed(turns.last().event).decided(
                turns.last().expansion,
            ).0
        }
    }

    /// What the run asks of the host after the given turns, of which there
    /// is at least one.
    pub open spec fn asks(self, turns: Seq<Turn>) -> ActionView {
        self.after(turns.drop_last()).absorbed(turns.last().event).decided(turns.last().expansion).1
    }
}

/// Whether the filter selects none of the instances that the turns bring.
pub open spec fn none_selected(filter: Option<regex::Regex>, turns: Seq<Turn>) -> bool {
    forall|k: int| 0 <= k < turns.len() ==> unselected(filter, (#[trigger] turns[k]).expansion)
}

/// A whole run under a filter that selects none of its instances runs
/// nothing: whatever the host reports, it is never asked to run a test, and
/// if the run ends with an outcome, nothing was executed, so that the
/// outcome is no success.
pub proof fn lemma_run_idle(filter: Option<regex::Regex>, turns: Seq<Turn>)
    requires
        none_selected(filter, turns),
    ensures
        RunnerModel::started(filter).after(turns).idle(),
        RunnerModel::started(filter).after(turns).filter == filter,
        turns.len() > 0 ==> {
            let action = RunnerModel::started(filter).asks(turns);
            &&& !(action is Run)
            &&& action matches ActionView::Done(Ok(tally)) ==> tally.executed() == 0
                && !tally.is_success()
        },
    decreases turns.len(),
{
    let start = RunnerModel::started(filter);
    if turns.len() == 0 {
        lemma_started_idle(filter);
    } else {
        let before = turns.drop_last();
        assert forall|k: int| 0 <= k < before.len() implies unselected(
            filter,
            (#[trigger] before[k]).expansion,
        ) by {
            assert(before[k] == turns[k]);
        }
        lemma_run_idle(filter, before);
        let reached = start.after(before);
        lemma_absorbed_idle(reached, turns.last().event);
        lemma_absorbed_filter(reached, turns.last().event);
        let taken = reached.absorbed(turns.last().event);
        assert(unselected(filter, turns.last().expansion));
        lemma_decided_idle(taken, turns.last().expansion);
    }
}

/// The filter of a run stays what it is.
pub proof fn lemma_absorbed_filter(run: RunnerModel, event: Event)
    ensures
        run.absorbed(event).filter == run.filter,
{
}

/// Every test that a whole run asks the host to run has a command, provided
/// that each decision was made with an expansion that the run admitted.
pub proof fn lemma_run_runnable(filter: Option<regex::Regex>, turns: Seq<Turn>)
    requires
        forall|k: int|
            0 <= k < turns.len() ==> RunnerModel::started(filter).after(turns.subrange(0, k)).absorbed(
                (#[trigger] turns[k]).event,
            ).admits(turns[k].expansion),
    ensures
        RunnerModel::started(filter).after(turns).runnable(),
        turns.len() > 0 ==> (RunnerModel::started(filter).asks(turns) matches ActionView::Run(test)
            ==> test.command.len() > 0),
    decreases turns.len(),
{
    let start = RunnerModel::started(filter);
    if turns.len() == 0 {
        lemma_started_runnable(filter);
    } else {
        let before = turns.drop_last();
        assert forall|k: int| 0 <= k < before.len() implies start.after(
            before.subrange(0, k),
        ).absorbed((#[trigger] before[k]).event).admits(before[k].expansion) by {
            assert(before[k] == turns[k]);
            assert(before.subrange(0, k) =~= turns.subrange(0, k));
        }
        lemma_run_runnable(filter, before);
        let reached = start.after(before);
        lemma_absorbed_runnable(reached, turns.last().event);
        let last = turns.len() - 1;
        assert(turns.subrange(0, last) =~= before);
        assert(turns[last] == turns.last());
        lemma_decided_runnable(reached.absorbed(turns.last().event), turns.last().expansion);
    }
}

/// A test that fails, for a launch that failed or for its exit, fails the
/// run no more than one that passes: its name is recorded, under the
/// failures or the successes, no error is set, no scope is closed, and the
/// next instance that waits is the next to be decided on.
pub proof fn lemma_finished_goes_on(run: RunnerModel, launch: Launch)
    requires
        run.scopes.len() > 0,
        run.top().stage is Running,
    ensures
        run.absorbed(Event::Finished(launch)).error == run.error,
        run.absorbed(Event::Finished(launch)).scopes.len() == run.scopes.len(),
        run.absorbed(Event::Finished(launch)).top() == (ScopeModel {
            stage: StageView::Testing,
            tally: if launch.passed() {
                run.top().tally.with_success(run.top().stage->Running_0)
            } else {
                run.top().tally.with_failure(run.top().stage->Running_0)
            },
            ..run.top()
        }),
{
}

/// The instances of a declaration are decided on in their order: a scope at
/// its tests with an instance waiting asks for that instance to be run, or
/// skips it, and the others wait on in their order.
pub proof fn lemma_instances_in_order(
    run: RunnerModel,
    expansion: Option<Result<Seq<TestView>, RunError>>,
)
    requires
        run.scopes.len() > 0,
        run.top().stage is Testing,
        run.top().instances.len() > 0,
        run.top().tally.ignored < u32::MAX,
    ensures
        run.decided(expansion).1 == if selected(run.filter, run.top().instances[0].name) {
            ActionView::Run(run.top().instances[0])
        } else {
            ActionView::Skip(run.top().instances[0].name)
        },
        run.decided(expansion).0.top().instances == run.top().instances.skip(1),
        run.decided(expansion).0.error == run.error,
{
}

/// How many instances the scopes have ignored, have run, are running or
/// hold waiting.
pub open spec fn waiting(scopes: Seq<ScopeModel>) -> nat
    decreases scopes.len(),
{
    if scopes.len() == 0 {
        0
    } else {
        waiting(scopes.drop_last()) + scopes.last().load()
    }
}

impl ScopeModel {
    /// How many instances the scope has ignored, has run, is running or
    /// holds waiting.
    pub open spec fn load(self) -> nat {
        self.tally.ignored + self.tally.executed() + self.instances.len() + if self.stage
            is Running {
            1nat
        } else {
            0nat
        }
    }

    /// A scope that is at its includes or is being left has no instance
    /// waiting; and no scope is failing.
    pub open spec fn settled(self) -> bool {
        &&& self.stage is Including || self.stage is Leaving ==> self.instances.len() == 0
        &&& !(self.stage is Failing)
    }
}

/// Whether the scopes are as they are in a run that has not failed: every
/// scope is settled, and every scope but the innermost is at its includes.
pub open spec fn chained(scopes: Seq<ScopeModel>) -> bool {
    forall|k: int|
        0 <= k < scopes.len() ==> (#[trigger] scopes[k]).settled() && (k + 1 < scopes.len()
            ==> scopes[k].stage is Including)
}

impl RunnerModel {
    /// Whether, in a run that has not failed, the instances ignored, run,
    /// running and waiting are `total` together.
    pub open spec fn counted(self, total: nat) -> bool {
        self.error is None ==> {
            &&& chained(self.scopes)
            &&& self.scopes.len() > 0 ==> waiting(self.scopes) == total && self.result is None
            &&& self.result matches Some(tally) ==> tally.ignored + tally.executed() == total
                && self.scopes.len() == 0
        }
    }

    /// How many instances the next decision gains from the expansion.
    pub open spec fn gain(self, expansion: Option<Result<Seq<TestView>, RunError>>) -> nat {
        if self.wants_expansion() {
            match expansion {
                Some(Ok(tests)) => tests.len(),
                _ => 0,
            }
        } else {
            0
        }
    }

    /// How many instances the expansions of the turns have brought.
    pub open spec fn brought(self, turns: Seq<Turn>) -> nat
        decreases turns.len(),
    {
        if turns.len() == 0 {
            0
        } else {
            self.brought(turns.drop_last()) + self.after(turns.drop_last()).absorbed(
                turns.last().event,
            ).gain(turns.last().expansion)
        }
    }
}

proof fn lemma_waiting_push(scopes: Seq<ScopeModel>, scope: ScopeModel)
    ensures
        waiting(scopes.push(scope)) == waiting(scopes) + scope.load(),
{
    assert(scopes.push(scope).drop_last() =~= scopes);
}

proof fn lemma_waiting_top(scopes: Seq<ScopeModel>)
    requires
        scopes.len() > 0,
    ensures
        waiting(scopes) == waiting(scopes.drop_last()) + scopes.last().load(),
{
}

proof fn lemma_chained_rest(scopes: Seq<ScopeModel>)
    requires
        chained(scopes),
        scopes.len() > 0,
    ensures
        chained(scopes.drop_last()),
        scopes.last().settled(),
        scopes.len() > 1 ==> scopes.drop_last().last().stage is Including
            && scopes.drop_last().last().instances.len() == 0,
{
    assert forall|k: int| 0 <= k < scopes.drop_last().len() implies (#[trigger] scopes.drop_last()[
        k
    ]).settled() && (k + 1 < scopes.drop_last().len() ==> scopes.drop_last()[k].stage
        is Including) by {
        assert(scopes.drop_last()[k] == scopes[k]);
    }
    if scopes.len() > 1 {
        assert(scopes.drop_last().last() == scopes[scopes.len() - 2]);
    }
}

proof fn lemma_chained_push(scopes: Seq<ScopeModel>, scope: ScopeModel)
    requires
        chained(scopes),
        scope.settled(),
        scopes.len() > 0 ==> scopes.last().stage is Including,
    ensures
        chained(scopes.push(scope)),
{
    assert forall|k: int| 0 <= k < scopes.push(scope).len() implies (#[trigger] scopes.push(
        scope,
    )[k]).settled() && (k + 1 < scopes.push(scope).len() ==> scopes.push(scope)[k].stage
        is Including) by {
        if k < scopes.len() {
            assert(scopes.push(scope)[k] == scopes[k]);
        }
    }
}

/// Taking in a report neither loses an instance nor brings one: the test
/// that was running is counted as run, whether it passed or failed.
pub proof fn lemma_absorbed_counted(run: RunnerModel, event: Event, total: nat)
    requires
        run.counted(total),
    ensures
        run.absorbed(event).counted(total),
{
    let after = run.absorbed(event);
    if run.scopes.len() > 0 && after.error is None {
        let top = run.top();
        let rest = run.scopes.drop_last();
        lemma_waiting_top(run.scopes);
        lemma_chained_rest(run.scopes);
        if top.stage is Leaving && event is Left {
            if rest.len() > 0 {
                lemma_waiting_top(rest);
                lemma_chained_rest(rest);
                let merged = ScopeModel {
                    stage: StageView::Including,
                    tally: rest.last().tally.merge(top.tally),
                    ..rest.last()
                };
                lemma_waiting_push(rest.drop_last(), merged);
                lemma_chained_push(rest.drop_last(), merged);
            }
        } else {
            let next = after.top();
            assert(after.scopes =~= rest.push(next));
            lemma_waiting_push(rest, next);
            lemma_chained_push(rest, next);
        }
    }
}

/// A decision loses no instance: the one that it takes is ignored or is
/// running afterwards, and those that an expansion brings wait. The outcome
/// that a run ends with has ignored or run them all.
pub proof fn lemma_decided_counted(
    run: RunnerModel,
    expansion: Option<Result<Seq<TestView>, RunError>>,
    total: nat,
)
    requires
        run.counted(total),
    ensures
        run.decided(expansion).0.counted(total + run.gain(expansion)),
        run.decided(expansion).1 matches ActionView::Done(Ok(tally)) ==> tally.ignored
            + tally.executed() == total,
{
    let after = run.decided(expansion).0;
    if run.scopes.len() > 0 && after.error is None {
        let top = run.top();
        let rest = run.scopes.drop_last();
        lemma_waiting_top(run.scopes);
        lemma_chained_rest(run.scopes);
        if after.scopes.len() == run.scopes.len() {
            let next = after.top();
            assert(after.scopes =~= rest.push(next));
            lemma_waiting_push(rest, next);
            lemma_chained_push(rest, next);
        } else {
            let parent = ScopeModel {
                stage: StageView::Including,
                includes: top.includes.skip(1),
                ..top
            };
            assert(after.scopes =~= rest.push(parent).push(ScopeModel::fresh()));
            lemma_waiting_push(rest, parent);
            lemma_waiting_push(rest.push(parent), ScopeModel::fresh());
            lemma_chained_push(rest, parent);
            lemma_chained_push(rest.push(parent), ScopeModel::fresh());
        }
    }
}

/// A whole run loses no instance: if it ends with an outcome, every
/// instance that the expansions have brought was ignored or was run, whatever
/// became of the others. A test that fails, or that cannot be launched,
/// keeps none of the others from being run.
pub proof fn lemma_run_accounts(filter: Option<regex::Regex>, turns: Seq<Turn>)
    ensures
        RunnerModel::started(filter).after(turns).counted(
            RunnerModel::started(filter).brought(turns),
        ),
        turns.len() > 0 ==> (RunnerModel::started(filter).asks(turns) matches ActionView::Done(
            Ok(tally),
        ) ==> tally.ignored + tally.executed() == RunnerModel::started(filter).brought(turns)),
    decreases turns.len(),
{
    let start = RunnerModel::started(filter);
    if turns.len() == 0 {
        lemma_waiting_push(Seq::empty(), ScopeModel::fresh());
        assert(start.scopes =~= Seq::<ScopeModel>::empty().push(ScopeModel::fresh()));
    } else {
        let before = turns.drop_last();
        lemma_run_accounts(filter, before);
        let reached = start.after(before);
        let total = start.brought(before);
        lemma_absorbed_counted(reached, turns.last().event, total);
        lemma_decided_counted(reached.absorbed(turns.last().event), turns.last().expansion, total);
    }
}

/// A whole run under a filter that selects none of its instances ignores
/// them all: if it ends with an outcome, the ignored count of the outcome is
/// the number of instances that the expansions have brought, and nothing
/// was executed.
pub proof fn lemma_run_ignores_all(filter: Option<regex::Regex>, turns: Seq<Turn>)
    requires
        none_selected(filter, turns),
        turns.len() > 0,
    ensures
        RunnerModel::started(filter).asks(turns) matches ActionView::Done(Ok(tally))
            ==> tally.ignored == RunnerModel::started(filter).brought(turns) && tally.executed()
            == 0 && !tally.is_success(),
{
    lemma_run_accounts(filter, turns);
    lemma_run_idle(filter, turns);
}

impl RunnerModel {
    /// Whether no instance was ignored so far.
    pub open spec fn unfiltered(self) -> bool {
        &&& forall|k: int| 0 <= k < self.scopes.len() ==> (#[trigger] self.scopes[k]).tally.ignored == 0
        &&& self.result matches Some(tally) ==> tally.ignored == 0
    }
}

/// Taking in a report ignores nothing.
pub proof fn lemma_absorbed_unfiltered(run: RunnerModel, event: Event)
    requires
        run.unfiltered(),
    ensures
        run.absorbed(event).unfiltered(),
{
    if run.scopes.len() > 0 {
        let rest = run.scopes.drop_last();
        assert forall|k: int| 0 <= k < rest.len() implies (#[trigger] rest[k]).tally.ignored == 0 by {
            assert(rest[k] == run.scopes[k]);
        }
        assert(run.top().tally.ignored == 0);
        let after = run.absorbed(event);
        assert forall|k: int| 0 <= k < after.scopes.len() implies (#[trigger] after.scopes[
            k
        ]).tally.ignored == 0 by {
            if k < after.scopes.len() - 1 && k < rest.len() {
                assert(after.scopes[k] == rest[k] || after.scopes[k] == failing(rest)[k]
                    || after.scopes[k] == failing(run.scopes)[k]);
                if k < rest.len() - 1 {
                    assert(failing(rest)[k] == rest[k]);
                }
                assert(failing(run.scopes)[k] == run.scopes[k]);
            }
        }
    }
}

/// Without a filter, a decision ignores nothing.
pub proof fn lemma_decided_unfiltered(
    run: RunnerModel,
    expansion: Option<Result<Seq<TestView>, RunError>>,
)
    requires
        run.unfiltered(),
        run.filter is None,
    ensures
        run.decided(expansion).0.unfiltered(),
        !(run.decided(expansion).1 is Skip),
        run.decided(expansion).1 matches ActionView::Done(Ok(tally)) ==> tally.ignored == 0,
{
    if run.scopes.len() > 0 {
        let rest = run.scopes.drop_last();
        assert forall|k: int| 0 <= k < rest.len() implies (#[trigger] rest[k]).tally.ignored == 0 by {
            assert(rest[k] == run.scopes[k]);
        }
        assert(run.top().tally.ignored == 0);
        let after = run.decided(expansion).0;
        assert forall|k: int| 0 <= k < after.scopes.len() implies (#[trigger] after.scopes[
            k
        ]).tally.ignored == 0 by {
            if k < rest.len() {
                assert(after.scopes[k] == rest[k]);
            }
        }
    }
}

/// A whole run without a filter runs every instance: it never skips one,
/// and if it ends with an outcome, as many tests have passed or failed as
/// the expansions have brought instances, and none was ignored. So a test
/// that fails, or whose command cannot be launched, is one failure, and the
/// tests after it are run all the same.
pub proof fn lemma_run_executes_all(turns: Seq<Turn>)
    ensures
        RunnerModel::started(None).after(turns).unfiltered(),
        RunnerModel::started(None).after(turns).filter is None,
        turns.len() > 0 ==> {
            let action = RunnerModel::started(None).asks(turns);
            &&& !(action is Skip)
            &&& action matches ActionView::Done(Ok(tally)) ==> tally.ignored == 0 && tally.executed()
                == RunnerModel::started(None).brought(turns)
        },
    decreases turns.len(),
{
    let start = RunnerModel::started(None);
    if turns.len() > 0 {
        let before = turns.drop_last();
        lemma_run_executes_all(before);
        lemma_run_accounts(None, turns);
        let reached = start.after(before);
        lemma_absorbed_unfiltered(reached, turns.last().event);
        lemma_absorbed_filter(reached, turns.last().event);
        lemma_decided_unfiltered(reached.absorbed(turns.last().event), turns.last().expansion);
    }
}

impl Tally {
    /// The names of the tests that passed, or of those that failed.
    pub open spec fn names(self, passed: bool) -> Seq<Seq<char>> {
        if passed {
            self.successes
        } else {
            self.failures
        }
    }
}

/// The names that the scopes have recorded, those of the outermost scope
/// first.
pub open spec fn recorded(scopes: Seq<ScopeModel>, passed: bool) -> Seq<Seq<char>>
    decreases scopes.len(),
{
    if scopes.len() == 0 {
        Seq::empty()
    } else {
        recorded(scopes.drop_last(), passed) + scopes.last().tally.names(passed)
    }
}

impl RunnerModel {
    /// Whether, in a run that has not failed, the names recorded are
    /// `names`, in this order.
    pub open spec fn noted(self, passed: bool, names: Seq<Seq<char>>) -> bool {
        self.error is None ==> {
            &&& self.scopes.len() > 0 ==> recorded(self.scopes, passed) == names && self.result
                is None
            &&& self.result matches Some(tally) ==> tally.names(passed) == names
                && self.scopes.len() == 0
        }
    }

    /// The name that the report adds to the tests that passed, or to those
    /// that failed: that of the test that was running, where the report is
    /// of its end and says so.
    pub open spec fn finishing(self, event: Event, passed: bool) -> Seq<Seq<char>> {
        if self.scopes.len() > 0 {
            match (self.top().stage, event) {
                (StageView::Running(name), Event::Finished(launch)) => if launch.passed() == passed {
                    seq![name]
                } else {
                    Seq::empty()
                },
                _ => Seq::empty(),
            }
        } else {
            Seq::empty()
        }
    }

    /// The names of the tests that the turns saw pass, or fail, in the order
    /// in which they ended.
    pub open spec fn ran(self, turns: Seq<Turn>, passed: bool) -> Seq<Seq<char>>
        decreases turns.len(),
    {
        if turns.len() == 0 {
            Seq::empty()
        } else {
            self.ran(turns.drop_last(), passed) + self.after(turns.drop_last()).finishing(
                turns.last().event,
                passed,
            )
        }
    }
}

proof fn lemma_recorded_push(scopes: Seq<ScopeModel>, scope: ScopeModel, passed: bool)
    ensures
        recorded(scopes.push(scope), passed) == recorded(scopes, passed) + scope.tally.names(passed),
{
    assert(scopes.push(scope).drop_last() =~= scopes);
}

/// Taking in a report records the test that was running, after all that is
/// recorded, and nothing else; the outcome of a scope that is left goes
/// behind what the scope around it has recorded.
pub proof fn lemma_absorbed_noted(
    run: RunnerModel,
    event: Event,
    passed: bool,
    names: Seq<Seq<char>>,
)
    requires
        run.noted(passed, names),
    ensures
        run.absorbed(event).noted(passed, names + run.finishing(event, passed)),
{
    let after = run.absorbed(event);
    let gained = run.finishing(event, passed);
    if run.scopes.len() == 0 {
        assert(names + gained =~= names);
    } else if after.error is None {
        let top = run.top();
        let rest = run.scopes.drop_last();
        assert(run.scopes =~= rest.push(top));
        lemma_recorded_push(rest, top, passed);
        if top.stage is Leaving && event is Left {
            assert(names + gained =~= names);
            if rest.len() > 0 {
                let parent = rest.last();
                let outer = rest.drop_last();
                assert(rest =~= outer.push(parent));
                lemma_recorded_push(outer, parent, passed);
                let merged = ScopeModel {
                    stage: StageView::Including,
                    tally: parent.tally.merge(top.tally),
                    ..parent
                };
                lemma_recorded_push(outer, merged, passed);
                assert(recorded(outer, passed) + merged.tally.names(passed) =~= recorded(
                    outer,
                    passed,
                ) + parent.tally.names(passed) + top.tally.names(passed));
            } else {
                assert(recorded(rest, passed) =~= Seq::<Seq<char>>::empty());
                assert(recorded(rest, passed) + top.tally.names(passed) =~= top.tally.names(passed));
            }
        } else {
            let next = after.top();
            assert(after.scopes =~= rest.push(next));
            lemma_recorded_push(rest, next, passed);
            assert(next.tally.names(passed) =~= top.tally.names(passed) + gained);
            assert(recorded(rest, passed) + (top.tally.names(passed) + gained) =~= recorded(
                rest,
                passed,
            ) + top.tally.names(passed) + gained);
        }
    }
}

/// A decision records nothing, and the outcome that a run ends with holds
/// what was recorded.
pub proof fn lemma_decided_noted(
    run: RunnerModel,
    expansion: Option<Result<Seq<TestView>, RunError>>,
    passed: bool,
    names: Seq<Seq<char>>,
)
    requires
        run.noted(passed, names),
    ensures
        run.decided(expansion).0.noted(passed, names),
        run.decided(expansion).1 matches ActionView::Done(Ok(tally)) ==> tally.names(passed)
            == names,
{
    let after = run.decided(expansion).0;
    if run.scopes.len() > 0 && after.error is None {
        let top = run.top();
        let rest = run.scopes.drop_last();
        assert(run.scopes =~= rest.push(top));
        lemma_recorded_push(rest, top, passed);
        if after.scopes.len() == run.scopes.len() {
            let next = after.top();
            assert(after.scopes =~= rest.push(next));
            lemma_recorded_push(rest, next, passed);
        } else {
            let parent = ScopeModel {
                stage: StageView::Including,
                includes: top.includes.skip(1),
                ..top
            };
            assert(after.scopes =~= rest.push(parent).push(ScopeModel::fresh()));
            lemma_recorded_push(rest, parent, passed);
            lemma_recorded_push(rest.push(parent), ScopeModel::fresh(), passed);
            assert(recorded(rest.push(parent), passed) + ScopeModel::fresh().tally.names(passed)
                =~= recorded(rest.push(parent), passed));
        }
    }
}

/// The outcome of a whole run lists the tests in the order in which they
/// ended: the successes are the names of the tests that passed, the failures
/// those of the tests that failed, across the file and the files that it
/// includes. As a scope's own tests are run before its includes, and each
/// include to its end before the next, the outcome of a file is its own
/// tests followed by the outcomes of its includes in their order.
pub proof fn lemma_run_records(filter: Option<regex::Regex>, turns: Seq<Turn>, passed: bool)
    ensures
        RunnerModel::started(filter).after(turns).noted(
            passed,
            RunnerModel::started(filter).ran(turns, passed),
        ),
        turns.len() > 0 ==> (RunnerModel::started(filter).asks(turns) matches ActionView::Done(
            Ok(tally),
        ) ==> tally.names(passed) == RunnerModel::started(filter).ran(turns, passed)),
    decreases turns.len(),
{
    let start = RunnerModel::started(filter);
    if turns.len() == 0 {
        lemma_recorded_push(Seq::empty(), ScopeModel::fresh(), passed);
        assert(start.scopes =~= Seq::<ScopeModel>::empty().push(ScopeModel::fresh()));
        assert(recorded(start.scopes, passed) =~= Seq::<Seq<char>>::empty());
    } else {
        let before = turns.drop_last();
        lemma_run_records(filter, before, passed);
        let reached = start.after(before);
        let names = start.ran(before, passed);
        lemma_absorbed_noted(reached, turns.last().event, passed, names);
        lemma_decided_noted(
            reached.absorbed(turns.last().event),
            turns.last().expansion,
            passed,
            names + reached.finishing(turns.last().event, passed),
        );
    }
}

} // verus!
