//! Aggregated outcomes of a run.

use vstd::prelude::*;

verus! {

/// The texts of a sequence of owned strings.
pub open spec fn texts(names: Seq<String>) -> Seq<Seq<char>> {
    names.map_values(|name: String| name@)
}

/// The mathematical content of a [`RunConfigResult`].
pub struct Tally {
    /// How many instances the filter left out.
    pub ignored: nat,
    /// Names of the instances that passed, in execution order.
    pub successes: Seq<Seq<char>>,
    /// Names of the instances that failed, in execution order.
    pub failures: Seq<Seq<char>>,
}

impl Tally {
    /// The tally of a run in which nothing has happened yet.
    pub open spec fn zero() -> Tally {
        Tally { ignored: 0, successes: Seq::empty(), failures: Seq::empty() }
    }

    /// How many instances were executed.
    pub open spec fn executed(self) -> nat {
        self.successes.len() + self.failures.len()
    }

    /// `self` followed by `other`: counts add up, lists are concatenated with
    /// `other`'s entries last.
    pub open spec fn merge(self, other: Tally) -> Tally {
        Tally {
            ignored: self.ignored + other.ignored,
            successes: self.successes + other.successes,
            failures: self.failures + other.failures,
        }
    }

    /// A run succeeds when at least one instance was executed and none failed.
    pub open spec fn is_success(self) -> bool {
        self.failures.len() == 0 && self.executed() > 0
    }

    /// `self` after one more instance was left out by the filter.
    pub open spec fn with_ignored(self) -> Tally {
        Tally { ignored: self.ignored + 1, ..self }
    }

    /// `self` after the instance called `name` passed.
    pub open spec fn with_success(self, name: Seq<char>) -> Tally {
        Tally { successes: self.successes.push(name), ..self }
    }

    /// `self` after the instance called `name` failed.
    pub open spec fn with_failure(self, name: Seq<char>) -> Tally {
        Tally { failures: self.failures.push(name), ..self }
    }

    /// The lines of the summary, top to bottom: the passed instances under
    /// their header, if there are any, the failed ones under theirs, if
    /// there are any, the number of ignored instances, and a notice if
    /// nothing was executed.
    pub open spec fn summary(self) -> Seq<SummaryEntry> {
        let passed = self.successes.len();
        let failed = self.failures.len();
        let successes = if passed > 0 {
            seq![SummaryEntry::SuccessesHeader { passed, failed }] + self.successes.map_values(
                |name: Seq<char>| SummaryEntry::Success(name),
            )
        } else {
            Seq::empty()
        };
        let failures = if failed > 0 {
            seq![SummaryEntry::FailuresHeader { passed, failed }] + self.failures.map_values(
                |name: Seq<char>| SummaryEntry::Failure(name),
            )
        } else {
            Seq::empty()
        };
        let ignored = seq![SummaryEntry::Ignored(self.ignored)];
        let notice = if passed + failed == 0 {
            seq![SummaryEntry::NothingExecuted]
        } else {
            Seq::empty()
        };
        successes + failures + ignored + notice
    }
}

/// The mathematical content of a [`SummaryLine`].
pub enum SummaryEntry {
    SuccessesHeader { passed: nat, failed: nat },
    Success(Seq<char>),
    FailuresHeader { passed: nat, failed: nat },
    Failure(Seq<char>),
    Ignored(nat),
    NothingExecuted,
}

/// One line of the summary of a run.
///
/// Both headers carry the number of passed and of failed instances; the
/// number executed is their sum.
#[derive(Debug, PartialEq, Eq)]
pub enum SummaryLine {
    /// Opens the list of instances that passed.
    SuccessesHeader { passed: usize, failed: usize },
    /// The name of an instance that passed.
    Success(String),
    /// Opens the list of instances that failed.
    FailuresHeader { passed: usize, failed: usize },
    /// The name of an instance that failed.
    Failure(String),
    /// How many instances the filter left out.
    Ignored(u32),
    /// No instance was executed.
    NothingExecuted,
}

impl View for SummaryLine {
    type V = SummaryEntry;

    open spec fn view(&self) -> SummaryEntry {
        match *self {
            SummaryLine::SuccessesHeader { passed, failed } => SummaryEntry::SuccessesHeader {
                passed: passed as nat,
                failed: failed as nat,
            },
            SummaryLine::Success(name) => SummaryEntry::Success(name@),
            SummaryLine::FailuresHeader { passed, failed } => SummaryEntry::FailuresHeader {
                passed: passed as nat,
                failed: failed as nat,
            },
            SummaryLine::Failure(name) => SummaryEntry::Failure(name@),
            SummaryLine::Ignored(count) => SummaryEntry::Ignored(count as nat),
            SummaryLine::NothingExecuted => SummaryEntry::NothingExecuted,
        }
    }
}

/// The contents of a sequence of summary lines.
pub open spec fn entries(lines: Seq<SummaryLine>) -> Seq<SummaryEntry> {
    lines.map_values(|line: SummaryLine| line@)
}

/// What a run has produced so far: how many instances were skipped by the
/// filter, and the names of those that passed and failed, in execution order.
#[derive(Debug, PartialEq, Eq)]
pub struct RunConfigResult {
    pub ignored: u32,
    pub successes: Vec<String>,
    pub failures: Vec<String>,
}

impl View for RunConfigResult {
    type V = Tally;

    open spec fn view(&self) -> Tally {
        Tally {
            ignored: self.ignored as nat,
            successes: texts(self.successes@),
            failures: texts(self.failures@),
        }
    }
}

impl Default for RunConfigResult {
    fn default() -> (result: RunConfigResult)
        ensures
            result@ == Tally::zero(),
    {
        let result = RunConfigResult { ignored: 0, successes: Vec::new(), failures: Vec::new() };
        assert(result@.failures =~= Seq::empty());
        result
    }
}

impl RunConfigResult {
    /// Appends `other` to `self`: the ignored counts add up and `other`'s
    /// names follow those already recorded.
    pub fn merge(&mut self, other: RunConfigResult)
        requires
            old(self).ignored + other.ignored <= u32::MAX,
        ensures
            final(self)@ == old(self)@.merge(other@),
    {
        let mut other = other;
        let ghost before = *self;
        let ghost added = other;
        self.ignored = self.ignored + other.ignored;
        self.successes.append(&mut other.successes);
        self.failures.append(&mut other.failures);
        assert(self@.successes =~= before@.successes + added@.successes);
        assert(self@.failures =~= before@.failures + added@.failures);
    }

    /// Counts one more instance that the filter left out.
    pub fn record_ignored(&mut self)
        requires
            old(self).ignored < u32::MAX,
        ensures
            final(self)@ == old(self)@.with_ignored(),
    {
        self.ignored = self.ignored + 1;
    }

    /// Records that the instance called `name` passed.
    pub fn record_success(&mut self, name: String)
        ensures
            final(self)@ == old(self)@.with_success(name@),
    {
        let ghost before = *self;
        self.successes.push(name);
        assert(self@.successes =~= before@.successes.push(name@));
    }

    /// Records that the instance called `name` failed.
    pub fn record_failure(&mut self, name: String)
        ensures
            final(self)@ == old(self)@.with_failure(name@),
    {
        let ghost before = *self;
        self.failures.push(name);
        assert(self@.failures =~= before@.failures.push(name@));
    }

    /// The lines of the summary, in the order in which they are shown.
    pub fn summary(&self) -> (lines: Vec<SummaryLine>)
        ensures
            entries(lines@) == self@.summary(),
    {
        let passed = self.successes.len();
        let failed = self.failures.len();
        let mut lines: Vec<SummaryLine> = Vec::new();
        let ghost tally = self@;
        if passed > 0 {
            lines.push(SummaryLine::SuccessesHeader { passed, failed });
            let mut i: usize = 0;
            while i < passed
                invariant
                    i <= passed,
                    passed == self.successes.len(),
                    tally == self@,
                    entries(lines@) =~= seq![
                        SummaryEntry::SuccessesHeader { passed: passed as nat, failed: failed as nat },
                    ] + tally.successes.subrange(0, i as int).map_values(
                        |name: Seq<char>| SummaryEntry::Success(name),
                    ),
                decreases passed - i,
            {
                let ghost shown = entries(lines@);
                let name = self.successes[i].clone();
                lines.push(SummaryLine::Success(name));
                assert(entries(lines@) =~= shown.push(SummaryEntry::Success(tally.successes[i as int])));
                i = i + 1;
            }
        }
        let ghost first = entries(lines@);
        if failed > 0 {
            lines.push(SummaryLine::FailuresHeader { passed, failed });
            let mut i: usize = 0;
            while i < failed
                invariant
                    i <= failed,
                    failed == self.failures.len(),
                    tally == self@,
                    entries(lines@) =~= first + seq![
                        SummaryEntry::FailuresHeader { passed: passed as nat, failed: failed as nat },
                    ] + tally.failures.subrange(0, i as int).map_values(
                        |name: Seq<char>| SummaryEntry::Failure(name),
                    ),
                decreases failed - i,
            {
                let ghost shown = entries(lines@);
                let name = self.failures[i].clone();
                lines.push(SummaryLine::Failure(name));
                assert(entries(lines@) =~= shown.push(SummaryEntry::Failure(tally.failures[i as int])));
                i = i + 1;
            }
        }
        let ghost second = entries(lines@);
        lines.push(SummaryLine::Ignored(self.ignored));
        assert(entries(lines@) =~= second.push(SummaryEntry::Ignored(tally.ignored)));
        let ghost third = entries(lines@);
        if passed == 0 && failed == 0 {
            lines.push(SummaryLine::NothingExecuted);
            assert(entries(lines@) =~= third.push(SummaryEntry::NothingExecuted));
        }
        assert(entries(lines@) =~= self@.summary());
        lines
    }

    /// Whether the run passed: something was executed and nothing failed.
    pub fn is_success(&self) -> (passed: bool)
        ensures
            passed == self@.is_success(),
    {
        self.failures.is_empty() && !self.successes.is_empty()
    }
}

/// Merging is associative: it does not matter how nested runs are grouped.
pub proof fn lemma_merge_associative(a: Tally, b: Tally, c: Tally)
    ensures
        a.merge(b).merge(c) == a.merge(b.merge(c)),
{
    assert(a.merge(b).merge(c).successes =~= a.merge(b.merge(c)).successes);
    assert(a.merge(b).merge(c).failures =~= a.merge(b.merge(c)).failures);
}

/// Merging with an empty tally, on either side, changes nothing, and so
/// leaves the verdict as it was.
pub proof fn lemma_merge_zero(r: Tally)
    ensures
        r.merge(Tally::zero()) == r,
        Tally::zero().merge(r) == r,
        r.merge(Tally::zero()).is_success() == r.is_success(),
        Tally::zero().merge(r).is_success() == r.is_success(),
{
}

/// A run in which nothing was executed is no success, however many instances
/// were ignored.
pub proof fn lemma_nothing_executed_fails(r: Tally)
    requires
        r.executed() == 0,
    ensures
        !r.is_success(),
{
}

} // verus!
