//! The order of work over a list of sources: standard input in turn, files
//! run by run, every result folded into one total.

use crate::counts::{total, Counts, Totals};
use crate::manifest::texts;
use crate::sources::{classify, divides, joined, marks_stdin, models, sources_or_stdin, Run, RunModel};
use vstd::prelude::*;
use vstd::seq_lib::{commutative_foldl, lemma_fold_left_permutation};

verus! {

/// How reading one source ended.
#[derive(Clone, Copy, Debug, PartialEq, Eq, Structural)]
pub enum Outcome {
    /// It was read, with these counts.
    Counted(Counts),
    /// It could not be opened or read, or was no text.
    Failed,
}

/// What is done about the outcome of one source.
#[derive(Clone, Copy, Debug, PartialEq, Eq, Structural)]
pub enum Verdict {
    /// Report its counts and add them to the total.
    Report,
    /// Report the failure and go on; the source adds nothing.
    Skip,
    /// Give up the whole run: standard input failed.
    Abort,
}

/// What is done about an outcome: counts are reported; a file that failed is
/// skipped; standard input that failed ends everything.
pub open spec fn verdict_of(stdin: bool, outcome: Outcome) -> Verdict {
    match outcome {
        Outcome::Counted(_) => Verdict::Report,
        Outcome::Failed => if stdin {
            Verdict::Abort
        } else {
            Verdict::Skip
        },
    }
}

/// A total after one more outcome: its counts merged in, or nothing where the
/// source failed.
pub open spec fn absorbed(sum: Totals, outcome: Outcome) -> Totals {
    match outcome {
        Outcome::Counted(counts) => sum.merge(counts@),
        Outcome::Failed => sum,
    }
}

/// The total that one worker folds its outcomes into, from first to last.
pub open spec fn folded(outcomes: Seq<Outcome>) -> Totals {
    outcomes.fold_left(Totals::zero(), |sum: Totals, outcome: Outcome| absorbed(sum, outcome))
}

/// The total of each worker, in the order of the workers.
pub open spec fn worker_totals(shares: Seq<Seq<Outcome>>) -> Seq<Totals> {
    shares.map_values(|share: Seq<Outcome>| folded(share))
}

/// Decides what is done about the outcome of one source.
pub fn judge(stdin: bool, outcome: &Outcome) -> (verdict: Verdict)
    ensures
        verdict == verdict_of(stdin, *outcome),
{
    match outcome {
        Outcome::Counted(_) => Verdict::Report,
        Outcome::Failed => if stdin {
            Verdict::Abort
        } else {
            Verdict::Skip
        },
    }
}

/// Whether an outcome can be folded into `sum` with every count still in its
/// machine type.
pub fn can_absorb(sum: &Counts, outcome: &Outcome) -> (b: bool)
    ensures
        b == absorbed(sum@, *outcome).fits(),
{
    match outcome {
        Outcome::Counted(counts) => sum.can_merge(counts),
        Outcome::Failed => true,
    }
}

/// Folds one outcome into a worker's total.
pub fn absorb(sum: Counts, outcome: &Outcome) -> (after: Counts)
    requires
        absorbed(sum@, *outcome).fits(),
    ensures
        after@ == absorbed(sum@, *outcome),
{
    let mut after = sum;
    match outcome {
        Outcome::Counted(counts) => {
            after.merge_with(counts);
        },
        Outcome::Failed => {},
    }
    after
}

/// The merge of two totals, as the step that reduces the workers' totals to
/// one.
pub fn merged(one: Counts, other: Counts) -> (both: Counts)
    requires
        one@.merge(other@).fits(),
    ensures
        both@ == one@.merge(other@),
{
    let mut both = one;
    both.merge_with(&other);
    both
}

/// Outcomes folded one after the other give the merge of what each part of
/// them folds into.
pub proof fn law_folded_concat(front: Seq<Outcome>, back: Seq<Outcome>)
    ensures
        folded(front + back) == folded(front).merge(folded(back)),
    decreases back.len(),
{
    if back.len() == 0 {
        assert(front + back =~= front);
    } else {
        law_folded_concat(front, back.drop_last());
        assert((front + back).drop_last() =~= front + back.drop_last());
        assert((front + back).last() == back.last());
    }
}

/// However the sources of a run are shared out among workers, the workers'
/// totals reduce to what one worker would fold all outcomes into: the total
/// of a run does not depend on how its work was divided.
pub proof fn law_workers_agree(shares: Seq<Seq<Outcome>>)
    ensures
        total(worker_totals(shares)) == folded(shares.flatten()),
    decreases shares.len(),
{
    if shares.len() == 0 {
        assert(worker_totals(shares) =~= Seq::<Totals>::empty());
    } else {
        let init = shares.drop_last();
        law_workers_agree(init);
        assert(worker_totals(shares).drop_last() =~= worker_totals(init));
        init.lemma_flatten_push(shares.last());
        assert(init.push(shares.last()) =~= shares);
        law_folded_concat(init.flatten(), shares.last());
    }
}

/// A way to divide the sources of a run among workers: a share that one
/// worker folds from first to last, or a split into two parts that are worked
/// on apart, their totals merged afterwards.
pub enum Division {
    /// The outcomes of the sources that one worker takes, in order.
    Share(Seq<Outcome>),
    /// Two parts, the first before the second.
    Split(Box<Division>, Box<Division>),
}

impl Division {
    /// The outcomes of all sources, in the order of the run.
    pub open spec fn outcomes(self) -> Seq<Outcome>
        decreases self,
    {
        match self {
            Division::Share(share) => share,
            Division::Split(first, second) => first.outcomes() + second.outcomes(),
        }
    }

    /// The total that the division comes to.
    pub open spec fn reduced(self) -> Totals
        decreases self,
    {
        match self {
            Division::Share(share) => folded(share),
            Division::Split(first, second) => first.reduced().merge(second.reduced()),
        }
    }
}

/// However often and wherever a run is split, down to shares of one source
/// or of none, it comes to the total that one worker would fold all its
/// outcomes into.
pub proof fn law_any_division(division: Division)
    ensures
        division.reduced() == folded(division.outcomes()),
    decreases division,
{
    match division {
        Division::Share(_) => {},
        Division::Split(first, second) => {
            law_any_division(*first);
            law_any_division(*second);
            law_folded_concat(first.outcomes(), second.outcomes());
        },
    }
}

/// The total of a run does not depend on the order in which the outcomes of
/// its sources arrive.
pub proof fn law_folded_any_order(one: Seq<Outcome>, other: Seq<Outcome>)
    requires
        one.to_multiset() == other.to_multiset(),
    ensures
        folded(one) == folded(other),
{
    let f = |sum: Totals, outcome: Outcome| absorbed(sum, outcome);
    assert(commutative_foldl(f));
    lemma_fold_left_permutation(one, other, f, Totals::zero());
}

/// Two sources that were both counted fold into the merge of their counts,
/// whichever outcome arrives first.
pub proof fn law_two_sources(a: Counts, b: Counts)
    ensures
        folded(seq![Outcome::Counted(a), Outcome::Counted(b)]) == a@.merge(b@),
        folded(seq![Outcome::Counted(b), Outcome::Counted(a)]) == a@.merge(b@),
        total(seq![folded(seq![Outcome::Counted(a)]), folded(seq![Outcome::Counted(b)])])
            == a@.merge(b@),
{
    let one = seq![Outcome::Counted(a)];
    let other = seq![Outcome::Counted(b)];
    let f = |sum: Totals, outcome: Outcome| absorbed(sum, outcome);
    assert(one.drop_last() =~= Seq::<Outcome>::empty());
    assert(other.drop_last() =~= Seq::<Outcome>::empty());
    assert(one.drop_last().fold_left(Totals::zero(), f) == Totals::zero());
    assert(other.drop_last().fold_left(Totals::zero(), f) == Totals::zero());
    assert(one.last() == Outcome::Counted(a));
    assert(other.last() == Outcome::Counted(b));
    assert(folded(one) == a@);
    assert(folded(other) == b@);
    law_folded_concat(one, other);
    law_folded_concat(other, one);
    assert(one + other =~= seq![Outcome::Counted(a), Outcome::Counted(b)]);
    assert(other + one =~= seq![Outcome::Counted(b), Outcome::Counted(a)]);
    crate::counts::law_total_of_two(a@, b@);
}

/// What is to be done next, as mathematical values.
pub enum StepModel {
    /// Read standard input once, here and now, before anything else.
    Stdin,
    /// Read these files, side by side where that helps.
    Files(Seq<Seq<char>>),
    /// Report the total, where there is one to report, and end.
    Finish(Option<Totals>),
    /// End without a total: standard input failed.
    Stop,
}

/// How far the work has come, as mathematical values.
pub struct Progress {
    /// The runs of the source list.
    pub runs: Seq<RunModel>,
    /// The run at work; the number of runs once all are done.
    pub run: int,
    /// How many sources of the run at work are done.
    pub within: int,
    /// The total so far.
    pub total: Totals,
    /// Standard input failed.
    pub failed: bool,
}

impl Progress {
    /// The state is sound: the runs are the longest runs of one kind of some
    /// list, and the place in them exists.
    pub open spec fn wf(self) -> bool {
        &&& divides(self.runs, joined(self.runs))
        &&& 0 <= self.run <= self.runs.len()
        &&& if self.run < self.runs.len() && self.runs[self.run].stdin {
            0 <= self.within < self.runs[self.run].names.len()
        } else {
            self.within == 0
        }
    }

    /// The sources dealt with so far, in order.
    pub open spec fn done(self) -> Seq<Seq<char>> {
        if self.run < self.runs.len() {
            joined(self.runs.take(self.run)) + self.runs[self.run].names.take(self.within)
        } else {
            joined(self.runs)
        }
    }

    /// What is to be done next.
    pub open spec fn step(self) -> StepModel {
        if self.failed {
            StepModel::Stop
        } else if self.run >= self.runs.len() {
            StepModel::Finish(
                if joined(self.runs).len() > 1 {
                    Some(self.total)
                } else {
                    None
                },
            )
        } else if self.runs[self.run].stdin {
            StepModel::Stdin
        } else {
            StepModel::Files(self.runs[self.run].names)
        }
    }

    /// The state with the place moved behind one more source of the run at
    /// work.
    pub open spec fn moved(self) -> Progress {
        if self.within + 1 < self.runs[self.run].names.len() {
            Progress { within: self.within + 1, ..self }
        } else {
            Progress { run: self.run + 1, within: 0, ..self }
        }
    }

    /// The state after standard input was read once, with this outcome.
    pub open spec fn after_stdin(self, outcome: Outcome) -> Progress {
        match outcome {
            Outcome::Counted(counts) => Progress {
                total: self.total.merge(counts@),
                ..self.moved()
            },
            Outcome::Failed => Progress { failed: true, ..self },
        }
    }

    /// The state after the files of the run at work were read, with this
    /// total of the run.
    pub open spec fn after_files(self, run_total: Totals) -> Progress {
        Progress { run: self.run + 1, within: 0, total: self.total.merge(run_total), ..self }
    }
}

/// The names of the first runs and those of the next run are the names of
/// one run more.
pub proof fn lemma_joined_take(runs: Seq<RunModel>, upto: int)
    requires
        0 <= upto < runs.len(),
    ensures
        joined(runs.take(upto + 1)) == joined(runs.take(upto)) + runs[upto].names,
        joined(runs.take(runs.len() as int)) == joined(runs),
        joined(runs.take(0)) == Seq::<Seq<char>>::empty(),
{
    let names = |run: RunModel| run.names;
    assert(runs.take(upto + 1).map_values(names) =~= runs.take(upto).map_values(names).push(
        runs[upto].names,
    ));
    runs.take(upto).map_values(names).lemma_flatten_push(runs[upto].names);
    assert(runs.take(runs.len() as int) =~= runs);
    assert(runs.take(0).map_values(names) =~= Seq::<Seq<Seq<char>>>::empty());
}

/// Standard input is handed out alone, and only where the next source in the
/// list is standard input. The files handed out together are all files, none
/// of them standard input, and there is at least one.
pub proof fn law_step_kinds(state: Progress)
    requires
        state.wf(),
    ensures
        state.step() is Stdin ==> marks_stdin(state.runs[state.run].names[state.within]),
        state.step() matches StepModel::Files(names) ==> names.len() > 0 && forall|k: int|
            0 <= k < names.len() ==> !marks_stdin(#[trigger] names[k]),
{
    if state.step() is Stdin {
        assert(marks_stdin(state.runs[state.run].names[state.within]) == state.runs[state.run].stdin);
    }
    if let StepModel::Files(names) = state.step() {
        assert forall|k: int| 0 <= k < names.len() implies !marks_stdin(#[trigger] names[k]) by {
            assert(marks_stdin(state.runs[state.run].names[k]) == state.runs[state.run].stdin);
        }
    }
}

/// Every source is dealt with once, in the order of the list: standard input
/// that was read moves the place behind that one source, a run of files
/// behind all its files, and when the work is finished the place is behind the
/// last source. A sound state stays sound.
pub proof fn law_sources_in_order(state: Progress, counts: Counts, run_total: Totals)
    requires
        state.wf(),
    ensures
        state.run == 0 && state.within == 0 ==> state.done() == Seq::<Seq<char>>::empty(),
        state.step() is Stdin ==> state.after_stdin(Outcome::Counted(counts)).wf()
            && state.after_stdin(Outcome::Counted(counts)).done() == state.done().push(
            state.runs[state.run].names[state.within],
        ),
        state.step() is Stdin ==> state.after_stdin(Outcome::Failed).wf() && state.after_stdin(
            Outcome::Failed,
        ).step() is Stop,
        state.step() matches StepModel::Files(names) ==> state.after_files(run_total).wf()
            && state.after_files(run_total).done() == state.done() + names,
        state.step() is Finish ==> state.done() == joined(state.runs),
{
    if state.run < state.runs.len() {
        lemma_joined_take(state.runs, state.run);
        let run = state.runs[state.run];
        assert(run.names.take(0) =~= Seq::<Seq<char>>::empty());
        assert(run.names.take(run.names.len() as int) =~= run.names);
        if state.step() is Stdin {
            let after = state.after_stdin(Outcome::Counted(counts));
            assert(run.names.take(state.within + 1) =~= run.names.take(state.within).push(
                run.names[state.within],
            ));
            if after.run < after.runs.len() {
                lemma_joined_take(after.runs, after.run);
            }
            assert(after.done() =~= state.done().push(run.names[state.within]));
        }
        if state.step() is Files {
            let after = state.after_files(run_total);
            if after.run < after.runs.len() {
                lemma_joined_take(after.runs, after.run);
            }
            assert(after.done() =~= state.done() + run.names);
        }
    }
}

/// What is to be done next.
#[derive(Clone, Copy, Debug, PartialEq, Eq)]
pub enum Step<'a> {
    /// Read standard input once, here and now, before anything else.
    Stdin,
    /// Read these files, side by side where that helps.
    Files(&'a Vec<String>),
    /// Report the total, where there is one to report, and end.
    Finish(Option<Counts>),
    /// End without a total: standard input failed.
    Stop,
}

impl<'a> View for Step<'a> {
    type V = StepModel;

    open spec fn view(&self) -> StepModel {
        match *self {
            Step::Stdin => StepModel::Stdin,
            Step::Files(names) => StepModel::Files(texts(names@)),
            Step::Finish(Some(counts)) => StepModel::Finish(Some(counts@)),
            Step::Finish(None) => StepModel::Finish(None),
            Step::Stop => StepModel::Stop,
        }
    }
}

/// The order of work over one list of sources, and the total so far.
///
/// A value is always sound: its runs are the longest runs of one kind of the
/// list it was started with, and its place lies in them.
pub struct Orchestrator {
    runs: Vec<Run>,
    run: usize,
    within: usize,
    total: Counts,
    sources: usize,
    failed: bool,
}

impl View for Orchestrator {
    type V = Progress;

    closed spec fn view(&self) -> Progress {
        Progress {
            runs: models(self.runs@),
            run: self.run as int,
            within: self.within as int,
            total: self.total@,
            failed: self.failed,
        }
    }
}

impl Orchestrator {
    #[verifier::type_invariant]
    spec fn sound(&self) -> bool {
        &&& self@.wf()
        &&& self.sources == joined(self@.runs).len()
    }

    /// Sets out the work for a list of sources; for standard input alone
    /// where the list is empty.
    pub fn start(names: Vec<String>) -> (work: Orchestrator)
        ensures
            work@.wf(),
            names@.len() > 0 ==> divides(work@.runs, texts(names@)),
            names@.len() == 0 ==> divides(work@.runs, seq!["-"@]),
            work@.run == 0,
            work@.within == 0,
            work@.total == Totals::zero(),
            !work@.failed,
    {
        let sources = sources_or_stdin(names);
        let runs = classify(&sources);
        proof {
            assert(texts(sources@).len() == sources@.len());
        }
        Orchestrator {
            runs,
            run: 0,
            within: 0,
            total: Counts::default(),
            sources: sources.len(),
            failed: false,
        }
    }

    /// What is to be done next.
    pub fn step(&self) -> (step: Step<'_>)
        ensures
            step@ == self@.step(),
            self@.wf(),
    {
        proof {
            use_type_invariant(self);
        }
        if self.failed {
            Step::Stop
        } else if self.run >= self.runs.len() {
            if self.sources > 1 {
                Step::Finish(Some(self.total))
            } else {
                Step::Finish(None)
            }
        } else if self.runs[self.run].stdin {
            Step::Stdin
        } else {
            Step::Files(&self.runs[self.run].names)
        }
    }

    /// The total so far.
    pub fn total(&self) -> (total: Counts)
        ensures
            total@ == self@.total,
    {
        self.total
    }

    /// Takes in the outcome of reading standard input once. It is taken only
    /// where standard input is what was to be read next and every count of
    /// the total stays in its machine type; where it is not taken, nothing
    /// changes.
    pub fn stdin_read(&mut self, outcome: &Outcome) -> (taken: bool)
        ensures
            taken == (old(self)@.step() is Stdin && absorbed(old(self)@.total, *outcome).fits()),
            taken ==> final(self)@ == old(self)@.after_stdin(*outcome),
            !taken ==> final(self)@ == old(self)@,
            final(self)@.wf(),
    {
        proof {
            use_type_invariant(&*self);
        }
        if self.failed || self.run >= self.runs.len() || !self.runs[self.run].stdin {
            return false;
        }
        proof {
            assert(self@.runs[self.run as int] == self.runs@[self.run as int]@);
        }
        let names: usize = self.runs[self.run].names.len();
        match outcome {
            Outcome::Failed => {
                self.failed = true;
                true
            },
            Outcome::Counted(counts) => {
                if !self.total.can_merge(counts) {
                    return false;
                }
                self.total = merged(self.total, *counts);
                if self.within + 1 < names {
                    self.within = self.within + 1;
                } else {
                    self.within = 0;
                    self.run = self.run + 1;
                }
                true
            },
        }
    }

    /// Takes in the total of the run of files at work. It is taken only where
    /// a run of files is what was to be read next and every count of the
    /// total stays in its machine type; where it is not taken, nothing
    /// changes.
    pub fn files_read(&mut self, run_total: &Counts) -> (taken: bool)
        ensures
            taken == (old(self)@.step() is Files && old(self)@.total.merge(run_total@).fits()),
            taken ==> final(self)@ == old(self)@.after_files(run_total@),
            !taken ==> final(self)@ == old(self)@,
            final(self)@.wf(),
    {
        proof {
            use_type_invariant(&*self);
        }
        if self.failed || self.run >= self.runs.len() || self.runs[self.run].stdin {
            return false;
        }
        if !self.total.can_merge(run_total) {
            return false;
        }
        self.total = merged(self.total, *run_total);
        self.run = self.run + 1;
        true
    }
}

} // verus!
