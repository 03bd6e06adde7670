//! The list of sources, and its division into runs that are read alike.

use crate::manifest::texts;
use crate::text::{is_white_space, white_space};
use itertools::Itertools;
use vstd::prelude::*;

verus! {

broadcast use vstd::string::group_string_axioms;

/// The name stands for standard input: it is `-`, with nothing around it but
/// white space.
pub open spec fn marks_stdin(name: Seq<char>) -> bool {
    exists|i: int|
        0 <= i < name.len() && #[trigger] name[i] == '-' && forall|j: int|
            0 <= j < name.len() && j != i ==> white_space(#[trigger] name[j])
}

/// A run of neighbouring sources of one kind, as mathematical values.
pub struct RunModel {
    /// The sources are standard input, each of them; else each is a file.
    pub stdin: bool,
    /// Their names, in order.
    pub names: Seq<Seq<char>>,
}

/// A run of neighbouring sources of one kind.
#[derive(Debug, PartialEq, Eq)]
pub struct Run {
    /// The sources are standard input, each of them; else each is a file.
    pub stdin: bool,
    /// Their names, in order.
    pub names: Vec<String>,
}

impl View for Run {
    type V = RunModel;

    open spec fn view(&self) -> RunModel {
        RunModel { stdin: self.stdin, names: texts(self.names@) }
    }
}

/// The models of some runs, in order.
pub open spec fn models(runs: Seq<Run>) -> Seq<RunModel> {
    runs.map_values(|run: Run| run@)
}

/// The names of all runs, in order.
pub open spec fn joined(runs: Seq<RunModel>) -> Seq<Seq<char>> {
    runs.map_values(|run: RunModel| run.names).flatten()
}

/// `runs` divides `names` into its longest runs of one kind: the runs hold
/// the names in their order, none is empty, each holds only standard input or
/// only files, and neighbours differ in kind.
pub open spec fn divides(runs: Seq<RunModel>, names: Seq<Seq<char>>) -> bool {
    &&& joined(runs) == names
    &&& forall|r: int| 0 <= r < runs.len() ==> (#[trigger] runs[r]).names.len() > 0
    &&& forall|r: int, k: int|
        0 <= r < runs.len() && 0 <= k < runs[r].names.len() ==> marks_stdin(
            #[trigger] runs[r].names[k],
        ) == runs[r].stdin
    &&& forall|r: int| 0 <= r < runs.len() - 1 ==> (#[trigger] runs[r]).stdin != runs[r + 1].stdin
}

/// The names of some runs and one more are the names of the runs, then those
/// of the one.
pub proof fn lemma_joined_push(runs: Seq<RunModel>, run: RunModel)
    ensures
        joined(runs.push(run)) == joined(runs) + run.names,
{
    let names = |run: RunModel| run.names;
    assert(runs.push(run).map_values(names) =~= runs.map_values(names).push(run.names));
    runs.map_values(names).lemma_flatten_push(run.names);
}

/// A list has one division into runs and no other.
pub proof fn law_division_unique(names: Seq<Seq<char>>, one: Seq<RunModel>, other: Seq<RunModel>)
    requires
        divides(one, names),
        divides(other, names),
    ensures
        one == other,
    decreases one.len(),
{
    if one.len() == 0 || other.len() == 0 {
        assert(Seq::<RunModel>::empty().map_values(|run: RunModel| run.names) =~= Seq::<
            Seq<Seq<char>>,
        >::empty());
        if one.len() > 0 {
            assert(one.drop_last().push(one.last()) =~= one);
            lemma_joined_push(one.drop_last(), one.last());
            assert(one.last().names.len() > 0);
        }
        if other.len() > 0 {
            assert(other.drop_last().push(other.last()) =~= other);
            lemma_joined_push(other.drop_last(), other.last());
            assert(other.last().names.len() > 0);
        }
        assert(one =~= other);
    } else {
        let a = one.last();
        let b = other.last();
        let front_a = one.drop_last();
        let front_b = other.drop_last();
        assert(front_a.push(a) =~= one);
        assert(front_b.push(b) =~= other);
        lemma_joined_push(front_a, a);
        lemma_joined_push(front_b, b);
        assert(a.names.len() > 0 && b.names.len() > 0);
        assert(a.names.last() == names.last());
        assert(b.names.last() == names.last());
        assert(marks_stdin(a.names[a.names.len() - 1]) == a.stdin);
        assert(marks_stdin(b.names[b.names.len() - 1]) == b.stdin);
        lemma_last_of_front(names, one, other);
        lemma_last_of_front(names, other, one);
        assert(a.names =~= names.subrange(names.len() - a.names.len(), names.len() as int));
        assert(b.names =~= names.subrange(names.len() - b.names.len(), names.len() as int));
        let rest = names.take(names.len() - a.names.len());
        assert(joined(front_a) =~= rest);
        assert(joined(front_b) =~= rest);
        assert(divides(front_a, rest)) by {
            assert forall|r: int| 0 <= r < front_a.len() implies (#[trigger] front_a[r]) == one[r] by {}
        }
        assert(divides(front_b, rest)) by {
            assert forall|r: int| 0 <= r < front_b.len() implies (#[trigger] front_b[r])
                == other[r] by {}
        }
        law_division_unique(rest, front_a, front_b);
    }
}

/// The last run of one division is no shorter than that of another: else the
/// name before it would be of both kinds.
proof fn lemma_last_of_front(names: Seq<Seq<char>>, short: Seq<RunModel>, long: Seq<RunModel>)
    requires
        divides(short, names),
        divides(long, names),
        short.len() > 0,
        long.len() > 0,
        short.last().stdin == long.last().stdin,
    ensures
        short.last().names.len() >= long.last().names.len(),
{
    let a = short.last();
    let b = long.last();
    let front = short.drop_last();
    if a.names.len() >= b.names.len() {
        return ;
    }
    assert(front.push(a) =~= short);
    assert(long.drop_last().push(b) =~= long);
    lemma_joined_push(front, a);
    lemma_joined_push(long.drop_last(), b);
    let at = names.len() - a.names.len() - 1;
    assert(joined(front).len() == names.len() - a.names.len());
    assert(names[at] == b.names[b.names.len() - a.names.len() - 1]);
    assert(marks_stdin(b.names[b.names.len() - a.names.len() - 1]) == b.stdin);
    if front.len() == 0 {
        assert(front.map_values(|run: RunModel| run.names) =~= Seq::<Seq<Seq<char>>>::empty());
    } else {
        let c = front.last();
        assert(front.drop_last().push(c) =~= front);
        lemma_joined_push(front.drop_last(), c);
        assert(c == short[short.len() - 2]);
        assert(c.names.len() > 0);
        assert(joined(front).last() == c.names.last());
        assert(names[at] == joined(front).last());
        assert(marks_stdin(c.names[c.names.len() - 1]) == c.stdin);
        assert(short[short.len() - 2].stdin != short[short.len() - 2 + 1].stdin);
    }
}

/// Whether `name` stands for standard input.
pub fn is_stdin(name: &str) -> (b: bool)
    ensures
        b == marks_stdin(name@),
{
    let mut dash = false;
    let mut other = false;
    let ghost mut at_dash: int = 0;
    let ghost mut at_first: int = 0;
    let ghost mut at_second: int = 0;
    for c in it: name.chars()
        invariant
            it.seq() == name@,
            !dash && !other ==> forall|j: int| 0 <= j < it.index() ==> white_space(name@[j]),
            dash && !other ==> 0 <= at_dash < it.index() && name@[at_dash] == '-' && forall|j: int|
                0 <= j < it.index() && j != at_dash ==> white_space(name@[j]),
            other ==> 0 <= at_first <= at_second < it.index() && !white_space(name@[at_first])
                && !white_space(name@[at_second]) && (at_first == at_second ==> name@[at_first]
                != '-'),
    {
        if c == '-' {
            if dash {
                proof {
                    if !other {
                        at_first = at_dash;
                        at_second = it.index() as int;
                    }
                }
                other = true;
            } else {
                proof {
                    at_dash = it.index() as int;
                }
                dash = true;
            }
        } else if !is_white_space(c) {
            proof {
                if !other {
                    at_first = it.index() as int;
                    at_second = it.index() as int;
                }
            }
            other = true;
        }
    }
    proof {
        if dash && !other {
            assert(name@[at_dash] == '-');
        }
        if other {
            assert(!white_space(name@[at_first]));
            assert(!white_space(name@[at_second]));
        }
    }
    dash && !other
}

/// Groups neighbouring names of one kind with `Itertools::group_by` of the
/// crate `itertools`, the kind of a name being what `is_stdin` says of it.
/// Neighbours that map to the same key form one group, so the groups are the
/// longest runs of one kind, in the order of the names.
#[verifier::external_body]
fn grouped(names: &Vec<String>) -> (runs: Vec<Run>)
    ensures
        divides(models(runs@), texts(names@)),
{
    let groups = names.iter().group_by(|name| is_stdin(name.as_str()));
    groups.into_iter().map(|(stdin, group)| Run { stdin, names: group.cloned().collect() }).collect()
}

/// Divides the list of sources into its runs: standard input is read in
/// turn, one occurrence after the other, and files may be read side by side.
pub fn classify(names: &Vec<String>) -> (runs: Vec<Run>)
    ensures
        divides(models(runs@), texts(names@)),
{
    grouped(names)
}

/// The sources to read: those named, or standard input where none is.
pub fn sources_or_stdin(names: Vec<String>) -> (sources: Vec<String>)
    ensures
        names@.len() > 0 ==> sources == names,
        names@.len() == 0 ==> texts(sources@) == seq!["-"@],
{
    if names.len() == 0 {
        let mut sources = names;
        sources.push("-".to_owned());
        proof {
            assert(texts(sources@) =~= seq!["-"@]);
        }
        sources
    } else {
        names
    }
}

} // verus!
