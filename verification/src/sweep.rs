//! A sweep over the damping parameters of a calculation: one task for each combination
//! of values, its input files, and what its output has to hold.

use crate::error::{WorkflowError, WorkflowErrorView};
use crate::path::DirPathView;
use crate::task::{text_pairs, CollectFailurePolicy, ExecutionMode, ExecutionModeView, Task, TaskView};
use crate::text::{chars_of, decimal, decimal_text, texts, Text};
use vstd::prelude::*;
use vstd::string::*;

verus! {

/// A value of a parameter, in the two notations in which it is used.
#[derive(Debug)]
pub struct ParamValue {
    /// Rounded, as it stands in the id of a task.
    pub short: String,
    /// With all its digits, as it stands in input files.
    pub full: String,
}

/// The content of a [`ParamValue`].
pub struct ParamValueView {
    pub short: Text,
    pub full: Text,
}

impl View for ParamValue {
    type V = ParamValueView;

    open spec fn view(&self) -> ParamValueView {
        ParamValueView { short: self.short@, full: self.full@ }
    }
}

/// The contents of a list of values.
pub open spec fn value_views(values: Seq<ParamValue>) -> Seq<ParamValueView> {
    values.map_values(|value: ParamValue| value@)
}

/// How the calculation of each combination is started.
#[derive(Debug)]
pub struct SweepConfig {
    /// Whether it is started here, and not handed to the queue.
    pub local: bool,
    /// The program that calculates.
    pub command: String,
    /// How many processes the program has.
    pub processes: u64,
    /// The name that input and output files begin with.
    pub seed: String,
}

/// The content of a [`SweepConfig`].
pub struct SweepConfigView {
    pub local: bool,
    pub command: Text,
    pub processes: u64,
    pub seed: Text,
}

impl View for SweepConfig {
    type V = SweepConfigView;

    open spec fn view(&self) -> SweepConfigView {
        SweepConfigView {
            local: self.local,
            command: self.command@,
            processes: self.processes,
            seed: self.seed@,
        }
    }
}

/// The task of a combination, with the values that its input files hold.
#[derive(Debug)]
pub struct SweepTask {
    pub task: Task,
    pub beta: String,
    pub gamma: String,
    pub spin_amp: String,
}

/// The content of a [`SweepTask`].
pub struct SweepTaskView {
    pub task: TaskView,
    pub beta: Text,
    pub gamma: Text,
    pub spin_amp: Text,
}

impl View for SweepTask {
    type V = SweepTaskView;

    open spec fn view(&self) -> SweepTaskView {
        SweepTaskView {
            task: self.task@,
            beta: self.beta@,
            gamma: self.gamma@,
            spin_amp: self.spin_amp@,
        }
    }
}

/// The contents of a list of tasks of combinations.
pub open spec fn sweep_views(tasks: Seq<SweepTask>) -> Seq<SweepTaskView> {
    tasks.map_values(|task: SweepTask| task@)
}

/// Whether a pattern stands in a text at a place.
pub open spec fn stands_at(text: Text, pattern: Text, i: int) -> bool {
    0 <= i && i + pattern.len() <= text.len() && text.subrange(i, i + pattern.len()) == pattern
}

/// A text with every occurrence of a pattern replaced, from the left.
pub open spec fn replaced(text: Text, pattern: Text, with: Text) -> Text
    decreases text.len(),
{
    if pattern.len() == 0 || text.len() < pattern.len() {
        text
    } else if stands_at(text, pattern, 0) {
        with + replaced(text.skip(pattern.len() as int), pattern, with)
    } else {
        text.take(1) + replaced(text.skip(1), pattern, with)
    }
}

/// The pieces of a text between separators.
pub open spec fn pieces(text: Text, separator: char) -> Seq<Text>
    decreases text.len(),
{
    if text.len() == 0 {
        seq![text]
    } else {
        let before = pieces(text.drop_last(), separator);
        if text.last() == separator {
            before.push(Seq::empty())
        } else {
            before.drop_last().push(before.last().push(text.last()))
        }
    }
}

/// The id of the task of a combination.
pub open spec fn task_id(
    beta: ParamValueView,
    gamma: ParamValueView,
    spin_amp: ParamValueView,
) -> Text {
    replaced(
        "beta"@ + beta.short + "_gamma"@ + gamma.short + "_spin"@ + spin_amp.short,
        "."@,
        "p"@,
    )
}

/// How the tasks of a sweep are executed.
pub open spec fn mode(config: SweepConfigView) -> ExecutionModeView {
    if config.local {
        ExecutionModeView::Direct {
            command: "mpirun"@,
            args: seq!["-np"@, decimal(config.processes as nat), config.command, config.seed],
            env: seq![("OMP_NUM_THREADS"@, "1"@)],
            timeout_nanos: None,
        }
    } else {
        ExecutionModeView::Queued
    }
}

/// The task of a combination.
pub open spec fn one_task(
    config: SweepConfigView,
    beta: ParamValueView,
    gamma: ParamValueView,
    spin_amp: ParamValueView,
) -> SweepTaskView {
    SweepTaskView {
        task: TaskView {
            id: task_id(beta, gamma, spin_amp),
            dependencies: Seq::empty(),
            mode: mode(config),
            workdir: DirPathView { text: "."@, absolute: false },
            setup: true,
            collect: true,
            monitors: Seq::empty(),
            collect_failure_policy: CollectFailurePolicy::FailTask,
        },
        beta: beta.full,
        gamma: gamma.full,
        spin_amp: spin_amp.full,
    }
}

/// The tasks of the combinations of a beta and a gamma with each spin amplitude.
pub open spec fn tasks_over_spins(
    config: SweepConfigView,
    beta: ParamValueView,
    gamma: ParamValueView,
    spin_amps: Seq<ParamValueView>,
) -> Seq<SweepTaskView> {
    spin_amps.map_values(|spin_amp: ParamValueView| one_task(config, beta, gamma, spin_amp))
}

/// The tasks of the combinations of a beta with each gamma, and so on.
pub open spec fn tasks_over_gammas(
    config: SweepConfigView,
    beta: ParamValueView,
    gammas: Seq<ParamValueView>,
    spin_amps: Seq<ParamValueView>,
) -> Seq<SweepTaskView>
    decreases gammas.len(),
{
    if gammas.len() == 0 {
        Seq::empty()
    } else {
        tasks_over_gammas(config, beta, gammas.drop_last(), spin_amps) + tasks_over_spins(
            config,
            beta,
            gammas.last(),
            spin_amps,
        )
    }
}

/// The tasks of all combinations: the spin amplitude changes first, then gamma, then
/// beta.
pub open spec fn all_tasks(
    config: SweepConfigView,
    betas: Seq<ParamValueView>,
    gammas: Seq<ParamValueView>,
    spin_amps: Seq<ParamValueView>,
) -> Seq<SweepTaskView>
    decreases betas.len(),
{
    if betas.len() == 0 {
        Seq::empty()
    } else {
        all_tasks(config, betas.drop_last(), gammas, spin_amps) + tasks_over_gammas(
            config,
            betas.last(),
            gammas,
            spin_amps,
        )
    }
}

/// The line of an input file that sets the damping parameters.
pub open spec fn devel_code(beta: Text, gamma: Text) -> Text {
    "devel_code: PROF:*:ENDPROF s4u=true s4u_beta="@ + beta + " s4u_gamma="@ + gamma
}

/// Where the task of a combination stands among those of a beta.
proof fn lemma_tasks_over_gammas(
    config: SweepConfigView,
    beta: ParamValueView,
    gammas: Seq<ParamValueView>,
    spin_amps: Seq<ParamValueView>,
    g: int,
    s: int,
)
    ensures
        tasks_over_gammas(config, beta, gammas, spin_amps).len() == gammas.len() * spin_amps.len(),
        0 <= g < gammas.len() && 0 <= s < spin_amps.len() ==> 0 <= g * spin_amps.len() + s
            < gammas.len() * spin_amps.len() && tasks_over_gammas(
            config,
            beta,
            gammas,
            spin_amps,
        )[g * spin_amps.len() + s] == one_task(config, beta, gammas[g], spin_amps[s]),
    decreases gammas.len(),
{
    let n = gammas.len() as int;
    let m = spin_amps.len() as int;
    if n == 0 {
        assert(n * m == 0) by (nonlinear_arith)
            requires
                n == 0,
        ;
    } else {
        let rest = gammas.drop_last();
        let before = tasks_over_gammas(config, beta, rest, spin_amps);
        let last = tasks_over_spins(config, beta, gammas.last(), spin_amps);
        lemma_tasks_over_gammas(config, beta, rest, spin_amps, g, s);
        assert((n - 1) * m + m == n * m) by (nonlinear_arith);
        if 0 <= g < n && 0 <= s < m {
            let wanted = one_task(config, beta, gammas[g], spin_amps[s]);
            if g < n - 1 {
                assert(rest[g] == gammas[g]);
                assert((before + last)[g * m + s] == before[g * m + s]);
            } else {
                assert(last[s] == wanted);
                assert((before + last)[before.len() + s] == wanted);
            }
            assert(0 <= g * m + s < n * m) by (nonlinear_arith)
                requires
                    0 <= g < n,
                    0 <= s < m,
            ;
        }
    }
}

/// A sweep has one task for each combination of values, as many as there are combinations:
/// that of the values with the indices `b`, `g` and `s` stands where counting through the
/// combinations comes to it, with the spin amplitude changing first, then gamma, then beta.
pub proof fn law_every_combination(
    config: SweepConfigView,
    betas: Seq<ParamValueView>,
    gammas: Seq<ParamValueView>,
    spin_amps: Seq<ParamValueView>,
    b: int,
    g: int,
    s: int,
)
    ensures
        all_tasks(config, betas, gammas, spin_amps).len() == betas.len() * (gammas.len()
            * spin_amps.len()),
        0 <= b < betas.len() && 0 <= g < gammas.len() && 0 <= s < spin_amps.len() ==> {
            let at = b * (gammas.len() * spin_amps.len()) + (g * spin_amps.len() + s);
            &&& 0 <= at < betas.len() * (gammas.len() * spin_amps.len())
            &&& all_tasks(config, betas, gammas, spin_amps)[at] == one_task(
                config,
                betas[b],
                gammas[g],
                spin_amps[s],
            )
            &&& all_tasks(config, betas, gammas, spin_amps).contains(
                one_task(config, betas[b], gammas[g], spin_amps[s]),
            )
        },
    decreases betas.len(),
{
    let n = betas.len() as int;
    let m = (gammas.len() * spin_amps.len()) as int;
    let k = g * spin_amps.len() + s;
    if n == 0 {
        assert(n * m == 0) by (nonlinear_arith)
            requires
                n == 0,
        ;
    } else {
        let rest = betas.drop_last();
        let before = all_tasks(config, rest, gammas, spin_amps);
        let last = tasks_over_gammas(config, betas.last(), gammas, spin_amps);
        law_every_combination(config, rest, gammas, spin_amps, b, g, s);
        lemma_tasks_over_gammas(config, betas.last(), gammas, spin_amps, g, s);
        assert((n - 1) * m + m == n * m) by (nonlinear_arith);
        if 0 <= b < n && 0 <= g < gammas.len() && 0 <= s < spin_amps.len() {
            let wanted = one_task(config, betas[b], gammas[g], spin_amps[s]);
            if b < n - 1 {
                assert(rest[b] == betas[b]);
                assert((before + last)[b * m + k] == before[b * m + k]);
            } else {
                assert(last[k] == wanted);
                assert((before + last)[before.len() + k] == wanted);
            }
            assert(0 <= b * m + k < n * m) by (nonlinear_arith)
                requires
                    0 <= b < n,
                    0 <= k < m,
            ;
            assert(all_tasks(config, betas, gammas, spin_amps)[b * m + k] == wanted);
        }
    }
}

/// Pieces joined by a text that stands between each two of them.
pub open spec fn joined(parts: Seq<Text>, glue: Text) -> Text
    decreases parts.len(),
{
    if parts.len() == 0 {
        Seq::empty()
    } else if parts.len() == 1 {
        parts[0]
    } else {
        joined(parts.drop_last(), glue) + glue + parts.last()
    }
}

/// Joining from the front.
proof fn lemma_joined_front(first: Text, parts: Seq<Text>, glue: Text)
    requires
        parts.len() >= 1,
    ensures
        joined(seq![first] + parts, glue) == first + glue + joined(parts, glue),
    decreases parts.len(),
{
    let all = seq![first] + parts;
    let init = all.drop_last();
    if parts.len() == 1 {
        assert(init =~= seq![first]);
        assert(joined(init, glue) == first);
        assert(joined(all, glue) =~= first + glue + joined(parts, glue));
    } else {
        let rest = parts.drop_last();
        assert(init =~= seq![first] + rest);
        lemma_joined_front(first, rest, glue);
        assert(joined(all, glue) =~= first + glue + joined(parts, glue));
    }
}

/// A longer first piece makes the whole longer by as much.
proof fn lemma_joined_longer(head: Text, parts: Seq<Text>, glue: Text)
    requires
        parts.len() >= 1,
    ensures
        joined(parts.update(0, head + parts[0]), glue) == head + joined(parts, glue),
    decreases parts.len(),
{
    let new = parts.update(0, head + parts[0]);
    if parts.len() == 1 {
    } else {
        lemma_joined_longer(head, parts.drop_last(), glue);
        assert(new.drop_last() =~= parts.drop_last().update(0, head + parts.drop_last()[0]));
        assert(joined(new, glue) =~= head + joined(parts, glue));
    }
}

/// The pieces of a list of values, joined by commas, are the list, and none of them holds a
/// comma.
pub proof fn law_pieces(text: Text, separator: char)
    ensures
        pieces(text, separator).len() >= 1,
        joined(pieces(text, separator), seq![separator]) == text,
        forall|i: int|
            0 <= i < pieces(text, separator).len() ==> !(#[trigger] pieces(
                text,
                separator,
            )[i]).contains(separator),
    decreases text.len(),
{
    let all = pieces(text, separator);
    let glue = seq![separator];
    if text.len() == 0 {
        assert(all =~= seq![text]);
    } else {
        let rest = text.drop_last();
        let before = pieces(rest, separator);
        law_pieces(rest, separator);
        assert(text =~= rest.push(text.last()));
        if text.last() == separator {
            assert(all.drop_last() =~= before);
            assert(joined(all, glue) =~= text);
            assert forall|i: int| 0 <= i < all.len() implies !(#[trigger] all[i]).contains(
                separator,
            ) by {
                if i < before.len() {
                    assert(all[i] == before[i]);
                }
            }
        } else {
            let longer = before.last().push(text.last());
            assert(all.drop_last() =~= before.drop_last());
            if before.len() == 1 {
                assert(all =~= seq![longer]);
                assert(joined(all, glue) =~= text);
            } else {
                assert(joined(before, glue) == joined(before.drop_last(), glue) + glue
                    + before.last());
                assert(joined(all, glue) == joined(before.drop_last(), glue) + glue + longer);
                assert(joined(all, glue) =~= text);
            }
            assert forall|i: int| 0 <= i < all.len() implies !(#[trigger] all[i]).contains(
                separator,
            ) by {
                if i < before.len() - 1 {
                    assert(all[i] == before[i]);
                } else {
                    assert(!before[before.len() - 1].contains(separator));
                    if longer.contains(separator) {
                        let k = choose|k: int| 0 <= k < longer.len() && longer[k] == separator;
                        assert(k < before.last().len());
                        assert(before.last()[k] == separator);
                    }
                }
            }
        }
    }
}

/// A pattern stands in a text at a place exactly where the text consists of as many
/// characters, the pattern, and a rest.
pub proof fn law_stands_at(text: Text, pattern: Text, i: int, before: Text, rest: Text)
    ensures
        stands_at(before + pattern + rest, pattern, before.len() as int),
        stands_at(text, pattern, i) ==> 0 <= i <= text.len() && text == text.take(i) + pattern
            + text.skip(i + pattern.len()),
{
    let whole = before + pattern + rest;
    let at = before.len() as int;
    assert(whole.subrange(at, at + pattern.len()) =~= pattern);
    if stands_at(text, pattern, i) {
        assert(text =~= text.take(i) + text.subrange(i, i + pattern.len()) + text.skip(
            i + pattern.len(),
        ));
    }
}

/// Whether a pattern ends for the first time at the end of a text with the pattern after it.
pub open spec fn is_before_first(part: Text, pattern: Text) -> bool {
    forall|j: int| 0 <= j < part.len() ==> !(#[trigger] stands_at(part + pattern, pattern, j))
}

/// Replacing goes by pieces: the text is pieces joined by the pattern, the result is the same
/// pieces joined by what replaces it, and each piece goes as far as the next occurrence of
/// the pattern, so that none is passed over.
pub proof fn law_replaced(text: Text, pattern: Text, with: Text) -> (parts: Seq<Text>)
    requires
        pattern.len() > 0,
    ensures
        parts.len() >= 1,
        text == joined(parts, pattern),
        replaced(text, pattern, with) == joined(parts, with),
        forall|i: int|
            0 <= i < parts.len() - 1 ==> is_before_first(#[trigger] parts[i], pattern),
        forall|j: int| !stands_at(parts.last(), pattern, j),
    decreases text.len(),
{
    if text.len() < pattern.len() {
        seq![text]
    } else if stands_at(text, pattern, 0) {
        let rest = text.skip(pattern.len() as int);
        let tail = law_replaced(rest, pattern, with);
        let parts = seq![Seq::<char>::empty()] + tail;
        lemma_joined_front(Seq::empty(), tail, pattern);
        lemma_joined_front(Seq::empty(), tail, with);
        assert(text =~= text.subrange(0, pattern.len() as int) + rest);
        assert(Seq::<char>::empty() + pattern + rest =~= pattern + rest);
        assert(Seq::<char>::empty() + with + joined(tail, with) =~= with + joined(tail, with));
        assert forall|i: int| 0 <= i < parts.len() - 1 implies is_before_first(
            #[trigger] parts[i],
            pattern,
        ) by {
            if i > 0 {
                assert(parts[i] == tail[i - 1]);
            }
        }
        assert(parts.last() == tail.last());
        parts
    } else {
        let head = text.take(1);
        let rest = text.skip(1);
        let tail = law_replaced(rest, pattern, with);
        let first = head + tail[0];
        let parts = tail.update(0, first);
        lemma_joined_longer(head, tail, pattern);
        lemma_joined_longer(head, tail, with);
        assert(text =~= head + rest);
        if parts.len() == 1 {
            assert(parts =~= seq![text]);
            assert(tail =~= seq![rest]);
            assert forall|j: int| !stands_at(parts.last(), pattern, j) by {
                if stands_at(text, pattern, j) && j > 0 {
                    assert(text.subrange(j, j + pattern.len()) =~= rest.subrange(
                        j - 1,
                        j - 1 + pattern.len(),
                    ));
                    assert(stands_at(rest, pattern, j - 1));
                }
                assert(tail.last() == rest);
            }
        } else {
            let after = parts.skip(1);
            assert(parts =~= seq![first] + after);
            lemma_joined_front(first, after, pattern);
            assert forall|i: int| 0 <= i < parts.len() - 1 implies is_before_first(
                #[trigger] parts[i],
                pattern,
            ) by {
                if i > 0 {
                    assert(parts[i] == tail[i]);
                } else {
                    assert(is_before_first(tail[0], pattern));
                    let whole = first + pattern;
                    let old_whole = tail[0] + pattern;
                    assert(whole =~= head + old_whole);
                    assert forall|j: int| 0 <= j < first.len() implies !(#[trigger] stands_at(
                        whole,
                        pattern,
                        j,
                    )) by {
                        if stands_at(whole, pattern, j) {
                            if j == 0 {
                                assert(text =~= whole + joined(after, pattern));
                                assert(whole.subrange(0, pattern.len() as int) =~= text.subrange(
                                    0,
                                    pattern.len() as int,
                                ));
                            } else {
                                assert(whole.subrange(j, j + pattern.len())
                                    =~= old_whole.subrange(j - 1, j - 1 + pattern.len()));
                                assert(stands_at(old_whole, pattern, j - 1));
                            }
                        }
                    }
                }
            }
            assert(parts.last() == tail.last());
        }
        parts
    }
}

/// Replacing points by the letter p changes every point and nothing else.
proof fn lemma_points(text: Text)
    ensures
        replaced(text, "."@, "p"@).len() == text.len(),
        forall|i: int|
            0 <= i < text.len() ==> #[trigger] replaced(text, "."@, "p"@)[i] == (if text[i] == '.' {
                'p'
            } else {
                text[i]
            }),
    decreases text.len(),
{
    reveal_strlit(".");
    reveal_strlit("p");
    let out = replaced(text, "."@, "p"@);
    if text.len() > 0 {
        let rest = text.skip(1);
        lemma_points(rest);
        if text[0] == '.' {
            assert(text.subrange(0, 1) =~= "."@);
        } else {
            assert(text.subrange(0, 1)[0] == text[0]);
        }
        assert forall|i: int| 0 <= i < text.len() implies #[trigger] out[i] == (if text[i] == '.' {
            'p'
        } else {
            text[i]
        }) by {
            if i > 0 {
                assert(out[i] == replaced(rest, "."@, "p"@)[i - 1]);
                assert(rest[i - 1] == text[i]);
            }
        }
    }
}

/// The task of a combination: its id names the three rounded values, with the letter p for
/// each point, and keeps every other character; it has the values with all their digits; it
/// has both steps and depends on nothing. A local one runs the program with its processes
/// and its seed under `mpirun`, with one thread each, and any other is for the queue.
pub proof fn law_one_task(
    config: SweepConfigView,
    beta: ParamValueView,
    gamma: ParamValueView,
    spin_amp: ParamValueView,
)
    ensures
        ({
            let point = one_task(config, beta, gamma, spin_amp);
            let name = "beta"@ + beta.short + "_gamma"@ + gamma.short + "_spin"@ + spin_amp.short;
            &&& point.task.id.len() == name.len()
            &&& forall|i: int|
                0 <= i < name.len() ==> #[trigger] point.task.id[i] == (if name[i] == '.' {
                    'p'
                } else {
                    name[i]
                })
            &&& point.beta == beta.full
            &&& point.gamma == gamma.full
            &&& point.spin_amp == spin_amp.full
            &&& point.task.setup && point.task.collect
            &&& point.task.dependencies.len() == 0
            &&& point.task.monitors.len() == 0
            &&& point.task.collect_failure_policy == CollectFailurePolicy::FailTask
            &&& config.local ==> point.task.mode == (ExecutionModeView::Direct {
                command: "mpirun"@,
                args: seq![
                    "-np"@,
                    decimal(config.processes as nat),
                    config.command,
                    config.seed,
                ],
                env: seq![("OMP_NUM_THREADS"@, "1"@)],
                timeout_nanos: None,
            })
            &&& !config.local ==> point.task.mode is Queued
        }),
{
    let name = "beta"@ + beta.short + "_gamma"@ + gamma.short + "_spin"@ + spin_amp.short;
    lemma_points(name);
}

/// The line that sets the damping parameters holds both values whole, so that different
/// values give different lines.
pub proof fn law_devel_code(beta: Text, gamma: Text, other_beta: Text, other_gamma: Text)
    ensures
        devel_code(beta, gamma) == "devel_code: PROF:*:ENDPROF s4u=true s4u_beta="@ + beta
            + " s4u_gamma="@ + gamma,
        devel_code(beta, gamma) == devel_code(beta, other_gamma) ==> gamma == other_gamma,
        devel_code(beta, gamma) == devel_code(other_beta, gamma) ==> beta == other_beta,
{
    let head = "devel_code: PROF:*:ENDPROF s4u=true s4u_beta="@;
    let middle = " s4u_gamma="@;
    let line = devel_code(beta, gamma);
    let start = (head.len() + beta.len() + middle.len()) as int;
    assert(line.len() == start + gamma.len());
    if line == devel_code(beta, other_gamma) {
        let other = devel_code(beta, other_gamma);
        assert(other.len() == start + other_gamma.len());
        assert(gamma =~= line.skip(start));
        assert(other_gamma =~= other.skip(start));
    }
    if line == devel_code(other_beta, gamma) {
        let other = devel_code(other_beta, gamma);
        assert(other.len() == head.len() + other_beta.len() + middle.len() + gamma.len());
        let at = head.len() as int;
        assert(beta =~= line.subrange(at, at + beta.len()));
        assert(other_beta =~= other.subrange(at, at + other_beta.len()));
    }
}

/// Whether a pattern stands in a text at a place.
fn is_at(text: &Vec<char>, pattern: &Vec<char>, i: usize) -> (r: bool)
    requires
        i <= text.len(),
    ensures
        r == stands_at(text@, pattern@, i as int),
{
    if text.len() - i < pattern.len() {
        return false;
    }
    let ghost part = text@.subrange(i as int, i + pattern.len());
    let mut j: usize = 0;
    while j < pattern.len()
        invariant
            j <= pattern.len(),
            i + pattern.len() <= text.len(),
            part == text@.subrange(i as int, i + pattern.len()),
            forall|k: int| 0 <= k < j ==> part[k] == pattern[k],
        decreases pattern.len() - j,
    {
        if text[i + j] != pattern[j] {
            assert(part[j as int] != pattern@[j as int]);
            return false;
        }
        j = j + 1;
    }
    assert(part =~= pattern@);
    true
}

/// Replaces every occurrence of a pattern, from the left.
pub fn replace_text(text: &str, pattern: &str, with: &str) -> (r: String)
    requires
        pattern@.len() > 0,
    ensures
        r@ == replaced(text@, pattern@, with@),
{
    let chars = chars_of(text);
    let pattern_chars = chars_of(pattern);
    let len = chars.len();
    let pattern_len = pattern_chars.len();
    let mut r = String::new();
    let mut i: usize = 0;
    assert(text@.skip(0) =~= text@);
    assert(r@ + replaced(text@.skip(0), pattern@, with@) =~= replaced(text@, pattern@, with@));
    while i < len && len - i >= pattern_len
        invariant
            i <= len,
            len == text@.len(),
            chars@ == text@,
            pattern_chars@ == pattern@,
            pattern_len == pattern@.len(),
            pattern_len > 0,
            r@ + replaced(text@.skip(i as int), pattern@, with@) == replaced(
                text@,
                pattern@,
                with@,
            ),
        decreases len - i,
    {
        let ghost rest = text@.skip(i as int);
        let ghost before = r@;
        assert(rest.subrange(0, pattern_len as int) =~= text@.subrange(
            i as int,
            i + pattern_len,
        ));
        if is_at(&chars, &pattern_chars, i) {
            r.append(with);
            i = i + pattern_len;
            proof {
                assert(rest.skip(pattern_len as int) =~= text@.skip(i as int));
                assert(before + (with@ + replaced(text@.skip(i as int), pattern@, with@)) =~= r@
                    + replaced(text@.skip(i as int), pattern@, with@));
            }
        } else {
            r.append(text.substring_char(i, i + 1));
            i = i + 1;
            proof {
                assert(rest.take(1) =~= text@.subrange(i - 1, i as int));
                assert(rest.skip(1) =~= text@.skip(i as int));
                assert(before + (rest.take(1) + replaced(text@.skip(i as int), pattern@, with@))
                    =~= r@ + replaced(text@.skip(i as int), pattern@, with@));
            }
        }
    }
    r.append(text.substring_char(i, len));
    assert(text@.skip(i as int) =~= text@.subrange(i as int, len as int));
    r
}

/// Splits a list of values at its commas.
pub fn split_values(list: &str) -> (r: Vec<String>)
    ensures
        texts(r@) == pieces(list@, ','),
        r.len() >= 1,
{
    let len = list.unicode_len();
    let mut r: Vec<String> = Vec::new();
    let mut start: usize = 0;
    let mut i: usize = 0;
    proof {
        assert(list@.take(0) =~= Seq::<char>::empty());
        assert(pieces(list@.take(0), ',') =~= texts(r@).push(list@.subrange(0, 0)));
    }
    while i < len
        invariant
            start <= i <= len,
            len == list@.len(),
            pieces(list@.take(i as int), ',') == texts(r@).push(
                list@.subrange(start as int, i as int),
            ),
        decreases len - i,
    {
        let ghost before = texts(r@);
        let ghost piece = list@.subrange(start as int, i as int);
        proof {
            assert(list@.take(i + 1).drop_last() =~= list@.take(i as int));
            assert(before.push(piece).drop_last() =~= before);
        }
        if list.get_char(i) == ',' {
            r.push(list.substring_char(start, i).to_owned());
            start = i + 1;
            proof {
                assert(texts(r@) =~= before.push(piece));
                assert(list@.subrange(start as int, i + 1) =~= Seq::<char>::empty());
            }
        } else {
            assert(list@.subrange(start as int, i + 1) =~= piece.push(list@[i as int]));
        }
        i = i + 1;
    }
    let ghost before = texts(r@);
    r.push(list.substring_char(start, len).to_owned());
    proof {
        assert(list@.take(len as int) =~= list@);
        assert(texts(r@) =~= before.push(list@.subrange(start as int, len as int)));
    }
    r
}

/// Builds the task of a combination.
pub fn build_one_task(
    config: &SweepConfig,
    beta: &ParamValue,
    gamma: &ParamValue,
    spin_amp: &ParamValue,
) -> (r: SweepTask)
    ensures
        r@ == one_task(config@, beta@, gamma@, spin_amp@),
{
    let name = String::from_str("beta").concat(beta.short.as_str()).concat("_gamma").concat(
        gamma.short.as_str(),
    ).concat("_spin").concat(spin_amp.short.as_str());
    proof {
        reveal_strlit(".");
    }
    let id = replace_text(name.as_str(), ".", "p");
    let mode = if config.local {
        let args = vec![
            String::from_str("-np"),
            decimal_text(config.processes),
            config.command.clone(),
            config.seed.clone(),
        ];
        let env = vec![(String::from_str("OMP_NUM_THREADS"), String::from_str("1"))];
        assert(texts(args@) =~= seq![
            "-np"@,
            decimal(config.processes as nat),
            config.command@,
            config.seed@,
        ]);
        assert(text_pairs(env@) =~= seq![("OMP_NUM_THREADS"@, "1"@)]);
        ExecutionMode::Direct {
            command: String::from_str("mpirun"),
            args,
            env,
            timeout_nanos: None,
        }
    } else {
        ExecutionMode::Queued
    };
    SweepTask {
        task: Task::new(id.as_str(), mode).setup().collect(),
        beta: beta.full.clone(),
        gamma: gamma.full.clone(),
        spin_amp: spin_amp.full.clone(),
    }
}

/// Builds the tasks of all combinations, unless a parameter has no value.
pub fn build_all_tasks(
    config: &SweepConfig,
    betas: &Vec<ParamValue>,
    gammas: &Vec<ParamValue>,
    spin_amps: &Vec<ParamValue>,
) -> (r: Result<Vec<SweepTask>, WorkflowError>)
    ensures
        match r {
            Ok(tasks) => betas.len() > 0 && gammas.len() > 0 && spin_amps.len() > 0 && sweep_views(
                tasks@,
            ) == all_tasks(
                config@,
                value_views(betas@),
                value_views(gammas@),
                value_views(spin_amps@),
            ),
            Err(e) => (betas.len() == 0 || gammas.len() == 0 || spin_amps.len() == 0) && e@
                == WorkflowErrorView::InvalidConfig("All parameter lists must be non-empty"@),
        },
{
    if betas.len() == 0 || gammas.len() == 0 || spin_amps.len() == 0 {
        return Err(
            WorkflowError::InvalidConfig(String::from_str("All parameter lists must be non-empty")),
        );
    }
    let ghost bs = value_views(betas@);
    let ghost gs = value_views(gammas@);
    let ghost ss = value_views(spin_amps@);
    let mut tasks: Vec<SweepTask> = Vec::new();
    let mut b: usize = 0;
    proof {
        assert(bs.take(0) =~= Seq::<ParamValueView>::empty());
        assert(sweep_views(tasks@) =~= all_tasks(config@, bs.take(0), gs, ss));
    }
    while b < betas.len()
        invariant
            b <= betas.len(),
            bs == value_views(betas@),
            gs == value_views(gammas@),
            ss == value_views(spin_amps@),
            sweep_views(tasks@) == all_tasks(config@, bs.take(b as int), gs, ss),
        decreases betas.len() - b,
    {
        let ghost done = sweep_views(tasks@);
        let mut g: usize = 0;
        proof {
            assert(gs.take(0) =~= Seq::<ParamValueView>::empty());
            assert(done + tasks_over_gammas(config@, bs[b as int], gs.take(0), ss) =~= done);
        }
        while g < gammas.len()
            invariant
                b < betas.len(),
                g <= gammas.len(),
                bs == value_views(betas@),
                gs == value_views(gammas@),
                ss == value_views(spin_amps@),
                sweep_views(tasks@) == done + tasks_over_gammas(
                    config@,
                    bs[b as int],
                    gs.take(g as int),
                    ss,
                ),
            decreases gammas.len() - g,
        {
            let ghost before = sweep_views(tasks@);
            let ghost over = tasks_over_spins(config@, bs[b as int], gs[g as int], ss);
            let mut s: usize = 0;
            assert(before + over.take(0) =~= before);
            while s < spin_amps.len()
                invariant
                    b < betas.len(),
                    g < gammas.len(),
                    s <= spin_amps.len(),
                    bs == value_views(betas@),
                    gs == value_views(gammas@),
                    ss == value_views(spin_amps@),
                    over == tasks_over_spins(config@, bs[b as int], gs[g as int], ss),
                    sweep_views(tasks@) == before + over.take(s as int),
                decreases spin_amps.len() - s,
            {
                let ghost earlier = sweep_views(tasks@);
                let task = build_one_task(config, &betas[b], &gammas[g], &spin_amps[s]);
                tasks.push(task);
                proof {
                    assert(sweep_views(tasks@) =~= earlier.push(task@));
                    assert(over.take(s + 1) =~= over.take(s as int).push(over[s as int]));
                    assert(earlier.push(over[s as int]) =~= before + over.take(s + 1));
                }
                s = s + 1;
            }
            proof {
                assert(over.take(s as int) =~= over);
                assert(gs.take(g + 1).drop_last() =~= gs.take(g as int));
                assert(before + over =~= done + (tasks_over_gammas(
                    config@,
                    bs[b as int],
                    gs.take(g as int),
                    ss,
                ) + over));
            }
            g = g + 1;
        }
        proof {
            assert(gs.take(g as int) =~= gs);
            assert(bs.take(b + 1).drop_last() =~= bs.take(b as int));
        }
        b = b + 1;
    }
    assert(bs.take(b as int) =~= bs);
    Ok(tasks)
}

/// Fills the values of a combination into the text of an input file.
pub fn fill_parameters(seed: &str, beta: &str, gamma: &str, spin_amp: &str) -> (r: String)
    ensures
        r@ == replaced(
            replaced(seed@, "__SPIN_AMP__"@, spin_amp@),
            "__DEVEL_CODE__"@,
            "devel_code: PROF:*:ENDPROF s4u=true s4u_beta="@ + beta@ + " s4u_gamma="@ + gamma@,
        ),
        r@ == replaced(
            replaced(seed@, "__SPIN_AMP__"@, spin_amp@),
            "__DEVEL_CODE__"@,
            devel_code(beta@, gamma@),
        ),
{
    proof {
        reveal_strlit("__SPIN_AMP__");
        reveal_strlit("__DEVEL_CODE__");
    }
    let line = String::from_str("devel_code: PROF:*:ENDPROF s4u=true s4u_beta=").concat(
        beta,
    ).concat(" s4u_gamma=").concat(gamma);
    let with_spin = replace_text(seed, "__SPIN_AMP__", spin_amp);
    replace_text(with_spin.as_str(), "__DEVEL_CODE__", line.as_str())
}

/// Checks that the output of a calculation was written to its end.
pub fn check_output(output: &str) -> (r: Result<(), WorkflowError>)
    ensures
        match r {
            Ok(_) => exists|i: int| stands_at(output@, "Total time"@, i),
            Err(e) => (forall|i: int| !stands_at(output@, "Total time"@, i)) && e@
                == WorkflowErrorView::InvalidConfig(
                "CASTEP output missing 'Total time' marker"@,
            ),
        },
{
    let chars = chars_of(output);
    let marker = chars_of("Total time");
    let mut i: usize = 0;
    while i < chars.len()
        invariant
            i <= chars.len(),
            chars@ == output@,
            marker@ == "Total time"@,
            forall|j: int| 0 <= j < i ==> !stands_at(output@, "Total time"@, j),
        decreases chars.len() - i,
    {
        if is_at(&chars, &marker, i) {
            return Ok(());
        }
        i = i + 1;
    }
    proof {
        reveal_strlit("Total time");
    }
    Err(
        WorkflowError::InvalidConfig(
            String::from_str("CASTEP output missing 'Total time' marker"),
        ),
    )
}

} // verus!
