//! What a run does as a whole: the actions it names when nothing fails, the
//! files that are left when it is over, and how it ends when something fails.
//!
//! Files are spoken of by their names in the directory of the output file.

use vstd::prelude::*;

use crate::lemma_format_names;
use crate::pipeline::stem_name;
use crate::pipeline::ActionView;
use crate::pipeline::OutcomeView;
use crate::pipeline::Phase;
use crate::pipeline::PipelineView;
use crate::resolver::PackingStage;

verus! {

/// The actions of stage `i` in a run without failure: the stage is packed
/// and, if a stage came before, that stage's archive is removed.
pub open spec fn stage_actions(p: PipelineView, i: int) -> Seq<ActionView> {
    if i == 0 {
        seq![p.pack_action(0)]
    } else {
        seq![p.pack_action(i), ActionView::Remove { path: p.target(i - 1) }]
    }
}

/// The actions of the first `n` stages in a run without failure.
pub open spec fn actions_through(p: PipelineView, n: int) -> Seq<ActionView>
    decreases n,
{
    if n <= 0 {
        Seq::empty()
    } else {
        actions_through(p, n - 1) + stage_actions(p, n - 1)
    }
}

/// All actions of a run without failure: nothing but the end for an empty
/// list of stages, else every stage, the move to the output path and the end.
pub open spec fn success_actions(p: PipelineView) -> Seq<ActionView> {
    if p.stages.len() == 0 {
        seq![ActionView::Done]
    } else {
        actions_through(p, p.stages.len() as int) + seq![
            ActionView::Rename { from: p.last_target(), to: p.output },
            ActionView::Done,
        ]
    }
}

/// The phase that a run is in after the given outcomes, one for each step,
/// and the actions that it named on the way.
pub open spec fn trace(p: PipelineView, outcomes: Seq<OutcomeView>) -> (Phase, Seq<ActionView>)
    decreases outcomes.len(),
{
    if outcomes.len() == 0 {
        (p.phase, Seq::empty())
    } else {
        let before = trace(p, outcomes.drop_last());
        let next = p.at(before.0).step(outcomes.last());
        (next.0, before.1.push(next.1))
    }
}

/// The outcomes of `k` steps that were all done.
pub open spec fn all_done(k: nat) -> Seq<OutcomeView> {
    Seq::new(k, |i: int| OutcomeView::Done)
}

/// The phase that a run is in after `k` steps that were all done, and the
/// actions that it named on the way.
pub open spec fn run_done(p: PipelineView, k: nat) -> (Phase, Seq<ActionView>) {
    trace(p, all_done(k))
}

/// The phase in which a run without failure stands once `n` stages are dealt
/// with.
pub open spec fn phase_through(n: int) -> Phase {
    if n == 1 {
        Phase::Packing(0)
    } else {
        Phase::Removing((n - 1) as usize)
    }
}

proof fn lemma_run_step(p: PipelineView, k: nat)
    ensures
        run_done(p, k + 1) == ({
            let before = run_done(p, k);
            let next = p.at(before.0).step(OutcomeView::Done);
            (next.0, before.1.push(next.1))
        }),
{
    assert(all_done(k + 1).drop_last() =~= all_done(k));
}

proof fn lemma_run_through(p: PipelineView, n: int)
    requires
        p.phase == Phase::Ready,
        1 <= n <= p.stages.len(),
        p.stages.len() <= usize::MAX,
    ensures
        run_done(p, (2 * n - 1) as nat) == (phase_through(n), actions_through(p, n)),
    decreases n,
{
    if n == 1 {
        lemma_run_step(p, 0);
        assert(actions_through(p, 0) =~= Seq::<ActionView>::empty());
        assert(actions_through(p, 1) =~= seq![p.pack_action(0)]);
        assert(run_done(p, 1).1 =~= seq![p.pack_action(0)]);
    } else {
        lemma_run_through(p, n - 1);
        let k = (2 * (n - 1) - 1) as nat;
        lemma_run_step(p, k);
        lemma_run_step(p, k + 1);
        let s0 = run_done(p, k);
        let s1 = run_done(p, k + 1);
        let s2 = run_done(p, k + 2);
        assert(s1 == (Phase::Packing((n - 1) as usize), s0.1.push(p.pack_action(n - 1))));
        assert(s2 == (
            Phase::Removing((n - 1) as usize),
            s1.1.push(ActionView::Remove { path: p.target(n - 2) }),
        ));
        assert(s2.1 =~= actions_through(p, n - 1) + stage_actions(p, n - 1));
    }
}

/// A run in which every action is done names exactly the actions of
/// [`success_actions`], in their order, and is then finished.
pub proof fn lemma_run_succeeds(p: PipelineView)
    requires
        p.phase == Phase::Ready,
        p.stages.len() <= usize::MAX,
    ensures
        run_done(p, success_actions(p).len()) == (Phase::Finished, success_actions(p)),
{
    let n = p.stages.len() as int;
    if n == 0 {
        lemma_run_step(p, 0);
        assert(run_done(p, 1).1 =~= seq![ActionView::Done]);
    } else {
        lemma_run_through(p, n);
        lemma_actions_through_len(p, n);
        let k = (2 * n - 1) as nat;
        lemma_run_step(p, k);
        lemma_run_step(p, k + 1);
        let s0 = run_done(p, k);
        let s1 = run_done(p, k + 1);
        let s2 = run_done(p, k + 2);
        assert(s1 == (
            Phase::Renaming,
            s0.1.push(ActionView::Rename { from: p.last_target(), to: p.output }),
        ));
        assert(s2 == (Phase::Finished, s1.1.push(ActionView::Done)));
        assert(s2.1 =~= success_actions(p));
    }
}

/// The first `n` stages take one action for the first stage and two for
/// every other.
pub proof fn lemma_actions_through_len(p: PipelineView, n: int)
    requires
        1 <= n,
    ensures
        actions_through(p, n).len() == 2 * n - 1,
    decreases n,
{
    if n == 1 {
        assert(actions_through(p, 0).len() == 0);
    } else {
        lemma_actions_through_len(p, n - 1);
    }
}

/// With a single stage nothing is ever removed: the stage is packed and its
/// archive moved to the output path.
pub proof fn lemma_single_stage(p: PipelineView)
    requires
        p.stages.len() == 1,
    ensures
        success_actions(p) == seq![
            p.pack_action(0),
            ActionView::Rename { from: p.target(0), to: p.output },
            ActionView::Done,
        ],
{
    assert(actions_through(p, 0) =~= Seq::<ActionView>::empty());
    assert(actions_through(p, 1) =~= seq![p.pack_action(0)]);
    assert(success_actions(p) =~= seq![
        p.pack_action(0),
        ActionView::Rename { from: p.target(0), to: p.output },
        ActionView::Done,
    ]);
}

/// An action that is not done ends the run at once, with an error and with
/// nothing more to do. The one exception is a rename across devices. An
/// error that packing gave is handed on as it is; any other error holds the
/// cause that came with the outcome.
pub proof fn lemma_failure_aborts(p: PipelineView, outcome: OutcomeView, later: OutcomeView)
    requires
        p.phase != Phase::Ready,
        p.phase != Phase::Finished,
        p.phase != Phase::Aborted,
        outcome != OutcomeView::Done,
        !(p.phase == Phase::Renaming && outcome is CrossDevice),
    ensures
        p.step(outcome).0 == Phase::Aborted,
        p.step(outcome).1 is Fail,
        outcome matches OutcomeView::Rejected(e) ==> p.step(outcome).1 == ActionView::Fail(e),
        !(outcome is Rejected) ==> p.step(outcome).1->Fail_0.cause() == Some(outcome.cause()),
        p.at(Phase::Aborted).step(later) == (Phase::Aborted, ActionView::Idle),
{
}

/// A removal that fails is reported as such, with the name of the file and
/// with the cause that was handed in.
pub proof fn lemma_failed_removal(p: PipelineView, i: usize, cause: std::io::Error)
    requires
        p.phase == Phase::Removing(i),
    ensures
        p.step(OutcomeView::Failed(cause)) == (
            Phase::Aborted,
            ActionView::Fail(
                crate::error::ErrorView::RemoveOldArchive { source: cause, path: p.target(i - 1) },
            ),
        ),
{
}

/// A step keeps the phase fitting the stages.
pub proof fn lemma_step_fits(p: PipelineView, outcome: OutcomeView)
    requires
        p.phase_fits(),
        p.stages.len() <= usize::MAX,
    ensures
        p.at(p.step(outcome).0).phase_fits(),
{
}

/// When the rename fails across devices, the archive is copied to the output
/// path and then removed, and the run is finished.
pub proof fn lemma_copy_fallback(p: PipelineView, cause: std::io::Error)
    requires
        p.phase == Phase::Renaming,
    ensures
        p.step(OutcomeView::CrossDevice(cause)) == (
            Phase::Copying,
            ActionView::Copy { from: p.last_target(), to: p.output },
        ),
        p.at(Phase::Copying).step(OutcomeView::Done) == (
            Phase::Unlinking,
            ActionView::Remove { path: p.last_target() },
        ),
        p.at(Phase::Unlinking).step(OutcomeView::Done) == (Phase::Finished, ActionView::Done),
{
}

/// Each stage makes the running name longer by three or four characters: a
/// dot and an extension of two or three.
pub proof fn lemma_stem_step(base: Seq<char>, stages: Seq<PackingStage>, i: int)
    requires
        0 <= i,
    ensures
        stem_name(base, stages, i).len() == stem_name(base, stages, i - 1).len() + 3
            || stem_name(base, stages, i).len() == stem_name(base, stages, i - 1).len() + 4,
{
    lemma_format_names();
    reveal_strlit(".");
}

/// The running names grow from stage to stage: by three or four characters
/// to the next stage, by six or more to any later one.
pub proof fn lemma_stem_names_grow(base: Seq<char>, stages: Seq<PackingStage>, i: int, j: int)
    requires
        -1 <= i < j,
    ensures
        stem_name(base, stages, i).len() + 3 <= stem_name(base, stages, j).len(),
        stem_name(base, stages, i).len() + 5 != stem_name(base, stages, j).len(),
    decreases j,
{
    lemma_stem_step(base, stages, j);
    if i < j - 1 {
        lemma_stem_names_grow(base, stages, i, j - 1);
    }
}

/// No stage writes its archive to a file of the output's name.
pub proof fn lemma_target_not_output(p: PipelineView, i: int)
    ensures
        p.target(i) != p.file_name,
{
    reveal_strlit(".part");
    assert(".part"@.len() == 5);
}

/// No two stages write their archives to a file of the same name.
pub proof fn lemma_targets_differ(p: PipelineView, i: int, j: int)
    requires
        0 <= i < j,
    ensures
        p.target(i) != p.target(j),
{
    reveal_strlit(".part");
    assert(".part"@.len() == 5);
    lemma_stem_names_grow(crate::pipeline::spec_base_name(p.file_name), p.stages, i, j);
}

/// The files that exist once an action is done, given those that existed
/// before it. A stage makes the file that it packs into; a rename or a copy
/// makes the output file.
pub open spec fn apply(p: PipelineView, files: Set<Seq<char>>, action: ActionView) -> Set<
    Seq<char>,
> {
    match action {
        ActionView::Pack { target, .. } => files.insert(target),
        ActionView::Remove { path } => files.remove(path),
        ActionView::Rename { from, .. } => files.remove(from).insert(p.file_name),
        ActionView::Copy { .. } => files.insert(p.file_name),
        _ => files,
    }
}

/// The files that exist once a list of actions is done, one after the other.
pub open spec fn apply_all(p: PipelineView, files: Set<Seq<char>>, actions: Seq<ActionView>) -> Set<
    Seq<char>,
>
    decreases actions.len(),
{
    if actions.len() == 0 {
        files
    } else {
        apply(p, apply_all(p, files, actions.drop_last()), actions.last())
    }
}

/// Whether `name` is the name of the archive of one of the first `n` stages.
pub open spec fn is_target(p: PipelineView, name: Seq<char>, n: int) -> bool {
    exists|j: int| 0 <= j < n && #[trigger] p.target(j) == name
}

proof fn lemma_apply_push(
    p: PipelineView,
    files: Set<Seq<char>>,
    actions: Seq<ActionView>,
    action: ActionView,
)
    ensures
        apply_all(p, files, actions.push(action)) == apply(
            p,
            apply_all(p, files, actions),
            action,
        ),
{
    assert(actions.push(action).drop_last() =~= actions);
}

proof fn lemma_files_through(p: PipelineView, files: Set<Seq<char>>, m: int)
    requires
        1 <= m <= p.stages.len(),
    ensures
        apply_all(p, files, actions_through(p, m)).contains(p.target(m - 1)),
        forall|j: int|
            0 <= j < m - 1 ==> !apply_all(p, files, actions_through(p, m)).contains(
                #[trigger] p.target(j),
            ),
        forall|x: Seq<char>|
            !is_target(p, x, m) ==> apply_all(p, files, actions_through(p, m)).contains(x)
                == files.contains(x),
    decreases m,
{
    let after = apply_all(p, files, actions_through(p, m));
    if m == 1 {
        assert(actions_through(p, 0) =~= Seq::<ActionView>::empty());
        assert(actions_through(p, 1) =~= Seq::<ActionView>::empty().push(p.pack_action(0)));
        lemma_apply_push(p, files, Seq::empty(), p.pack_action(0));
        assert(after == files.insert(p.target(0)));
        assert forall|x: Seq<char>| !is_target(p, x, m) implies after.contains(x)
            == files.contains(x) by {
            if x == p.target(0) {
                assert(is_target(p, x, m));
            }
        }
    } else {
        lemma_files_through(p, files, m - 1);
        let before = apply_all(p, files, actions_through(p, m - 1));
        let pack = p.pack_action(m - 1);
        let remove = ActionView::Remove { path: p.target(m - 2) };
        assert(actions_through(p, m) =~= actions_through(p, m - 1).push(pack).push(remove));
        lemma_apply_push(p, files, actions_through(p, m - 1), pack);
        lemma_apply_push(p, files, actions_through(p, m - 1).push(pack), remove);
        assert(after == before.insert(p.target(m - 1)).remove(p.target(m - 2)));
        lemma_targets_differ(p, m - 2, m - 1);
        assert forall|j: int| 0 <= j < m - 1 implies !after.contains(#[trigger] p.target(j)) by {
            lemma_targets_differ(p, j, m - 1);
        }
        assert forall|x: Seq<char>| !is_target(p, x, m) implies after.contains(x)
            == files.contains(x) by {
            if x == p.target(m - 1) {
                assert(is_target(p, x, m));
            }
            if x == p.target(m - 2) {
                assert(is_target(p, x, m));
            }
            if is_target(p, x, m - 1) {
                let j = choose|j: int| 0 <= j < m - 1 && #[trigger] p.target(j) == x;
                assert(is_target(p, x, m));
            }
        }
    }
}

/// After a run without failure the output file is in place, no archive of
/// any stage is left, and no other file has come or gone.
pub proof fn lemma_no_intermediates_left(p: PipelineView, files: Set<Seq<char>>)
    requires
        p.stages.len() >= 1,
    ensures
        apply_all(p, files, success_actions(p)).contains(p.file_name),
        forall|j: int|
            0 <= j < p.stages.len() ==> !apply_all(p, files, success_actions(p)).contains(
                #[trigger] p.target(j),
            ),
        forall|x: Seq<char>|
            x != p.file_name && !is_target(p, x, p.stages.len() as int) ==> apply_all(
                p,
                files,
                success_actions(p),
            ).contains(x) == files.contains(x),
{
    let n = p.stages.len() as int;
    let stages = actions_through(p, n);
    let rename = ActionView::Rename { from: p.last_target(), to: p.output };
    lemma_files_through(p, files, n);
    assert(success_actions(p) =~= stages.push(rename).push(ActionView::Done));
    lemma_apply_push(p, files, stages, rename);
    lemma_apply_push(p, files, stages.push(rename), ActionView::Done);
    let before = apply_all(p, files, stages);
    let after = apply_all(p, files, success_actions(p));
    assert(after == before.remove(p.last_target()).insert(p.file_name));
    assert forall|j: int| 0 <= j < n implies !after.contains(#[trigger] p.target(j)) by {
        lemma_target_not_output(p, j);
    }
    assert forall|x: Seq<char>| x != p.file_name && !is_target(p, x, n) implies after.contains(x)
        == files.contains(x) by {
        if x == p.last_target() {
            assert(p.target(n - 1) == x);
            assert(is_target(p, x, n));
        }
    }
}

/// Copying and then removing leaves the files that a rename would leave.
pub proof fn lemma_copy_is_move(p: PipelineView, files: Set<Seq<char>>)
    requires
        p.stages.len() >= 1,
    ensures
        apply(
            p,
            apply(p, files, ActionView::Copy { from: p.last_target(), to: p.output }),
            ActionView::Remove { path: p.last_target() },
        ) == apply(p, files, ActionView::Rename { from: p.last_target(), to: p.output }),
{
    lemma_target_not_output(p, p.stages.len() - 1);
    assert(files.insert(p.file_name).remove(p.last_target()) =~= files.remove(
        p.last_target(),
    ).insert(p.file_name));
}

/// Whether an action makes, changes or removes the output file.
pub open spec fn touches_output(p: PipelineView, action: ActionView) -> bool {
    match action {
        ActionView::Pack { target, .. } => target == p.file_name,
        ActionView::Remove { path } => path == p.file_name,
        ActionView::Rename { .. } => true,
        ActionView::Copy { .. } => true,
        _ => false,
    }
}

/// Whether a run in this phase is still at its stages.
pub open spec fn at_stages(phase: Phase) -> bool {
    phase is Ready || phase is Packing || phase is Removing
}

/// As long as a run is at its stages, it has named no action that touches
/// the output file.
pub proof fn lemma_stages_spare_output(p: PipelineView, outcomes: Seq<OutcomeView>)
    requires
        p.phase == Phase::Ready,
        p.stages.len() <= usize::MAX,
    ensures
        p.at(trace(p, outcomes).0).phase_fits(),
        trace(p, outcomes).1.len() == outcomes.len(),
        at_stages(trace(p, outcomes).0) ==> forall|k: int|
            0 <= k < outcomes.len() ==> !touches_output(p, #[trigger] trace(p, outcomes).1[k]),
    decreases outcomes.len(),
{
    if outcomes.len() > 0 {
        let earlier = outcomes.drop_last();
        lemma_stages_spare_output(p, earlier);
        let before = trace(p, earlier);
        let after = trace(p, outcomes);
        let q = p.at(before.0);
        lemma_step_fits(q, outcomes.last());
        if at_stages(after.0) {
            assert(at_stages(before.0));
            assert forall|k: int| 0 <= k < outcomes.len() implies !touches_output(
                p,
                #[trigger] after.1[k],
            ) by {
                if k < earlier.len() {
                    assert(after.1[k] == before.1[k]);
                } else {
                    lemma_spared_by_step(q, outcomes.last());
                    assert(touches_output(p, after.1[k]) == touches_output(q, after.1[k]));
                }
            }
        }
    }
}

/// A step at the stages that does not move on to the output names an action
/// that leaves the output file alone.
proof fn lemma_spared_by_step(q: PipelineView, outcome: OutcomeView)
    requires
        q.phase_fits(),
        at_stages(q.phase),
        q.stages.len() <= usize::MAX,
        at_stages(q.step(outcome).0) || q.step(outcome).0 == Phase::Aborted,
    ensures
        !touches_output(q, q.step(outcome).1),
{
    match q.phase {
        Phase::Ready => {
            lemma_target_not_output(q, 0);
        },
        Phase::Packing(i) => {
            lemma_target_not_output(q, i - 1);
            lemma_target_not_output(q, i + 1);
        },
        Phase::Removing(i) => {
            lemma_target_not_output(q, i + 1);
        },
        _ => {},
    }
}

/// When a stage fails, the run is aborted without ever having named an
/// action that touches the output file: the file is as it was before the run.
pub proof fn lemma_failed_stage_spares_output(
    p: PipelineView,
    outcomes: Seq<OutcomeView>,
    last: OutcomeView,
    files: Set<Seq<char>>,
)
    requires
        p.phase == Phase::Ready,
        p.stages.len() <= usize::MAX,
        trace(p, outcomes).0 is Packing || trace(p, outcomes).0 is Removing,
        last != OutcomeView::Done,
    ensures
        trace(p, outcomes.push(last)).0 == Phase::Aborted,
        trace(p, outcomes.push(last)).1.last() is Fail,
        forall|k: int|
            0 <= k <= outcomes.len() ==> !touches_output(
                p,
                #[trigger] trace(p, outcomes.push(last)).1[k],
            ),
        apply_all(p, files, trace(p, outcomes.push(last)).1).contains(p.file_name)
            == files.contains(p.file_name),
{
    let all = outcomes.push(last);
    assert(all.drop_last() =~= outcomes);
    lemma_stages_spare_output(p, outcomes);
    let before = trace(p, outcomes);
    let after = trace(p, all);
    let q = p.at(before.0);
    lemma_spared_by_step(q, last);
    assert forall|k: int| 0 <= k <= outcomes.len() implies !touches_output(
        p,
        #[trigger] after.1[k],
    ) by {
        if k < outcomes.len() {
            assert(after.1[k] == before.1[k]);
        } else {
            assert(touches_output(p, after.1[k]) == touches_output(q, after.1[k]));
        }
    }
    lemma_untouched(p, files, after.1);
}

/// Actions that do not touch the output file leave it as it was.
pub proof fn lemma_untouched(p: PipelineView, files: Set<Seq<char>>, actions: Seq<ActionView>)
    requires
        forall|k: int| 0 <= k < actions.len() ==> !touches_output(p, #[trigger] actions[k]),
    ensures
        apply_all(p, files, actions).contains(p.file_name) == files.contains(p.file_name),
    decreases actions.len(),
{
    if actions.len() > 0 {
        let earlier = actions.drop_last();
        assert forall|k: int| 0 <= k < earlier.len() implies !touches_output(
            p,
            #[trigger] earlier[k],
        ) by {
            assert(earlier[k] == actions[k]);
        }
        lemma_untouched(p, files, earlier);
        assert(!touches_output(p, actions[actions.len() - 1]));
    }
}

} // verus!
