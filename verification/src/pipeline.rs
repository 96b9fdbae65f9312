//! Running a list of stages: what each stage packs and into which file,
//! which files go away again, and how the last archive reaches the output
//! path.
//!
//! Nothing here touches the disk. [`Pipeline`] names one action at a time;
//! the caller performs it and reports how it went.

use vstd::prelude::*;
use vstd::string::StringExecFns;

use crate::error::Error;
use crate::error::ErrorView;
use crate::packer::all_accepted;
use crate::packer::entry_views;
use crate::packer::stopped_within;
use crate::packer::tar::tar_accepts;
use crate::packer::tar::tar_archive;
use crate::packer::tar::TarPacker;
use crate::packer::EntryView;
use crate::packer::Packer;
use crate::packer::Source;
use crate::resolver::resolve;
use crate::resolver::resolved_stages;
use crate::resolver::PackingStage;
use crate::text::first_dot;
use crate::text::lemma_dot_tokens_first;
use crate::text::split_dots;
use crate::ArchiveFormat;
use crate::CompressionLevel;

verus! {

/// The entries that a list of sources brings, source after source.
pub open spec fn all_entries(sources: Seq<Source>) -> Seq<EntryView>
    decreases sources.len(),
{
    if sources.len() == 0 {
        Seq::empty()
    } else {
        all_entries(sources.drop_last()) + sources.last().entries()
    }
}

/// The entries of the first sources of a list open the entries of the list.
pub proof fn lemma_all_entries_prefix(sources: Seq<Source>, k: int)
    requires
        0 <= k <= sources.len(),
    ensures
        all_entries(sources.take(k)).is_prefix_of(all_entries(sources)),
    decreases sources.len(),
{
    if k == sources.len() {
        assert(sources.take(k) =~= sources);
    } else {
        lemma_all_entries_prefix(sources.drop_last(), k);
        assert(sources.drop_last().take(k) =~= sources.take(k));
    }
}

/// Adds every source to a packer, in order, and stops at the first that fails.
pub fn add_all<P: Packer>(packer: &mut P, sources: &Vec<Source>) -> (r: Result<(), Error>)
    requires
        old(packer).wf(),
    ensures
        final(packer).wf(),
        r is Ok ==> final(packer).entries() == old(packer).entries() + all_entries(sources@),
        r is Ok ==> all_accepted::<P>(all_entries(sources@)),
        P::reliable() && all_accepted::<P>(all_entries(sources@)) ==> r is Ok,
        r is Err ==> stopped_within(
            old(packer).entries(),
            final(packer).entries(),
            all_entries(sources@),
        ),
        r matches Err(e) ==> P::can_fail_with(e@),
        forall|all: Seq<EntryView>| #[trigger]
            final(packer).archive(all) == old(packer).archive(all),
{
    let mut k: usize = 0;
    assert(packer.entries() =~= old(packer).entries() + all_entries(sources@.take(0)));
    while k < sources.len()
        invariant
            0 <= k <= sources.len(),
            packer.wf(),
            packer.entries() == old(packer).entries() + all_entries(sources@.take(k as int)),
            all_accepted::<P>(all_entries(sources@.take(k as int))),
            forall|all: Seq<EntryView>| #[trigger] packer.archive(all) == old(packer).archive(all),
        decreases sources.len() - k,
    {
        let ghost before = packer.entries();
        let ghost done = all_entries(sources@.take(k as int));
        let ghost next = sources@.take(k + 1);
        proof {
            assert(next.drop_last() =~= sources@.take(k as int));
            assert(next.last() == sources@[k as int]);
            lemma_all_entries_prefix(sources@, k + 1);
        }
        match packer.add_path(&sources[k]) {
            Ok(()) => {
                assert(packer.entries() =~= old(packer).entries() + all_entries(next));
                assert forall|i: int| 0 <= i < all_entries(next).len() implies P::accepts(
                    #[trigger] all_entries(next)[i],
                ) by {
                    let part = sources@[k as int].entries();
                    if i < done.len() {
                        assert(all_entries(next)[i] == done[i]);
                    } else {
                        assert(all_entries(next)[i] == part[i - done.len()]);
                    }
                }
            },
            Err(e) => {
                proof {
                    let part = sources@[k as int].entries();
                    let whole = all_entries(sources@);
                    if P::reliable() && all_accepted::<P>(whole) {
                        assert forall|i: int| 0 <= i < part.len() implies P::accepts(
                            #[trigger] part[i],
                        ) by {
                            assert(all_entries(next) == done + part);
                            assert(whole[done.len() + i] == all_entries(next)[done.len() + i]);
                            assert(all_entries(next)[done.len() + i] == part[i]);
                        }
                    }
                }
                proof {
                    let part = sources@[k as int].entries();
                    let n = choose|n: int|
                        0 <= n < part.len() && packer.entries() == before + #[trigger] part.take(n);
                    let whole = all_entries(sources@);
                    assert(all_entries(next) == done + part);
                    assert(whole.take(done.len() + n) =~= done + part.take(n));
                    assert(packer.entries() =~= old(packer).entries() + whole.take(
                        done.len() + n,
                    ));
                }
                return Err(e);
            },
        }
        k = k + 1;
    }
    assert(sources@.take(k as int) =~= sources@);
    Ok(())
}

/// Packs the sources into one archive of the given format and hands out its
/// bytes. Only tar archives can be written; for tar the level plays no part.
pub fn pack_files(sources: &Vec<Source>, format: ArchiveFormat, level: CompressionLevel) -> (r:
    Result<Vec<u8>, Error>)
    ensures
        format != ArchiveFormat::Tar ==> r is Err && r->Err_0@ == ErrorView::UnsupportedFormat(
            format,
        ),
        format == ArchiveFormat::Tar ==> (r is Ok <==> forall|i: int|
            0 <= i < all_entries(sources@).len() ==> tar_accepts(
                (#[trigger] all_entries(sources@)[i]).path,
            )),
        format == ArchiveFormat::Tar && sources@.len() == 0 ==> r is Ok,
        format == ArchiveFormat::Tar ==> match r {
            Ok(bytes) => bytes@ == tar_archive(all_entries(sources@)) && bytes@.len() % 512 == 0,
            Err(e) => e@ is TarPacker,
        },
{
    match format {
        ArchiveFormat::Tar => {
            let mut packer = match TarPacker::new(Vec::new()) {
                Ok(packer) => packer,
                Err(e) => {
                    return Err(e);
                },
            };
            match add_all(&mut packer, sources) {
                Ok(()) => {},
                Err(e) => {
                    return Err(e);
                },
            }
            let ghost entries = packer.entries();
            assert(entries =~= all_entries(sources@));
            let r = packer.finish();
            proof {
                if r is Ok {
                    assert(r->Ok_0@ =~= tar_archive(all_entries(sources@)));
                }
            }
            r
        },
        _ => Err(Error::UnsupportedFormat(format)),
    }
}

/// The base of the archive names that a run makes: what stands before the
/// first dot of the output file name, or `archive` for a name without a dot.
pub open spec fn spec_base_name(file_name: Seq<char>) -> Seq<char> {
    if first_dot(file_name) < file_name.len() {
        file_name.take(first_dot(file_name))
    } else {
        "archive"@
    }
}

/// The base of the archive names for an output file name.
pub fn base_name(file_name: &str) -> (r: String)
    ensures
        r@ == spec_base_name(file_name@),
{
    let tokens = split_dots(file_name);
    proof {
        lemma_dot_tokens_first(file_name@);
    }
    if tokens.len() >= 2 {
        tokens[0].clone()
    } else {
        "archive".to_owned()
    }
}

/// The running name after stage `i`: the base name with the extension of
/// every stage up to `i` added behind a dot. Below zero it is the base name
/// itself.
pub open spec fn stem_name(base: Seq<char>, stages: Seq<PackingStage>, i: int) -> Seq<char>
    decreases i + 1,
{
    if i < 0 {
        base
    } else {
        stem_name(base, stages, i - 1) + "."@ + stages[i].0.spec_ext()
    }
}

/// The name of the file that stage `i` writes its archive to. It is the
/// running name after the stage, unless that is the name of the output file
/// itself: then `.part` is added, so that no stage ever writes to the output.
pub open spec fn target_name(file_name: Seq<char>, stages: Seq<PackingStage>, i: int) -> Seq<
    char,
> {
    let stem = stem_name(spec_base_name(file_name), stages, i);
    if stem == file_name {
        stem + ".part"@
    } else {
        stem
    }
}

/// The running names after each stage, first stage first.
pub fn stem_names(base: &str, stages: &Vec<PackingStage>) -> (r: Vec<String>)
    ensures
        r@.len() == stages@.len(),
        forall|i: int| 0 <= i < r@.len() ==> (#[trigger] r@[i])@ == stem_name(base@, stages@, i),
{
    let mut names: Vec<String> = Vec::new();
    let mut name: String = base.to_owned();
    let mut i: usize = 0;
    while i < stages.len()
        invariant
            0 <= i <= stages.len(),
            names@.len() == i,
            name@ == stem_name(base@, stages@, i - 1),
            forall|j: int|
                0 <= j < names@.len() ==> (#[trigger] names@[j])@ == stem_name(base@, stages@, j),
        decreases stages.len() - i,
    {
        name.append(".");
        name.append(stages[i].0.as_ext());
        names.push(name.clone());
        i = i + 1;
    }
    names
}

/// The names of the files that the stages write their archives to, first
/// stage first, for an output file of the given name.
pub fn target_names(file_name: &str, stages: &Vec<PackingStage>) -> (r: Vec<String>)
    ensures
        r@.len() == stages@.len(),
        forall|i: int|
            0 <= i < r@.len() ==> (#[trigger] r@[i])@ == target_name(file_name@, stages@, i),
{
    let base = base_name(file_name);
    let stems = stem_names(base.as_str(), stages);
    let mut names: Vec<String> = Vec::new();
    let mut i: usize = 0;
    while i < stems.len()
        invariant
            0 <= i <= stems.len(),
            stems@.len() == stages@.len(),
            names@.len() == i,
            base@ == spec_base_name(file_name@),
            forall|j: int|
                0 <= j < stems@.len() ==> (#[trigger] stems@[j])@ == stem_name(
                    base@,
                    stages@,
                    j,
                ),
            forall|j: int|
                0 <= j < names@.len() ==> (#[trigger] names@[j])@ == target_name(
                    file_name@,
                    stages@,
                    j,
                ),
        decreases stems.len() - i,
    {
        let mut name = stems[i].clone();
        if name.as_str().eq(file_name) {
            name.append(".part");
        }
        names.push(name);
        i = i + 1;
    }
    names
}

/// Where a run stands.
#[derive(Debug, Clone, Copy, PartialEq, Eq, Structural)]
pub enum Phase {
    /// Nothing has been asked for yet.
    Ready,
    /// The stage with this index is being packed.
    Packing(usize),
    /// The stage with this index is packed, and the archive of the stage
    /// before it is being removed.
    Removing(usize),
    /// The last archive is being renamed to the output path.
    Renaming,
    /// The last archive is being copied to the output path.
    Copying,
    /// The last archive, now copied, is being removed.
    Unlinking,
    /// The run has succeeded.
    Finished,
    /// The run has failed.
    Aborted,
}

/// What a stage packs.
#[derive(Debug)]
pub enum PackInput {
    /// The paths that the user named.
    Inputs,
    /// The archive of the stage before, as the one file that it is: the
    /// file at `path`, stored under `name`.
    Archive { path: String, name: String },
}

pub enum PackInputView {
    Inputs,
    Archive { path: Seq<char>, name: Seq<char> },
}

impl View for PackInput {
    type V = PackInputView;

    open spec fn view(&self) -> PackInputView {
        match self {
            PackInput::Inputs => PackInputView::Inputs,
            PackInput::Archive { path, name } => PackInputView::Archive {
                path: path@,
                name: name@,
            },
        }
    }
}

/// What the caller is to do next.
#[derive(Debug)]
pub enum Action {
    /// Create `target` and pack `input` into it.
    Pack { format: ArchiveFormat, level: CompressionLevel, input: PackInput, target: String },
    /// Remove the file `path`.
    Remove { path: String },
    /// Rename `from` to `to`.
    Rename { from: String, to: String },
    /// Copy the bytes of `from` to `to`.
    Copy { from: String, to: String },
    /// Stop: the output is in place.
    Done,
    /// Stop with this error.
    Fail(Error),
    /// Nothing: the run is over.
    Idle,
}

pub enum ActionView {
    Pack { format: ArchiveFormat, level: CompressionLevel, input: PackInputView, target: Seq<char> },
    Remove { path: Seq<char> },
    Rename { from: Seq<char>, to: Seq<char> },
    Copy { from: Seq<char>, to: Seq<char> },
    Done,
    Fail(ErrorView),
    Idle,
}

impl View for Action {
    type V = ActionView;

    open spec fn view(&self) -> ActionView {
        match self {
            Action::Pack { format, level, input, target } => ActionView::Pack {
                format: *format,
                level: *level,
                input: input@,
                target: target@,
            },
            Action::Remove { path } => ActionView::Remove { path: path@ },
            Action::Rename { from, to } => ActionView::Rename { from: from@, to: to@ },
            Action::Copy { from, to } => ActionView::Copy { from: from@, to: to@ },
            Action::Done => ActionView::Done,
            Action::Fail(e) => ActionView::Fail(e@),
            Action::Idle => ActionView::Idle,
        }
    }
}

/// How the last action went.
#[derive(Debug)]
pub enum Outcome {
    /// It was done.
    Done,
    /// The file operation that it names failed.
    Failed(std::io::Error),
    /// A rename failed because the two paths lie on different devices.
    CrossDevice(std::io::Error),
    /// Packing failed with this error.
    Rejected(Error),
}

pub enum OutcomeView {
    Done,
    Failed(std::io::Error),
    CrossDevice(std::io::Error),
    Rejected(ErrorView),
}

impl OutcomeView {
    /// The cause that came with an outcome. An outcome without one is not
    /// asked for it.
    pub open spec fn cause(self) -> std::io::Error {
        match self {
            OutcomeView::Failed(source) => source,
            OutcomeView::CrossDevice(source) => source,
            _ => arbitrary(),
        }
    }
}

impl View for Outcome {
    type V = OutcomeView;

    open spec fn view(&self) -> OutcomeView {
        match self {
            Outcome::Done => OutcomeView::Done,
            Outcome::Failed(source) => OutcomeView::Failed(*source),
            Outcome::CrossDevice(source) => OutcomeView::CrossDevice(*source),
            Outcome::Rejected(e) => OutcomeView::Rejected(e@),
        }
    }
}

/// A run, as contracts see it.
pub struct PipelineView {
    pub stages: Seq<PackingStage>,
    /// The name of the output file, without the directory that it is in.
    pub file_name: Seq<char>,
    /// The path of the output file.
    pub output: Seq<char>,
    pub phase: Phase,
}

impl PipelineView {
    /// The running name after stage `i`.
    pub open spec fn stem(self, i: int) -> Seq<char> {
        stem_name(spec_base_name(self.file_name), self.stages, i)
    }

    /// The name of the file that holds the archive of stage `i`.
    pub open spec fn target(self, i: int) -> Seq<char> {
        target_name(self.file_name, self.stages, i)
    }

    /// The name of the archive of the last stage.
    pub open spec fn last_target(self) -> Seq<char> {
        self.target(self.stages.len() - 1)
    }

    /// The same run in another phase.
    pub open spec fn at(self, phase: Phase) -> PipelineView {
        PipelineView { phase, ..self }
    }

    /// The action that packs stage `i`: the inputs for the first stage, for
    /// every other the archive of the stage before it.
    pub open spec fn pack_action(self, i: int) -> ActionView {
        ActionView::Pack {
            format: self.stages[i].0,
            level: self.stages[i].1,
            input: if i == 0 {
                PackInputView::Inputs
            } else {
                PackInputView::Archive { path: self.target(i - 1), name: self.stem(i - 1) }
            },
            target: self.target(i),
        }
    }

    /// What follows once stage `i` is packed and nothing older is left:
    /// the next stage, or after the last stage the move to the output path.
    pub open spec fn after_stage(self, i: int) -> (Phase, ActionView) {
        if i + 1 < self.stages.len() {
            (Phase::Packing((i + 1) as usize), self.pack_action(i + 1))
        } else {
            (Phase::Renaming, ActionView::Rename { from: self.last_target(), to: self.output })
        }
    }

    /// The first step: nothing at all for an empty list of stages, else the
    /// first stage.
    pub open spec fn first_step(self) -> (Phase, ActionView) {
        if self.stages.len() == 0 {
            (Phase::Finished, ActionView::Done)
        } else {
            (Phase::Packing(0), self.pack_action(0))
        }
    }

    /// What `start` does: the first step of a run that has not begun, and
    /// nothing at all on any other.
    pub open spec fn begin(self) -> (Phase, ActionView) {
        if self.phase == Phase::Ready {
            self.first_step()
        } else {
            (self.phase, ActionView::Idle)
        }
    }

    /// The step that ends the run in failure: with the error that packing
    /// gave, if it gave one, else with `error`, which holds the cause that
    /// came with the outcome.
    pub open spec fn failure(outcome: OutcomeView, error: ErrorView) -> (Phase, ActionView) {
        match outcome {
            OutcomeView::Rejected(e) => (Phase::Aborted, ActionView::Fail(e)),
            _ => (Phase::Aborted, ActionView::Fail(error)),
        }
    }

    /// The phase and the action that follow when the last action had the
    /// given outcome.
    pub open spec fn step(self, outcome: OutcomeView) -> (Phase, ActionView) {
        match self.phase {
            Phase::Ready => self.first_step(),
            Phase::Packing(i) => match outcome {
                OutcomeView::Done => if i >= 1 {
                    (Phase::Removing(i), ActionView::Remove { path: self.target(i - 1) })
                } else {
                    self.after_stage(i as int)
                },
                _ => Self::failure(
                    outcome,
                    ErrorView::CreateArchiveFile {
                        source: outcome.cause(),
                        path: self.target(i as int),
                    },
                ),
            },
            Phase::Removing(i) => match outcome {
                OutcomeView::Done => self.after_stage(i as int),
                _ => Self::failure(
                    outcome,
                    ErrorView::RemoveOldArchive {
                        source: outcome.cause(),
                        path: self.target(i - 1),
                    },
                ),
            },
            Phase::Renaming => match outcome {
                OutcomeView::Done => (Phase::Finished, ActionView::Done),
                OutcomeView::CrossDevice(_) => (
                    Phase::Copying,
                    ActionView::Copy { from: self.last_target(), to: self.output },
                ),
                _ => Self::failure(
                    outcome,
                    ErrorView::MoveFinalArchive {
                        source: outcome.cause(),
                        from: self.last_target(),
                        to: self.output,
                    },
                ),
            },
            Phase::Copying => match outcome {
                OutcomeView::Done => (
                    Phase::Unlinking,
                    ActionView::Remove { path: self.last_target() },
                ),
                _ => Self::failure(
                    outcome,
                    ErrorView::MoveFinalArchive {
                        source: outcome.cause(),
                        from: self.last_target(),
                        to: self.output,
                    },
                ),
            },
            Phase::Unlinking => match outcome {
                OutcomeView::Done => (Phase::Finished, ActionView::Done),
                _ => Self::failure(
                    outcome,
                    ErrorView::RemoveOldArchive {
                        source: outcome.cause(),
                        path: self.last_target(),
                    },
                ),
            },
            Phase::Finished => (Phase::Finished, ActionView::Idle),
            Phase::Aborted => (Phase::Aborted, ActionView::Idle),
        }
    }

    /// Whether the phase fits the stages: a stage that is being worked on
    /// exists, and the output is only moved when there is an archive to move.
    pub open spec fn phase_fits(self) -> bool {
        match self.phase {
            Phase::Packing(i) => i < self.stages.len(),
            Phase::Removing(i) => 1 <= i < self.stages.len(),
            Phase::Renaming | Phase::Copying | Phase::Unlinking => self.stages.len() >= 1,
            _ => true,
        }
    }
}

/// A run of a list of stages towards one output file.
pub struct Pipeline {
    stages: Vec<PackingStage>,
    file_name: String,
    stems: Vec<String>,
    targets: Vec<String>,
    output: String,
    phase: Phase,
}

impl View for Pipeline {
    type V = PipelineView;

    closed spec fn view(&self) -> PipelineView {
        PipelineView {
            stages: self.stages@,
            file_name: self.file_name@,
            output: self.output@,
            phase: self.phase,
        }
    }
}

impl Pipeline {
    /// The names of the archives are at hand, and the phase fits the stages.
    #[verifier::type_invariant]
    spec fn wf(&self) -> bool {
        &&& self.targets@.len() == self.stages@.len()
        &&& self.stems@.len() == self.stages@.len()
        &&& forall|i: int|
            0 <= i < self.targets@.len() ==> (#[trigger] self.targets@[i])@ == target_name(
                self.file_name@,
                self.stages@,
                i,
            )
        &&& forall|i: int|
            0 <= i < self.stems@.len() ==> (#[trigger] self.stems@[i])@ == stem_name(
                spec_base_name(self.file_name@),
                self.stages@,
                i,
            )
        &&& self@.phase_fits()
    }

    /// A run of `stages` that ends with the last archive at `output`, whose
    /// file name is `file_name`. Nothing has been asked for yet.
    pub fn new(stages: Vec<PackingStage>, file_name: &str, output: String) -> (r: Pipeline)
        ensures
            r@.phase_fits(),
            r@ == (PipelineView {
                stages: stages@,
                file_name: file_name@,
                output: output@,
                phase: Phase::Ready,
            }),
    {
        let base = base_name(file_name);
        let stems = stem_names(base.as_str(), &stages);
        let targets = target_names(file_name, &stages);
        Pipeline {
            stages,
            file_name: file_name.to_owned(),
            stems,
            targets,
            output,
            phase: Phase::Ready,
        }
    }

    /// Where the run stands.
    pub fn phase(&self) -> (r: Phase)
        ensures
            r == self@.phase,
    {
        self.phase
    }

    /// Whether the run is over, in success or in failure.
    pub fn is_over(&self) -> (r: bool)
        ensures
            r == (self@.phase == Phase::Finished || self@.phase == Phase::Aborted),
    {
        match self.phase {
            Phase::Finished => true,
            Phase::Aborted => true,
            _ => false,
        }
    }

    fn pack_of(&self, i: usize) -> (r: Action)
        requires
            i < self@.stages.len(),
        ensures
            r@ == self@.pack_action(i as int),
    {
        proof {
            use_type_invariant(self);
        }
        let input = if i == 0 {
            PackInput::Inputs
        } else {
            PackInput::Archive { path: self.targets[i - 1].clone(), name: self.stems[i - 1].clone() }
        };
        Action::Pack {
            format: self.stages[i].0,
            level: self.stages[i].1,
            input,
            target: self.targets[i].clone(),
        }
    }

    fn last(&self) -> (r: String)
        requires
            self@.stages.len() >= 1,
        ensures
            r@ == self@.last_target(),
    {
        proof {
            use_type_invariant(self);
        }
        self.targets[self.targets.len() - 1].clone()
    }

    fn next_after(&self, i: usize) -> (r: (Phase, Action))
        requires
            i < self@.stages.len(),
        ensures
            r.0 == self@.after_stage(i as int).0,
            r.1@ == self@.after_stage(i as int).1,
    {
        proof {
            use_type_invariant(self);
        }
        if i < self.stages.len() - 1 {
            (Phase::Packing(i + 1), self.pack_of(i + 1))
        } else {
            (Phase::Renaming, Action::Rename { from: self.last(), to: self.output.clone() })
        }
    }

    /// Names the first action. On a run that has begun already it names
    /// nothing and leaves the run where it stands.
    pub fn start(&mut self) -> (action: Action)
        ensures
            final(self)@.phase_fits(),
            final(self)@ == old(self)@.at(old(self)@.begin().0),
            action@ == old(self)@.begin().1,
    {
        proof {
            use_type_invariant(&*self);
        }
        match self.phase {
            Phase::Ready => self.advance(Outcome::Done),
            _ => Action::Idle,
        }
    }

    /// Takes the outcome of the last action and names the next one. Before
    /// the first action there is no outcome to look at, and none is looked at.
    pub fn advance(&mut self, outcome: Outcome) -> (action: Action)
        ensures
            final(self)@.phase_fits(),
            final(self)@ == old(self)@.at(old(self)@.step(outcome@).0),
            action@ == old(self)@.step(outcome@).1,
    {
        proof {
            use_type_invariant(&*self);
        }
        let (phase, action) = match self.phase {
            Phase::Ready => {
                if self.stages.len() == 0 {
                    (Phase::Finished, Action::Done)
                } else {
                    (Phase::Packing(0), self.pack_of(0))
                }
            },
            Phase::Packing(i) => match outcome {
                Outcome::Done => if i >= 1 {
                    (Phase::Removing(i), Action::Remove { path: self.targets[i - 1].clone() })
                } else {
                    self.next_after(i)
                },
                Outcome::Rejected(e) => (Phase::Aborted, Action::Fail(e)),
                Outcome::Failed(source) => (
                    Phase::Aborted,
                    Action::Fail(
                        Error::CreateArchiveFile { source, path: self.targets[i].clone() },
                    ),
                ),
                Outcome::CrossDevice(source) => (
                    Phase::Aborted,
                    Action::Fail(
                        Error::CreateArchiveFile { source, path: self.targets[i].clone() },
                    ),
                ),
            },
            Phase::Removing(i) => match outcome {
                Outcome::Done => self.next_after(i),
                Outcome::Rejected(e) => (Phase::Aborted, Action::Fail(e)),
                Outcome::Failed(source) => (
                    Phase::Aborted,
                    Action::Fail(
                        Error::RemoveOldArchive { source, path: self.targets[i - 1].clone() },
                    ),
                ),
                Outcome::CrossDevice(source) => (
                    Phase::Aborted,
                    Action::Fail(
                        Error::RemoveOldArchive { source, path: self.targets[i - 1].clone() },
                    ),
                ),
            },
            Phase::Renaming => match outcome {
                Outcome::Done => (Phase::Finished, Action::Done),
                Outcome::CrossDevice(_) => (
                    Phase::Copying,
                    Action::Copy { from: self.last(), to: self.output.clone() },
                ),
                Outcome::Rejected(e) => (Phase::Aborted, Action::Fail(e)),
                Outcome::Failed(source) => (
                    Phase::Aborted,
                    Action::Fail(
                        Error::MoveFinalArchive {
                            source,
                            from: self.last(),
                            to: self.output.clone(),
                        },
                    ),
                ),
            },
            Phase::Copying => match outcome {
                Outcome::Done => (Phase::Unlinking, Action::Remove { path: self.last() }),
                Outcome::Rejected(e) => (Phase::Aborted, Action::Fail(e)),
                Outcome::Failed(source) => (
                    Phase::Aborted,
                    Action::Fail(
                        Error::MoveFinalArchive {
                            source,
                            from: self.last(),
                            to: self.output.clone(),
                        },
                    ),
                ),
                Outcome::CrossDevice(source) => (
                    Phase::Aborted,
                    Action::Fail(
                        Error::MoveFinalArchive {
                            source,
                            from: self.last(),
                            to: self.output.clone(),
                        },
                    ),
                ),
            },
            Phase::Unlinking => match outcome {
                Outcome::Done => (Phase::Finished, Action::Done),
                Outcome::Rejected(e) => (Phase::Aborted, Action::Fail(e)),
                Outcome::Failed(source) => (
                    Phase::Aborted,
                    Action::Fail(Error::RemoveOldArchive { source, path: self.last() }),
                ),
                Outcome::CrossDevice(source) => (
                    Phase::Aborted,
                    Action::Fail(Error::RemoveOldArchive { source, path: self.last() }),
                ),
            },
            Phase::Finished => (Phase::Finished, Action::Idle),
            Phase::Aborted => (Phase::Aborted, Action::Idle),
        };
        self.phase = phase;
        action
    }
}

/// Resolves a request and sets up the run for it. Where the request cannot
/// be resolved there is no run, and so nothing that could touch a file.
pub fn pack(formats: &Vec<String>, levels: &Vec<String>, file_name: &str, output: String) -> (r:
    Result<Pipeline, Error>)
    ensures
        match resolved_stages(formats.deep_view(), levels.deep_view(), file_name@) {
            Ok(stages) => r is Ok && r->Ok_0@ == (PipelineView {
                stages,
                file_name: file_name@,
                output: output@,
                phase: Phase::Ready,
            }),
            Err(e) => r is Err && r->Err_0@ == e,
        },
        levels.len() > formats.len() ==> r is Err && r->Err_0@
            == ErrorView::MissingCompressionFormat,
{
    match resolve(formats, levels, file_name) {
        Ok(stages) => Ok(Pipeline::new(stages, file_name, output)),
        Err(e) => Err(e),
    }
}

} // verus!
