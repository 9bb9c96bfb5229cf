//! How the environment of a release build is prepared, step by step.

use vstd::prelude::*;
use vstd::utf8::encode_utf8;

use crate::bytes::{owned, read};
use crate::environment::Environment;
use crate::failure::{failure, Failure};
use crate::path::{components, joined};
use crate::pipeline::{
    answered, check_done, done_outcome, lemma_answers_stay, Act, Action, Event, Step,
};
use crate::release_build::{
    alias_directory, alias_directory_in, alias_outcome, build_environment, cargo_home_alias,
    cargo_home_alias_in, ensure_symlink, prepare_xcrun_wrapper, target_alias, target_alias_in,
    wrapper_directory, wrapper_directory_in, wrapper_in, wrapper_next, wrapper_path, AliasAction,
    AliasState, BuildEnvironment, Plan, ReleaseBuildEnvironment, ReleasePlan, WrapperState, WRAPPER,
    WRAPPER_MODE,
};
use crate::signatures::{lemma_resolved_stays, was_resolved};

verus! {

/// How far a preparation has come.
#[derive(Clone, Copy, Debug, PartialEq, Eq, Structural)]
pub enum PrepareStage {
    MakingTarget,
    ResolvingCargoHome,
    ResolvingTarget,
    /// The directory for the aliases is made.
    MakingAliases,
    LookingAtCargoHome,
    RemovingCargoHome,
    LinkingCargoHome,
    LookingAtTarget,
    RemovingTarget,
    LinkingTarget,
    MakingWrapperDirectory,
    /// The wrapper is put into its directory.
    Wrapping(WrapperState),
    Ready,
}

/// A preparation of a planned release build.
#[derive(Debug)]
pub struct Preparation {
    root: Vec<u8>,
    plan: ReleasePlan,
    /// The variables that the build starts from.
    variables: Environment,
    stage: PrepareStage,
    /// What Cargo's home and target directory resolve to.
    cargo_home: Vec<u8>,
    target: Vec<u8>,
    /// The environment of the build, once it is ready.
    environment: Option<ReleaseBuildEnvironment>,
}

/// The model of a `Preparation`.
#[verifier::ext_equal]
pub struct Preparing {
    pub root: Seq<u8>,
    pub plan: Plan,
    pub variables: Seq<(Seq<u8>, Seq<u8>)>,
    pub stage: PrepareStage,
    pub cargo_home: Seq<u8>,
    pub target: Seq<u8>,
    pub environment: Option<BuildEnvironment>,
}

/// The model of an environment that may not be ready.
pub open spec fn maybe_environment(environment: Option<ReleaseBuildEnvironment>) -> Option<
    BuildEnvironment,
> {
    match environment {
        Some(environment) => Some(environment@),
        None => None,
    }
}

impl View for Preparation {
    type V = Preparing;

    closed spec fn view(&self) -> Preparing {
        Preparing {
            root: self.root@,
            plan: self.plan@,
            variables: self.variables@,
            stage: self.stage,
            cargo_home: self.cargo_home@,
            target: self.target@,
            environment: maybe_environment(self.environment),
        }
    }
}

/// The model of a preparation that may not have begun.
pub open spec fn maybe_preparation(preparation: Option<Preparation>) -> Option<Preparing> {
    match preparation {
        Some(preparation) => Some(preparation@),
        None => None,
    }
}

/// The preparation before its first event.
pub open spec fn prepare_start(
    root: Seq<u8>,
    plan: Plan,
    variables: Seq<(Seq<u8>, Seq<u8>)>,
) -> Preparing {
    Preparing {
        root,
        plan,
        variables,
        stage: PrepareStage::MakingTarget,
        cargo_home: Seq::empty(),
        target: Seq::empty(),
        environment: None,
    }
}

/// The preparation at another stage.
pub open spec fn at(preparation: Preparing, stage: PrepareStage) -> Preparing {
    Preparing { stage, ..preparation }
}

/// The stage after a step that just has to be done.
pub open spec fn done_stage(stage: PrepareStage) -> PrepareStage {
    match stage {
        PrepareStage::MakingTarget => PrepareStage::ResolvingCargoHome,
        PrepareStage::MakingAliases => PrepareStage::LookingAtCargoHome,
        PrepareStage::RemovingCargoHome => PrepareStage::LinkingCargoHome,
        PrepareStage::LinkingCargoHome => PrepareStage::LookingAtTarget,
        PrepareStage::RemovingTarget => PrepareStage::LinkingTarget,
        PrepareStage::LinkingTarget => PrepareStage::MakingWrapperDirectory,
        PrepareStage::MakingWrapperDirectory => PrepareStage::Wrapping(WrapperState::Reading),
        _ => stage,
    }
}

/// The preparation after an event for the wrapper. Once that is ready, so is the environment.
pub open spec fn after_wrapper(
    preparation: Preparing,
    state: WrapperState,
    event: Event,
) -> Result<Preparing, Seq<char>> {
    match wrapper_next(wrapper_in(preparation.root), state, event) {
        Err(refusal) => Err(refusal),
        Ok(next) => if next != WrapperState::Ready {
            Ok(at(preparation, PrepareStage::Wrapping(next)))
        } else {
            match build_environment(
                preparation.plan,
                preparation.root,
                preparation.variables,
                preparation.cargo_home,
                preparation.target,
            ) {
                Err(refusal) => Err(refusal),
                Ok(environment) => Ok(
                    Preparing {
                        environment: Some(environment),
                        ..at(preparation, PrepareStage::Ready)
                    },
                ),
            }
        },
    }
}

/// The preparation after an event. Nothing but a link is ever removed.
pub open spec fn prepare_next(preparation: Preparing, event: Event) -> Result<
    Preparing,
    Seq<char>,
> {
    match (preparation.stage, event) {
        (PrepareStage::Wrapping(state), event) => after_wrapper(preparation, state, event),
        (PrepareStage::ResolvingCargoHome, Event::Resolved(resolved)) => match read(resolved) {
            Err(fault) => Err(fault),
            Ok(cargo_home) => Ok(
                Preparing { cargo_home, ..at(preparation, PrepareStage::ResolvingTarget) },
            ),
        },
        (PrepareStage::ResolvingTarget, Event::Resolved(resolved)) => match read(resolved) {
            Err(fault) => Err(fault),
            Ok(target) => Ok(
                Preparing { target, ..at(preparation, PrepareStage::MakingAliases) },
            ),
        },
        (PrepareStage::LookingAtCargoHome, Event::Alias(state)) => match alias_outcome(
            preparation.cargo_home,
            cargo_home_alias_in(preparation.root),
            state,
        ) {
            Err(refusal) => Err(refusal),
            Ok(AliasAction::Keep) => Ok(at(preparation, PrepareStage::LookingAtTarget)),
            Ok(AliasAction::Replace) => Ok(at(preparation, PrepareStage::RemovingCargoHome)),
            Ok(AliasAction::Create) => Ok(at(preparation, PrepareStage::LinkingCargoHome)),
        },
        (PrepareStage::LookingAtTarget, Event::Alias(state)) => match alias_outcome(
            preparation.target,
            target_alias_in(preparation.root),
            state,
        ) {
            Err(refusal) => Err(refusal),
            Ok(AliasAction::Keep) => Ok(at(preparation, PrepareStage::MakingWrapperDirectory)),
            Ok(AliasAction::Replace) => Ok(at(preparation, PrepareStage::RemovingTarget)),
            Ok(AliasAction::Create) => Ok(at(preparation, PrepareStage::LinkingTarget)),
        },
        (stage, Event::Done(done)) => if done_stage(stage) == stage {
            Ok(preparation)
        } else {
            match done_outcome(done) {
                Err(fault) => Err(fault),
                Ok(()) => Ok(at(preparation, done_stage(stage))),
            }
        },
        _ => Ok(preparation),
    }
}

/// What a preparation asks for.
pub open spec fn prepare_action(preparation: Preparing) -> Act {
    let root = preparation.root;
    match preparation.stage {
        PrepareStage::MakingTarget => Act::MakeDirectory(preparation.plan.target),
        PrepareStage::ResolvingCargoHome => Act::Resolve(preparation.plan.cargo_home),
        PrepareStage::ResolvingTarget => Act::Resolve(preparation.plan.target),
        PrepareStage::MakingAliases => Act::MakeDirectory(alias_directory_in(root)),
        PrepareStage::LookingAtCargoHome => Act::LookAtAlias(cargo_home_alias_in(root)),
        PrepareStage::RemovingCargoHome => Act::Remove(cargo_home_alias_in(root)),
        PrepareStage::LinkingCargoHome => Act::Link(
            preparation.cargo_home,
            cargo_home_alias_in(root),
        ),
        PrepareStage::LookingAtTarget => Act::LookAtAlias(target_alias_in(root)),
        PrepareStage::RemovingTarget => Act::Remove(target_alias_in(root)),
        PrepareStage::LinkingTarget => Act::Link(preparation.target, target_alias_in(root)),
        PrepareStage::MakingWrapperDirectory => Act::MakeDirectory(wrapper_directory_in(root)),
        PrepareStage::Wrapping(WrapperState::Reading) => Act::ReadIfThere(wrapper_in(root)),
        PrepareStage::Wrapping(WrapperState::Writing) => Act::Write(
            wrapper_in(root),
            encode_utf8(WRAPPER@),
        ),
        PrepareStage::Wrapping(WrapperState::Inspecting) => Act::Inspect(wrapper_in(root)),
        PrepareStage::Wrapping(WrapperState::MakingExecutable) => Act::SetMode(
            wrapper_in(root),
            WRAPPER_MODE,
        ),
        PrepareStage::Wrapping(WrapperState::Ready) => Act::Finish,
        PrepareStage::Ready => Act::Finish,
    }
}

/// A result with a preparation replaced by its model, and its refusal by its text.
pub open spec fn prepare_outcome(result: Result<Preparation, Failure>) -> Result<
    Preparing,
    Seq<char>,
> {
    match result {
        Ok(preparation) => Ok(preparation@),
        Err(refusal) => Err(refusal@),
    }
}

/// The stage after a step that just has to be done.
fn stage_after(stage: PrepareStage) -> (next: PrepareStage)
    ensures
        next == done_stage(stage),
{
    match stage {
        PrepareStage::MakingTarget => PrepareStage::ResolvingCargoHome,
        PrepareStage::MakingAliases => PrepareStage::LookingAtCargoHome,
        PrepareStage::RemovingCargoHome => PrepareStage::LinkingCargoHome,
        PrepareStage::LinkingCargoHome => PrepareStage::LookingAtTarget,
        PrepareStage::RemovingTarget => PrepareStage::LinkingTarget,
        PrepareStage::LinkingTarget => PrepareStage::MakingWrapperDirectory,
        PrepareStage::MakingWrapperDirectory => PrepareStage::Wrapping(WrapperState::Reading),
        _ => stage,
    }
}

impl Preparation {
    /// The preparation before its first event.
    pub fn start(root: &[u8], plan: ReleasePlan, environment: &Environment) -> (preparation: Self)
        ensures
            preparation@ == prepare_start(root@, plan@, environment@),
    {
        let ghost wanted = prepare_start(root@, plan@, environment@);
        let preparation = Preparation {
            root: owned(root),
            plan,
            variables: environment.copied(),
            stage: PrepareStage::MakingTarget,
            cargo_home: Vec::new(),
            target: Vec::new(),
            environment: None,
        };
        assert(preparation@ =~= wanted);
        preparation
    }

    /// How far the preparation has come.
    pub fn stage(&self) -> (stage: PrepareStage)
        ensures
            stage == self@.stage,
    {
        self.stage
    }

    /// The environment of the build, once it is ready.
    pub fn environment(&self) -> (environment: Option<&ReleaseBuildEnvironment>)
        ensures
            self@.environment == (match environment {
                Some(environment) => Some(environment@),
                None => None,
            }),
    {
        match &self.environment {
            Some(environment) => Some(environment),
            None => None,
        }
    }

    /// The file that the wrapper is.
    fn wrapper(&self) -> (path: Vec<u8>)
        ensures
            path@ == wrapper_in(self@.root),
    {
        wrapper_path(wrapper_directory(self.root.as_slice()).as_slice())
    }

    /// What the preparation asks for.
    pub fn action(&self) -> (action: Action)
        ensures
            action@ == prepare_action(self@),
    {
        let root = self.root.as_slice();
        match self.stage {
            PrepareStage::MakingTarget => Action::MakeDirectory(
                owned(self.plan.target.as_slice()),
            ),
            PrepareStage::ResolvingCargoHome => Action::Resolve(
                owned(self.plan.cargo_home.as_slice()),
            ),
            PrepareStage::ResolvingTarget => Action::Resolve(owned(self.plan.target.as_slice())),
            PrepareStage::MakingAliases => Action::MakeDirectory(alias_directory(root)),
            PrepareStage::LookingAtCargoHome => Action::LookAtAlias(cargo_home_alias(root)),
            PrepareStage::RemovingCargoHome => Action::Remove(cargo_home_alias(root)),
            PrepareStage::LinkingCargoHome => Action::Link(
                owned(self.cargo_home.as_slice()),
                cargo_home_alias(root),
            ),
            PrepareStage::LookingAtTarget => Action::LookAtAlias(target_alias(root)),
            PrepareStage::RemovingTarget => Action::Remove(target_alias(root)),
            PrepareStage::LinkingTarget => Action::Link(
                owned(self.target.as_slice()),
                target_alias(root),
            ),
            PrepareStage::MakingWrapperDirectory => Action::MakeDirectory(
                wrapper_directory(root),
            ),
            PrepareStage::Wrapping(WrapperState::Reading) => Action::ReadIfThere(self.wrapper()),
            PrepareStage::Wrapping(WrapperState::Writing) => Action::Write(
                self.wrapper(),
                owned(WRAPPER.as_bytes()),
            ),
            PrepareStage::Wrapping(WrapperState::Inspecting) => Action::Inspect(self.wrapper()),
            PrepareStage::Wrapping(WrapperState::MakingExecutable) => Action::SetMode(
                self.wrapper(),
                WRAPPER_MODE,
            ),
            PrepareStage::Wrapping(WrapperState::Ready) => Action::Finish,
            PrepareStage::Ready => Action::Finish,
        }
    }

    /// The preparation at another stage.
    fn moved(self, stage: PrepareStage) -> (preparation: Self)
        ensures
            preparation@ == at(self@, stage),
    {
        let ghost before = self@;
        let preparation = Preparation { stage, ..self };
        assert(preparation@ =~= at(before, stage));
        preparation
    }

    /// The preparation after an event for the wrapper.
    fn with_wrapper(self, state: WrapperState, event: &Event) -> (result: Result<Self, Failure>)
        ensures
            prepare_outcome(result) == after_wrapper(self@, state, *event),
    {
        let next = match prepare_xcrun_wrapper(self.wrapper().as_slice(), state, event) {
            Ok(next) => next,
            Err(refusal) => return Err(refusal),
        };
        if next != WrapperState::Ready {
            return Ok(self.moved(PrepareStage::Wrapping(next)));
        }
        match ReleaseBuildEnvironment::new(
            &self.plan,
            self.root.as_slice(),
            &self.variables,
            self.cargo_home.as_slice(),
            self.target.as_slice(),
        ) {
            Ok(environment) => {
                let mut preparation = self.moved(PrepareStage::Ready);
                preparation.environment = Some(environment);
                Ok(preparation)
            },
            Err(refusal) => Err(refusal),
        }
    }

    /// The preparation after an alias is decided on.
    fn with_alias(
        self,
        decided: Result<AliasAction, Failure>,
        kept: PrepareStage,
        removing: PrepareStage,
        linking: PrepareStage,
    ) -> (result: Result<Self, Failure>)
        ensures
            prepare_outcome(result) == (match decided {
                Err(refusal) => Err(refusal@),
                Ok(AliasAction::Keep) => Ok(at(self@, kept)),
                Ok(AliasAction::Replace) => Ok(at(self@, removing)),
                Ok(AliasAction::Create) => Ok(at(self@, linking)),
            }),
    {
        match decided {
            Err(refusal) => Err(refusal),
            Ok(AliasAction::Keep) => Ok(self.moved(kept)),
            Ok(AliasAction::Replace) => Ok(self.moved(removing)),
            Ok(AliasAction::Create) => Ok(self.moved(linking)),
        }
    }

    /// The preparation after a path was resolved for it.
    fn with_resolved(self, resolved: &Result<Vec<u8>, String>) -> (result: Result<Self, Failure>)
        requires
            self@.stage == PrepareStage::ResolvingCargoHome || self@.stage
                == PrepareStage::ResolvingTarget,
        ensures
            prepare_outcome(result) == prepare_next(self@, Event::Resolved(*resolved)),
    {
        let place = match resolved {
            Ok(place) => place,
            Err(fault) => return Err(failure(fault.as_str())),
        };
        if self.stage == PrepareStage::ResolvingCargoHome {
            let mut preparation = self.moved(PrepareStage::ResolvingTarget);
            preparation.cargo_home = owned(place.as_slice());
            Ok(preparation)
        } else {
            let mut preparation = self.moved(PrepareStage::MakingAliases);
            preparation.target = owned(place.as_slice());
            Ok(preparation)
        }
    }

    /// The preparation after a step was done for it.
    fn with_done(self, done: &Result<(), String>) -> (result: Result<Self, Failure>)
        requires
            !(self@.stage is Wrapping),
        ensures
            prepare_outcome(result) == prepare_next(self@, Event::Done(*done)),
    {
        let next = stage_after(self.stage);
        if next == self.stage {
            return Ok(self);
        }
        match check_done(done) {
            Ok(()) => Ok(self.moved(next)),
            Err(refusal) => Err(refusal),
        }
    }

    /// The preparation after an event.
    pub fn advance(self, event: &Event) -> (result: Result<Self, Failure>)
        ensures
            prepare_outcome(result) == prepare_next(self@, *event),
    {
        match (self.stage, event) {
            (PrepareStage::Wrapping(state), _) => self.with_wrapper(state, event),
            (PrepareStage::ResolvingCargoHome, Event::Resolved(resolved)) => self.with_resolved(
                resolved,
            ),
            (PrepareStage::ResolvingTarget, Event::Resolved(resolved)) => self.with_resolved(
                resolved,
            ),
            (PrepareStage::LookingAtCargoHome, Event::Alias(state)) => {
                let alias = cargo_home_alias(self.root.as_slice());
                let decided = ensure_symlink(
                    self.cargo_home.as_slice(),
                    alias.as_slice(),
                    state,
                );
                self.with_alias(
                    decided,
                    PrepareStage::LookingAtTarget,
                    PrepareStage::RemovingCargoHome,
                    PrepareStage::LinkingCargoHome,
                )
            },
            (PrepareStage::LookingAtTarget, Event::Alias(state)) => {
                let alias = target_alias(self.root.as_slice());
                let decided = ensure_symlink(self.target.as_slice(), alias.as_slice(), state);
                self.with_alias(
                    decided,
                    PrepareStage::MakingWrapperDirectory,
                    PrepareStage::RemovingTarget,
                    PrepareStage::LinkingTarget,
                )
            },
            (_, Event::Done(done)) => self.with_done(done),
            _ => Ok(self),
        }
    }
}

/// Whether the wrapper was found to hold the script, or was written.
#[verifier::opaque]
pub open spec fn wrapper_was_placed(trace: Seq<Step>, root: Seq<u8>) -> bool {
    ||| exists|came: Event| #[trigger]
        answered(trace, Act::ReadIfThere(wrapper_in(root)), came) && (
        came matches Event::Found(Ok(Some(contents))) && contents@ == encode_utf8(WRAPPER@))
    ||| exists|came: Event| #[trigger]
        answered(trace, Act::Write(wrapper_in(root), encode_utf8(WRAPPER@)), came) && (
        came matches Event::Done(Ok(())))
}

/// Whether the wrapper was made executable.
#[verifier::opaque]
pub open spec fn wrapper_was_made_executable(trace: Seq<Step>, root: Seq<u8>) -> bool {
    exists|came: Event| #[trigger]
        answered(trace, Act::SetMode(wrapper_in(root), WRAPPER_MODE), came) && (
        came matches Event::Done(Ok(())))
}

/// Whether a stage comes before Cargo's target directory was resolved.
pub open spec fn before_target(stage: PrepareStage) -> bool {
    ||| stage == PrepareStage::MakingTarget
    ||| stage == PrepareStage::ResolvingCargoHome
    ||| stage == PrepareStage::ResolvingTarget
}

/// Whether a stage comes after the wrapper is in its place.
pub open spec fn past_wrapper(stage: PrepareStage) -> bool {
    ||| stage == PrepareStage::Wrapping(WrapperState::Inspecting)
    ||| stage == PrepareStage::Wrapping(WrapperState::MakingExecutable)
    ||| stage == PrepareStage::Ready
}

/// What holds of a preparation that has come so far by this trace.
#[verifier::opaque]
pub open spec fn prepare_holds(trace: Seq<Step>, preparation: Preparing) -> bool {
    let stage = preparation.stage;
    &&& stage == PrepareStage::ResolvingTarget || !before_target(stage) ==> was_resolved(
        trace,
        preparation.plan.cargo_home,
        preparation.cargo_home,
    )
    &&& !before_target(stage) ==> was_resolved(
        trace,
        preparation.plan.target,
        preparation.target,
    )
    &&& past_wrapper(stage) ==> wrapper_was_placed(trace, preparation.root)
    &&& stage != PrepareStage::Wrapping(WrapperState::Ready)
    &&& stage == PrepareStage::Ready ==> wrapper_was_made_executable(trace, preparation.root)
    &&& stage == PrepareStage::Ready <==> preparation.environment is Some
    &&& preparation.environment matches Some(environment) ==> build_environment(
        preparation.plan,
        preparation.root,
        preparation.variables,
        preparation.cargo_home,
        preparation.target,
    ) == Ok::<BuildEnvironment, Seq<char>>(environment)
}

/// One more step takes nothing back.
pub proof fn lemma_prepare_stays(trace: Seq<Step>, step: Step, preparation: Preparing)
    requires
        prepare_holds(trace, preparation),
    ensures
        prepare_holds(trace.push(step), preparation),
{
    reveal(prepare_holds);
    let after = trace.push(step);
    let stage = preparation.stage;
    let root = preparation.root;
    if stage == PrepareStage::ResolvingTarget || !before_target(stage) {
        lemma_resolved_stays(trace, step, preparation.plan.cargo_home, preparation.cargo_home);
    }
    if !before_target(stage) {
        lemma_resolved_stays(trace, step, preparation.plan.target, preparation.target);
    }
    if past_wrapper(stage) {
        assert(wrapper_was_placed(after, root)) by {
            reveal(wrapper_was_placed);
            lemma_answers_stay(trace, step);
        }
    }
    if stage == PrepareStage::Ready {
        assert(wrapper_was_made_executable(after, root)) by {
            reveal(wrapper_was_made_executable);
            lemma_answers_stay(trace, step);
        }
    }
}

/// What holds of a preparation holds after the next step as well.
pub proof fn lemma_prepare_step(trace: Seq<Step>, step: Step, preparation: Preparing)
    requires
        prepare_holds(trace, preparation),
        step.asked == prepare_action(preparation),
        prepare_next(preparation, step.came) is Ok,
    ensures
        prepare_holds(trace.push(step), prepare_next(preparation, step.came)->Ok_0),
{
    reveal(prepare_holds);
    let after = trace.push(step);
    let next = prepare_next(preparation, step.came)->Ok_0;
    lemma_prepare_stays(trace, step, preparation);
    assert(answered(after, prepare_action(preparation), step.came)) by {
        lemma_answers_stay(trace, step);
    }
    match (preparation.stage, step.came) {
        (PrepareStage::ResolvingCargoHome, Event::Resolved(Ok(found))) => {
            assert(was_resolved(after, preparation.plan.cargo_home, found@)) by {
                reveal(was_resolved);
            }
        },
        (PrepareStage::ResolvingTarget, Event::Resolved(Ok(found))) => {
            assert(was_resolved(after, preparation.plan.target, found@)) by {
                reveal(was_resolved);
            }
        },
        (PrepareStage::Wrapping(state), _) => {
            if past_wrapper(next.stage) && !past_wrapper(preparation.stage) {
                assert(wrapper_was_placed(after, preparation.root)) by {
                    reveal(wrapper_was_placed);
                }
            }
            if next.stage == PrepareStage::Ready {
                assert(wrapper_was_made_executable(after, preparation.root)) by {
                    reveal(wrapper_was_made_executable);
                }
            }
        },
        _ => {},
    }
}

/// No event changes what is prepared, and an environment is there once all is ready.
pub proof fn lemma_prepare_keeps(trace: Seq<Step>, preparation: Preparing, event: Event)
    requires
        prepare_holds(trace, preparation),
        prepare_next(preparation, event) is Ok,
    ensures
        ({
            let next = prepare_next(preparation, event)->Ok_0;
            &&& next.root == preparation.root && next.plan == preparation.plan
            &&& next.variables == preparation.variables
            &&& next.stage == PrepareStage::Ready <==> next.environment is Some
        }),
{
    reveal(prepare_holds);
}

/// A preparation that has just begun claims nothing.
pub proof fn lemma_prepare_starts(
    trace: Seq<Step>,
    root: Seq<u8>,
    plan: Plan,
    variables: Seq<(Seq<u8>, Seq<u8>)>,
)
    ensures
        prepare_holds(trace, prepare_start(root, plan, variables)),
{
    reveal(prepare_holds);
}

/// Whether a stage is one at which the alias of Cargo's home is settled.
pub open spec fn settles_cargo_home(stage: PrepareStage) -> bool {
    stage == PrepareStage::LookingAtCargoHome || stage == PrepareStage::RemovingCargoHome || stage
        == PrepareStage::LinkingCargoHome
}

/// Whether a stage is one at which the alias of Cargo's target directory is settled.
pub open spec fn settles_target(stage: PrepareStage) -> bool {
    stage == PrepareStage::LookingAtTarget || stage == PrepareStage::RemovingTarget || stage
        == PrepareStage::LinkingTarget
}

/// Whether an event says that an alias links to this place.
pub open spec fn links_to(event: Event, place: Seq<u8>) -> bool {
    event matches Event::Alias(AliasState::Link(Ok(linked))) && components(linked@) == components(
        place,
    )
}

/// Whether an event says that an alias links to another place.
pub open spec fn links_elsewhere(event: Event, place: Seq<u8>) -> bool {
    event matches Event::Alias(AliasState::Link(Ok(linked))) && components(linked@) != components(
        place,
    )
}

/// Whether an event says that nothing stands at the place of an alias.
pub open spec fn is_missing(event: Event) -> bool {
    event matches Event::Alias(state) && state is Missing
}

/// Whether an event says that what was asked for was done.
pub open spec fn is_done(event: Event) -> bool {
    event matches Event::Done(done) && done is Ok
}

/// The alias of Cargo's home is settled before that of its target directory, and both before the wrapper.
/// One is settled where it was found to link to what its directory resolves to, or was made to; it is
/// removed only where it was found to link elsewhere.
pub proof fn law_aliases_are_settled(preparation: Preparing, event: Event)
    requires
        prepare_next(preparation, event) is Ok,
    ensures
        ({
            let next = prepare_next(preparation, event)->Ok_0;
            let aliases = joined(preparation.root, encode_utf8(".neo-release"@));
            let cargo_home = joined(aliases, encode_utf8("cargo"@));
            let target = joined(aliases, encode_utf8("target"@));
            &&& settles_cargo_home(next.stage) && !settles_cargo_home(preparation.stage)
                ==> preparation.stage == PrepareStage::MakingAliases && is_done(event)
                && next.stage == PrepareStage::LookingAtCargoHome
            &&& settles_cargo_home(preparation.stage) && !settles_cargo_home(next.stage) ==> {
                &&& next.stage == PrepareStage::LookingAtTarget
                &&& links_to(event, preparation.cargo_home) || is_done(event)
                    && prepare_action(preparation) == Act::Link(preparation.cargo_home, cargo_home)
            }
            &&& settles_target(next.stage) && !settles_target(preparation.stage)
                ==> settles_cargo_home(preparation.stage)
            &&& settles_target(preparation.stage) && !settles_target(next.stage) ==> {
                &&& next.stage == PrepareStage::MakingWrapperDirectory
                &&& links_to(event, preparation.target) || is_done(event)
                    && prepare_action(preparation) == Act::Link(preparation.target, target)
            }
            &&& next.stage == PrepareStage::MakingWrapperDirectory && preparation.stage
                != PrepareStage::MakingWrapperDirectory ==> settles_target(preparation.stage)
            &&& next.stage == PrepareStage::RemovingCargoHome && preparation.stage
                != PrepareStage::RemovingCargoHome ==> links_elsewhere(event, preparation.cargo_home)
                && prepare_action(next) == Act::Remove(cargo_home)
            &&& next.stage == PrepareStage::RemovingTarget && preparation.stage
                != PrepareStage::RemovingTarget ==> links_elsewhere(event, preparation.target)
                && prepare_action(next) == Act::Remove(target)
            &&& next.stage == PrepareStage::LinkingCargoHome && preparation.stage
                != PrepareStage::LinkingCargoHome ==> is_missing(event)
                || preparation.stage == PrepareStage::RemovingCargoHome && is_done(event)
            &&& next.stage == PrepareStage::LinkingTarget && preparation.stage
                != PrepareStage::LinkingTarget ==> is_missing(event)
                || preparation.stage == PrepareStage::RemovingTarget && is_done(event)
            &&& next.plan == preparation.plan && next.root == preparation.root
        }),
{
}

/// What a preparation asks for at its stages: the target directory is made before it is resolved, and the
/// wrapper is read, written with the script, inspected and made executable in its directory.
pub proof fn law_what_preparations_ask_for(preparation: Preparing)
    ensures
        ({
            let asked = prepare_action(preparation);
            let stage = preparation.stage;
            let aliases = joined(preparation.root, encode_utf8(".neo-release"@));
            let directory = joined(aliases, encode_utf8("bin"@));
            let wrapper = joined(directory, encode_utf8("xcrun"@));
            &&& stage == PrepareStage::MakingTarget ==> asked == Act::MakeDirectory(
                preparation.plan.target,
            )
            &&& stage == PrepareStage::ResolvingCargoHome ==> asked == Act::Resolve(
                preparation.plan.cargo_home,
            )
            &&& stage == PrepareStage::ResolvingTarget ==> asked == Act::Resolve(
                preparation.plan.target,
            )
            &&& stage == PrepareStage::MakingAliases ==> asked == Act::MakeDirectory(aliases)
            &&& stage == PrepareStage::LookingAtCargoHome ==> asked == Act::LookAtAlias(
                joined(aliases, encode_utf8("cargo"@)),
            )
            &&& stage == PrepareStage::LookingAtTarget ==> asked == Act::LookAtAlias(
                joined(aliases, encode_utf8("target"@)),
            )
            &&& stage == PrepareStage::MakingWrapperDirectory ==> asked == Act::MakeDirectory(
                directory,
            )
            &&& stage == PrepareStage::Wrapping(WrapperState::Reading) ==> asked
                == Act::ReadIfThere(wrapper)
            &&& stage == PrepareStage::Wrapping(WrapperState::Writing) ==> asked == Act::Write(
                wrapper,
                encode_utf8(WRAPPER@),
            )
            &&& stage == PrepareStage::Wrapping(WrapperState::Inspecting) ==> asked == Act::Inspect(
                wrapper,
            )
            &&& stage == PrepareStage::Wrapping(WrapperState::MakingExecutable) ==> asked
                == Act::SetMode(wrapper, 493)
            &&& stage == PrepareStage::Ready ==> asked == Act::Finish
        }),
{
    assert(WRAPPER_MODE == 493);
}

/// A preparation starts with the target directory, resolves Cargo's directories, and goes on one step at
/// a time; a step that failed is a refusal.
pub proof fn law_preparations_go_step_by_step(preparation: Preparing, fault: String, place: Vec<u8>)
    ensures
        preparation.stage == PrepareStage::MakingTarget ==> prepare_next(
            preparation,
            Event::Done(Ok(())),
        ) == Ok::<Preparing, Seq<char>>(
            (Preparing { stage: PrepareStage::ResolvingCargoHome, ..preparation }),
        ),
        preparation.stage == PrepareStage::ResolvingCargoHome ==> prepare_next(
            preparation,
            Event::Resolved(Ok(place)),
        ) == Ok::<Preparing, Seq<char>>(
            (Preparing {
                stage: PrepareStage::ResolvingTarget,
                cargo_home: place@,
                ..preparation
            }),
        ),
        preparation.stage == PrepareStage::ResolvingTarget ==> prepare_next(
            preparation,
            Event::Resolved(Ok(place)),
        ) == Ok::<Preparing, Seq<char>>(
            (Preparing { stage: PrepareStage::MakingAliases, target: place@, ..preparation }),
        ),
        preparation.stage == PrepareStage::MakingWrapperDirectory ==> prepare_next(
            preparation,
            Event::Done(Ok(())),
        ) == Ok::<Preparing, Seq<char>>(
            (Preparing { stage: PrepareStage::Wrapping(WrapperState::Reading), ..preparation }),
        ),
        preparation.stage == PrepareStage::ResolvingCargoHome || preparation.stage
            == PrepareStage::ResolvingTarget ==> prepare_next(
            preparation,
            Event::Resolved(Err(fault)),
        ) == Err::<Preparing, Seq<char>>(fault@),
        preparation.stage == PrepareStage::MakingTarget || preparation.stage
            == PrepareStage::MakingAliases || preparation.stage == PrepareStage::RemovingCargoHome
            || preparation.stage == PrepareStage::LinkingCargoHome || preparation.stage
            == PrepareStage::RemovingTarget || preparation.stage == PrepareStage::LinkingTarget
            || preparation.stage == PrepareStage::MakingWrapperDirectory ==> prepare_next(
            preparation,
            Event::Done(Err(fault)),
        ) == Err::<Preparing, Seq<char>>(fault@),
{
}

} // verus!
