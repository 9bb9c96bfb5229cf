//! The check of all signatures of an app, one item after the other.

use vstd::prelude::*;
use vstd::utf8::encode_utf8;

use crate::bytes::{byte_strings, owned, read};
use crate::command::{attempt, CommandOutput};
use crate::encoding::lossy;
use crate::failure::{failure, Failure};
use crate::nested::{known_entries, nested_code, nested_outcome, Entry};
use crate::path::{below, components, is_same_place, same_place};
use crate::pipeline::{answered, lemma_answers_stay, Act, Action, Event, Manner, Step};
use crate::signing::{
    details_call, details_command, details_of, executable_of, item_outcome, placement_outcome,
    require_placement, signature_details, signature_outcome, signed_executable,
    validate_signature_details,
};
use crate::text::{first_after, text_lines};

verus! {

/// How far a check has come.
#[derive(Clone, Copy, Debug, PartialEq, Eq, Structural)]
pub enum CheckStage {
    /// The app is listed.
    Listing,
    /// The signature of the next item is looked at.
    Inspecting,
    /// The executable that the signature of the app names is resolved.
    ResolvingExecutable,
    /// The app is resolved.
    ResolvingApp,
    Done,
}

/// A check of all signatures of an app: those of its nested code, and its own last.
#[derive(Debug)]
pub struct SignatureCheck {
    app: Vec<u8>,
    /// The identifier of the app.
    identifier: String,
    /// The team that must have signed.
    team: String,
    stage: CheckStage,
    /// What must be signed: the nested code, innermost first, and the app last.
    items: Vec<Vec<u8>>,
    /// The number of items that were accepted.
    accepted: usize,
    /// The executable that the signature of the app names.
    named: String,
    /// What that resolves to.
    executable: Vec<u8>,
}

/// The model of a `SignatureCheck`.
#[verifier::ext_equal]
pub struct Checking {
    pub app: Seq<u8>,
    pub identifier: Seq<char>,
    pub team: Seq<char>,
    pub stage: CheckStage,
    pub items: Seq<Seq<u8>>,
    pub accepted: nat,
    pub named: Seq<char>,
    pub executable: Seq<u8>,
}

impl View for SignatureCheck {
    type V = Checking;

    closed spec fn view(&self) -> Checking {
        Checking {
            app: self.app@,
            identifier: self.identifier@,
            team: self.team@,
            stage: self.stage,
            items: byte_strings(self.items@),
            accepted: self.accepted as nat,
            named: self.named@,
            executable: self.executable@,
        }
    }
}

/// The model of a check that may not have begun.
pub open spec fn maybe_check(check: Option<SignatureCheck>) -> Option<Checking> {
    match check {
        Some(check) => Some(check@),
        None => None,
    }
}

/// The check before its first event.
pub open spec fn check_start(app: Seq<u8>, identifier: Seq<char>, team: Seq<char>) -> Checking {
    Checking {
        app,
        identifier,
        team,
        stage: CheckStage::Listing,
        items: Seq::empty(),
        accepted: 0,
        named: Seq::empty(),
        executable: Seq::empty(),
    }
}

/// The identifier that the signature of an item must name: that of the app, for the app.
pub open spec fn identifier_for(app: Seq<u8>, identifier: Seq<char>, item: Seq<u8>) -> Option<
    Seq<char>,
> {
    if same_place(item, app) {
        Some(identifier)
    } else {
        None
    }
}

/// The check after one more item was accepted.
pub open spec fn with_accepted(check: Checking) -> Checking {
    Checking {
        accepted: check.accepted + 1,
        stage: if check.accepted + 1 < check.items.len() {
            CheckStage::Inspecting
        } else {
            CheckStage::Done
        },
        ..check
    }
}

/// The check after the signature of its next item was looked at.
pub open spec fn after_inspection(
    check: Checking,
    attempted: Result<CommandOutput, String>,
) -> Result<Checking, Seq<char>> {
    let item = check.items[check.accepted as int];
    match details_of(item, attempt(attempted)) {
        Err(refusal) => Err(refusal),
        Ok(details) => match signature_outcome(
            details,
            identifier_for(check.app, check.identifier, item),
            check.team,
        ) {
            Err(refusal) => Err(refusal),
            Ok(()) => if !same_place(item, check.app) {
                Ok(with_accepted(check))
            } else {
                match executable_of(details) {
                    Err(refusal) => Err(refusal),
                    Ok(named) => Ok(
                        Checking { named, stage: CheckStage::ResolvingExecutable, ..check },
                    ),
                }
            },
        },
    }
}

/// The check after an event. The app must have its own identifier and an executable inside itself.
pub open spec fn check_next(check: Checking, event: Event) -> Result<Checking, Seq<char>> {
    match (check.stage, event) {
        (CheckStage::Listing, Event::Entries(entries)) => match nested_outcome(
            check.app,
            known_entries(entries),
        ) {
            Err(refusal) => Err(refusal),
            Ok(paths) => Ok(
                Checking {
                    items: paths.push(check.app),
                    accepted: 0,
                    stage: CheckStage::Inspecting,
                    ..check
                },
            ),
        },
        (CheckStage::Inspecting, Event::Ran(attempted)) => if check.accepted < check.items.len() {
            after_inspection(check, attempted)
        } else {
            Ok(check)
        },
        (CheckStage::ResolvingExecutable, Event::Resolved(resolved)) => match read(resolved) {
            Err(fault) => Err(fault),
            Ok(executable) => Ok(
                Checking { executable, stage: CheckStage::ResolvingApp, ..check },
            ),
        },
        (CheckStage::ResolvingApp, Event::Resolved(resolved)) => if check.accepted
            < check.items.len() {
            match placement_outcome(Ok(check.executable), read(resolved)) {
                Err(refusal) => Err(refusal),
                Ok(()) => Ok(with_accepted(check)),
            }
        } else {
            Ok(check)
        },
        _ => Ok(check),
    }
}

/// What a check asks for.
pub open spec fn check_action(check: Checking) -> Act {
    match check.stage {
        CheckStage::Listing => Act::List(check.app),
        CheckStage::Inspecting => if check.accepted < check.items.len() {
            Act::Run(details_call(check.items[check.accepted as int]), Manner::Quiet)
        } else {
            Act::Finish
        },
        CheckStage::ResolvingExecutable => Act::Resolve(encode_utf8(check.named)),
        CheckStage::ResolvingApp => Act::Resolve(check.app),
        CheckStage::Done => Act::Finish,
    }
}

/// A result with a check replaced by its model, and its refusal by its text.
pub open spec fn check_outcome(result: Result<SignatureCheck, Failure>) -> Result<
    Checking,
    Seq<char>,
> {
    match result {
        Ok(check) => Ok(check@),
        Err(refusal) => Err(refusal@),
    }
}

impl SignatureCheck {
    /// The check before its first event.
    pub fn start(app: &[u8], identifier: &str, team: &str) -> (check: Self)
        ensures
            check@ == check_start(app@, identifier@, team@),
    {
        let check = SignatureCheck {
            app: owned(app),
            identifier: identifier.to_string(),
            team: team.to_string(),
            stage: CheckStage::Listing,
            items: Vec::new(),
            accepted: 0,
            named: String::new(),
            executable: Vec::new(),
        };
        assert(check@ =~= check_start(app@, identifier@, team@));
        check
    }

    /// How far the check has come.
    pub fn stage(&self) -> (stage: CheckStage)
        ensures
            stage == self@.stage,
    {
        self.stage
    }

    /// What the check asks for.
    pub fn action(&self) -> (action: Action)
        ensures
            action@ == check_action(self@),
    {
        match self.stage {
            CheckStage::Listing => Action::List(owned(self.app.as_slice())),
            CheckStage::Inspecting => if self.accepted < self.items.len() {
                assert(self@.items[self.accepted as int] == self.items@[self.accepted as int]@);
                Action::Run(
                    details_command(self.items[self.accepted].as_slice()),
                    Manner::Quiet,
                )
            } else {
                Action::Finish
            },
            CheckStage::ResolvingExecutable => Action::Resolve(
                owned(self.named.as_str().as_bytes()),
            ),
            CheckStage::ResolvingApp => Action::Resolve(owned(self.app.as_slice())),
            CheckStage::Done => Action::Finish,
        }
    }

    /// The check after one more item was accepted.
    fn accept(self) -> (check: Self)
        requires
            self.accepted < self.items@.len(),
        ensures
            check@ == with_accepted(self@),
    {
        let ghost before = self@;
        let length = self.items.len();
        let mut check = self;
        check.accepted = check.accepted + 1;
        check.stage = if check.accepted < length {
            CheckStage::Inspecting
        } else {
            CheckStage::Done
        };
        assert(check@ =~= with_accepted(before));
        check
    }

    /// The check after the app was listed.
    fn with_entries(self, entries: &Result<Vec<Entry>, String>) -> (result: Result<Self, Failure>)
        requires
            self.stage == CheckStage::Listing,
        ensures
            check_outcome(result) == check_next(self@, Event::Entries(*entries)),
    {
        let ghost before = self@;
        match nested_code(self.app.as_slice(), entries) {
            Ok(paths) => {
                let ghost found = byte_strings(paths@);
                let mut items = paths;
                items.push(owned(self.app.as_slice()));
                assert(byte_strings(items@) == found.push(self.app@));
                let check = SignatureCheck {
                    items,
                    accepted: 0,
                    stage: CheckStage::Inspecting,
                    ..self
                };
                assert(check@ =~= check_next(before, Event::Entries(*entries))->Ok_0);
                Ok(check)
            },
            Err(refusal) => Err(refusal),
        }
    }

    /// The check after the signature of its next item was looked at.
    fn with_signature(self, attempted: &Result<CommandOutput, String>) -> (result: Result<
        Self,
        Failure,
    >)
        requires
            self.stage == CheckStage::Inspecting,
            self.accepted < self.items@.len(),
        ensures
            check_outcome(result) == after_inspection(self@, *attempted),
    {
        let ghost before = self@;
        assert(self@.items[self.accepted as int] == self.items@[self.accepted as int]@);
        let item = self.items[self.accepted].as_slice();
        let is_app = is_same_place(item, self.app.as_slice());
        let details = match signature_details(item, attempted) {
            Ok(details) => details,
            Err(refusal) => return Err(refusal),
        };
        let expected = if is_app {
            Some(self.identifier.as_str())
        } else {
            None
        };
        match validate_signature_details(details.as_str(), expected, self.team.as_str()) {
            Ok(()) => {},
            Err(refusal) => return Err(refusal),
        }
        if !is_app {
            return Ok(self.accept());
        }
        match signed_executable(details.as_str()) {
            Ok(named) => {
                let ghost text = named@;
                let check = SignatureCheck {
                    named,
                    stage: CheckStage::ResolvingExecutable,
                    ..self
                };
                assert(check@ =~= (Checking {
                    named: text,
                    stage: CheckStage::ResolvingExecutable,
                    ..before
                }));
                Ok(check)
            },
            Err(refusal) => Err(refusal),
        }
    }

    /// The check after a path was resolved for it.
    fn with_resolved(self, resolved: &Result<Vec<u8>, String>) -> (result: Result<Self, Failure>)
        ensures
            check_outcome(result) == check_next(self@, Event::Resolved(*resolved)),
    {
        let ghost before = self@;
        match self.stage {
            CheckStage::ResolvingExecutable => match resolved {
                Ok(executable) => {
                    let check = SignatureCheck {
                        executable: owned(executable.as_slice()),
                        stage: CheckStage::ResolvingApp,
                        ..self
                    };
                    assert(check@ =~= check_next(before, Event::Resolved(*resolved))->Ok_0);
                    Ok(check)
                },
                Err(fault) => Err(failure(fault.as_str())),
            },
            CheckStage::ResolvingApp => {
                if self.accepted >= self.items.len() {
                    return Ok(self);
                }
                match resolved {
                    Ok(app) => match require_placement(
                        self.executable.as_slice(),
                        app.as_slice(),
                    ) {
                        Ok(()) => Ok(self.accept()),
                        Err(refusal) => Err(refusal),
                    },
                    Err(fault) => Err(failure(fault.as_str())),
                }
            },
            _ => Ok(self),
        }
    }

    /// The check after an event.
    pub fn advance(self, event: &Event) -> (result: Result<Self, Failure>)
        ensures
            check_outcome(result) == check_next(self@, *event),
    {
        match (self.stage, event) {
            (CheckStage::Listing, Event::Entries(entries)) => self.with_entries(entries),
            (CheckStage::Inspecting, Event::Ran(attempted)) => if self.accepted
                < self.items.len() {
                self.with_signature(attempted)
            } else {
                Ok(self)
            },
            (_, Event::Resolved(resolved)) => self.with_resolved(resolved),
            _ => Ok(self),
        }
    }
}

/// Whether the app was listed, and `items` is what must be signed by that.
#[verifier::opaque]
pub open spec fn was_listed(trace: Seq<Step>, app: Seq<u8>, items: Seq<Seq<u8>>) -> bool {
    exists|came: Event| #[trigger]
        answered(trace, Act::List(app), came) && (came matches Event::Entries(entries)
            && nested_outcome(app, known_entries(entries)) == Ok::<Seq<Seq<u8>>, Seq<char>>(
            items.drop_last(),
        ) && items.len() > 0 && items.last() == app)
}

/// Whether the signature of an item was looked at and accepted.
#[verifier::opaque]
pub open spec fn was_judged(
    trace: Seq<Step>,
    item: Seq<u8>,
    identifier: Option<Seq<char>>,
    team: Seq<char>,
) -> bool {
    exists|came: Event| #[trigger]
        answered(trace, Act::Run(details_call(item), Manner::Quiet), came) && (
        came matches Event::Ran(attempted) && item_outcome(
            item,
            attempt(attempted),
            identifier,
            team,
        ) is Ok)
}

/// Whether the signature of an item was looked at and names an executable.
#[verifier::opaque]
pub open spec fn was_named(trace: Seq<Step>, item: Seq<u8>, named: Seq<char>) -> bool {
    exists|came: Event| #[trigger]
        answered(trace, Act::Run(details_call(item), Manner::Quiet), came) && (
        came matches Event::Ran(attempted) && details_of(
            item,
            attempt(attempted),
        ) matches Ok(details) && executable_of(details) == Ok::<Seq<char>, Seq<char>>(named))
}

/// Whether a path was resolved to `place`.
#[verifier::opaque]
pub open spec fn was_resolved(trace: Seq<Step>, path: Seq<u8>, place: Seq<u8>) -> bool {
    exists|came: Event| #[trigger]
        answered(trace, Act::Resolve(path), came) && (came matches Event::Resolved(Ok(found))
            && found@ == place)
}

/// Whether the signature of an item names an executable that was found inside the app.
#[verifier::opaque]
pub open spec fn was_placed(trace: Seq<Step>, app: Seq<u8>, item: Seq<u8>) -> bool {
    exists|named: Seq<char>, executable: Seq<u8>, place: Seq<u8>|
        #![trigger was_named(trace, item, named), below(executable, place)]
        was_named(trace, item, named) && was_resolved(trace, encode_utf8(named), executable)
            && was_resolved(trace, app, place) && below(executable, place)
}

/// Whether an item was accepted: its signature is that of the team and, for the app, names the app and
/// an executable inside it.
pub open spec fn was_accepted(
    trace: Seq<Step>,
    app: Seq<u8>,
    identifier: Seq<char>,
    team: Seq<char>,
    item: Seq<u8>,
) -> bool {
    &&& was_judged(trace, item, identifier_for(app, identifier, item), team)
    &&& same_place(item, app) ==> was_placed(trace, app, item)
}

/// Whether all signatures of an app were accepted: those of all nested code that a listing of the app
/// gives, and that of the app itself.
pub open spec fn all_were_accepted(
    trace: Seq<Step>,
    app: Seq<u8>,
    identifier: Seq<char>,
    team: Seq<char>,
) -> bool {
    exists|items: Seq<Seq<u8>>| #[trigger]
        was_listed(trace, app, items) && items.contains(app) && forall|p: Seq<u8>| #[trigger]
            items.contains(p) ==> was_accepted(trace, app, identifier, team, p)
}

/// Whether a check has judged what it says.
#[verifier::opaque]
pub open spec fn is_sound(trace: Seq<Step>, check: Checking) -> bool {
    &&& check.accepted <= check.items.len()
    &&& check.stage != CheckStage::Listing ==> was_listed(trace, check.app, check.items)
    &&& forall|k: int|
        0 <= k < check.accepted ==> was_accepted(
            trace,
            check.app,
            check.identifier,
            check.team,
            #[trigger] check.items[k],
        )
    &&& check.stage == CheckStage::ResolvingExecutable || check.stage == CheckStage::ResolvingApp
        ==> {
        let item = check.items[check.accepted as int];
        &&& check.accepted < check.items.len()
        &&& was_judged(
            trace,
            item,
            identifier_for(check.app, check.identifier, item),
            check.team,
        )
        &&& was_named(trace, item, check.named)
    }
    &&& check.stage == CheckStage::ResolvingApp ==> was_resolved(
        trace,
        encode_utf8(check.named),
        check.executable,
    )
    &&& check.stage == CheckStage::Inspecting ==> check.accepted < check.items.len()
    &&& check.stage == CheckStage::Done ==> check.accepted == check.items.len()
}

/// One more step takes nothing back.
pub proof fn lemma_resolved_stays(trace: Seq<Step>, step: Step, path: Seq<u8>, place: Seq<u8>)
    requires
        was_resolved(trace, path, place),
    ensures
        was_resolved(trace.push(step), path, place),
{
    reveal(was_resolved);
    lemma_answers_stay(trace, step);
}

proof fn lemma_named_stays(trace: Seq<Step>, step: Step, item: Seq<u8>, named: Seq<char>)
    requires
        was_named(trace, item, named),
    ensures
        was_named(trace.push(step), item, named),
{
    reveal(was_named);
    lemma_answers_stay(trace, step);
}

proof fn lemma_judged_stays(
    trace: Seq<Step>,
    step: Step,
    item: Seq<u8>,
    identifier: Option<Seq<char>>,
    team: Seq<char>,
)
    requires
        was_judged(trace, item, identifier, team),
    ensures
        was_judged(trace.push(step), item, identifier, team),
{
    reveal(was_judged);
    lemma_answers_stay(trace, step);
}

proof fn lemma_placed_stays(trace: Seq<Step>, step: Step, app: Seq<u8>, item: Seq<u8>)
    requires
        was_placed(trace, app, item),
    ensures
        was_placed(trace.push(step), app, item),
{
    reveal(was_placed);
    let (named, executable, place) = choose|
        named: Seq<char>,
        executable: Seq<u8>,
        place: Seq<u8>,
    |
        #![trigger was_named(trace, item, named), below(executable, place)]
        was_named(trace, item, named) && was_resolved(trace, encode_utf8(named), executable)
            && was_resolved(trace, app, place) && below(executable, place);
    lemma_named_stays(trace, step, item, named);
    lemma_resolved_stays(trace, step, encode_utf8(named), executable);
    lemma_resolved_stays(trace, step, app, place);
}

/// One more step takes nothing back.
pub proof fn lemma_sound_stays(trace: Seq<Step>, step: Step, check: Checking)
    requires
        is_sound(trace, check),
    ensures
        is_sound(trace.push(step), check),
{
    reveal(is_sound);
    let after = trace.push(step);
    if check.stage != CheckStage::Listing {
        assert(was_listed(after, check.app, check.items)) by {
            reveal(was_listed);
            lemma_answers_stay(trace, step);
        }
    }
    assert forall|k: int| 0 <= k < check.accepted implies was_accepted(
        after,
        check.app,
        check.identifier,
        check.team,
        #[trigger] check.items[k],
    ) by {
        let item = check.items[k];
        lemma_judged_stays(
            trace,
            step,
            item,
            identifier_for(check.app, check.identifier, item),
            check.team,
        );
        if same_place(item, check.app) {
            lemma_placed_stays(trace, step, check.app, item);
        }
    }
    if check.stage == CheckStage::ResolvingExecutable || check.stage == CheckStage::ResolvingApp {
        let item = check.items[check.accepted as int];
        lemma_judged_stays(
            trace,
            step,
            item,
            identifier_for(check.app, check.identifier, item),
            check.team,
        );
        lemma_named_stays(trace, step, item, check.named);
    }
    if check.stage == CheckStage::ResolvingApp {
        lemma_resolved_stays(trace, step, encode_utf8(check.named), check.executable);
    }
}

/// A check that has judged what it says has done so after the next step as well.
pub proof fn lemma_sound_step(trace: Seq<Step>, step: Step, check: Checking)
    requires
        is_sound(trace, check),
        step.asked == check_action(check),
        check_next(check, step.came) is Ok,
    ensures
        is_sound(trace.push(step), check_next(check, step.came)->Ok_0),
{
    reveal(is_sound);
    let after = trace.push(step);
    let next = check_next(check, step.came)->Ok_0;
    let item = check.items[check.accepted as int];
    lemma_sound_stays(trace, step, check);
    assert(answered(after, check_action(check), step.came)) by {
        lemma_answers_stay(trace, step);
    }
    match (check.stage, step.came) {
        (CheckStage::Listing, Event::Entries(entries)) => {
            assert(next.items.drop_last() == nested_outcome(
                check.app,
                known_entries(entries),
            )->Ok_0);
            assert(was_listed(after, next.app, next.items)) by {
                reveal(was_listed);
            }
        },
        (CheckStage::Inspecting, Event::Ran(attempted)) => {
            assert(was_judged(
                after,
                item,
                identifier_for(check.app, check.identifier, item),
                check.team,
            )) by {
                reveal(was_judged);
            }
            if same_place(item, check.app) {
                assert(was_named(after, item, next.named)) by {
                    reveal(was_named);
                }
            }
        },
        (CheckStage::ResolvingExecutable, Event::Resolved(Ok(found))) => {
            assert(was_resolved(after, encode_utf8(check.named), found@)) by {
                reveal(was_resolved);
            }
        },
        (CheckStage::ResolvingApp, Event::Resolved(Ok(found))) => {
            assert(was_resolved(after, check.app, found@)) by {
                reveal(was_resolved);
            }
            assert(was_placed(after, check.app, item)) by {
                reveal(was_placed);
                assert(was_named(after, item, check.named));
                assert(below(check.executable, found@));
            }
        },
        _ => {},
    }
}

/// A check that has just begun claims nothing.
pub proof fn lemma_sound_starts(
    trace: Seq<Step>,
    app: Seq<u8>,
    identifier: Seq<char>,
    team: Seq<char>,
)
    ensures
        is_sound(trace, check_start(app, identifier, team)),
{
    reveal(is_sound);
}

/// No event changes what is checked, or for whom.
pub proof fn lemma_sound_keeps(check: Checking, event: Event)
    requires
        check_next(check, event) is Ok,
    ensures
        ({
            let next = check_next(check, event)->Ok_0;
            next.app == check.app && next.identifier == check.identifier && next.team
                == check.team
        }),
{
}

/// A check that is done has accepted every item: all nested code of the app, and the app.
pub proof fn law_done_checks_accepted_every_item(trace: Seq<Step>, check: Checking)
    requires
        is_sound(trace, check),
        check.stage == CheckStage::Done,
    ensures
        all_were_accepted(trace, check.app, check.identifier, check.team),
{
    reveal(is_sound);
    assert(check.items.len() > 0 && check.items.last() == check.app) by {
        reveal(was_listed);
    }
    assert(check.items[check.items.len() - 1] == check.app);
    assert(check.items.contains(check.app));
    assert forall|p: Seq<u8>| #[trigger] check.items.contains(p) implies was_accepted(
        trace,
        check.app,
        check.identifier,
        check.team,
        p,
    ) by {
        let k = choose|k: int| 0 <= k < check.items.len() && check.items[k] == p;
        assert(check.items[k] == p);
    }
}

/// A check refuses the signature of an item, whichever it is, that names another team or none.
pub proof fn law_foreign_signatures_are_refused(
    check: Checking,
    attempted: Result<CommandOutput, String>,
    details: Seq<char>,
)
    requires
        check.stage == CheckStage::Inspecting,
        check.accepted < check.items.len(),
        details_of(check.items[check.accepted as int], attempt(attempted)) == Ok::<
            Seq<char>,
            Seq<char>,
        >(details),
        first_after(text_lines(details), "TeamIdentifier="@) != Some(check.team),
    ensures
        check_next(check, Event::Ran(attempted)) is Err,
{
}

/// Listing the app tells what must be signed: the nested code that is found, and the app last. Where it
/// cannot be told, the check is refused.
pub proof fn law_the_app_is_checked_last(check: Checking, entries: Result<Vec<Entry>, String>)
    requires
        check.stage == CheckStage::Listing,
    ensures
        check_next(check, Event::Entries(entries)) is Ok <==> nested_outcome(
            check.app,
            known_entries(entries),
        ) is Ok,
        check_next(check, Event::Entries(entries)) is Ok ==> {
            let next = check_next(check, Event::Entries(entries))->Ok_0;
            &&& next.items == nested_outcome(check.app, known_entries(entries))->Ok_0 + seq![
                check.app,
            ]
            &&& next.accepted == 0
            &&& next.stage == CheckStage::Inspecting
        },
{
    if nested_outcome(check.app, known_entries(entries)) is Ok {
        let paths = nested_outcome(check.app, known_entries(entries))->Ok_0;
        assert(paths.push(check.app) =~= paths + seq![check.app]);
    }
}

/// Every item is judged by its own signature, as one of the team. The one of the app must also name the
/// identifier of the app and an executable; no other item has to.
pub proof fn law_every_item_is_judged_by_its_signature(
    check: Checking,
    attempted: Result<CommandOutput, String>,
)
    requires
        check.stage == CheckStage::Inspecting,
        check.accepted < check.items.len(),
    ensures
        ({
            let item = check.items[check.accepted as int];
            let is_app = components(item) == components(check.app);
            let next = check_next(check, Event::Ran(attempted));
            &&& check_action(check) == Act::Run(details_call(item), Manner::Quiet)
            &&& next is Ok <==> (attempted matches Ok(output) && output.success && signature_outcome(
                lossy(output.stdout@) + lossy(output.stderr@),
                if is_app {
                    Some(check.identifier)
                } else {
                    None
                },
                check.team,
            ) is Ok && (is_app ==> executable_of(lossy(output.stdout@) + lossy(output.stderr@)) is Ok))
            &&& next is Ok && is_app ==> next->Ok_0.stage == CheckStage::ResolvingExecutable
                && next->Ok_0.accepted == check.accepted && executable_of(
                lossy(attempted->Ok_0.stdout@) + lossy(attempted->Ok_0.stderr@),
            ) == Ok::<Seq<char>, Seq<char>>(next->Ok_0.named)
            &&& next is Ok && !is_app ==> next->Ok_0.accepted == check.accepted + 1
            &&& next is Ok ==> next->Ok_0.items == check.items
        }),
{
}

/// The app is accepted where, and only where, the executable that its signature names resolves to a
/// place below what the app itself resolves to.
pub proof fn law_the_executable_lies_in_the_app(check: Checking, resolved: Result<Vec<u8>, String>)
    ensures
        check.stage == CheckStage::ResolvingExecutable ==> {
            let next = check_next(check, Event::Resolved(resolved));
            &&& check_action(check) == Act::Resolve(encode_utf8(check.named))
            &&& next is Ok <==> resolved is Ok
            &&& next is Ok ==> next->Ok_0.executable == resolved->Ok_0@ && next->Ok_0.stage
                == CheckStage::ResolvingApp && next->Ok_0.accepted == check.accepted
        },
        check.stage == CheckStage::ResolvingApp && check.accepted < check.items.len() ==> {
            let next = check_next(check, Event::Resolved(resolved));
            &&& check_action(check) == Act::Resolve(check.app)
            &&& next is Ok <==> resolved is Ok && below(check.executable, resolved->Ok_0@)
            &&& next is Ok ==> next->Ok_0.accepted == check.accepted + 1
        },
{
}

/// A check is done with the last of its items, and before that it finishes with none.
pub proof fn law_checks_end_with_their_last_item(check: Checking, event: Event)
    requires
        check.stage != CheckStage::Done,
        check_next(check, event) is Ok,
    ensures
        check_next(check, event)->Ok_0.stage == CheckStage::Done ==> check.accepted + 1
            >= check.items.len() && check_next(check, event)->Ok_0.accepted == check.accepted + 1,
        check_next(check, event)->Ok_0.accepted > check.accepted && check_next(
            check,
            event,
        )->Ok_0.accepted < check.items.len() ==> check_next(check, event)->Ok_0.stage
            == CheckStage::Inspecting,
{
}

/// Where no item is left, nothing more is asked for, and nothing that comes changes the check.
pub proof fn law_checks_without_items_ask_for_nothing(
    check: Checking,
    attempted: Result<CommandOutput, String>,
    resolved: Result<Vec<u8>, String>,
)
    requires
        check.accepted >= check.items.len(),
    ensures
        check.stage == CheckStage::Inspecting || check.stage == CheckStage::Done ==> check_action(
            check,
        ) == Act::Finish && check_next(check, Event::Ran(attempted)) == Ok::<Checking, Seq<char>>(
            check,
        ),
        check.stage == CheckStage::ResolvingApp ==> check_next(check, Event::Resolved(resolved))
            == Ok::<Checking, Seq<char>>(check),
{
}

} // verus!
