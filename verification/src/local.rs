//! The run of Cargo on a local checkout of libneo, which leaves the lock file as it was.

use vstd::prelude::*;
use vstd::utf8::encode_utf8;

use crate::bytes::{byte_string, byte_strings, owned};
use crate::command::{attempt, call, ran, run_command, with_text, Call, CommandOutput, Invocation};
use crate::encoding::{decode, decoded, lossy, lossy_text};
use crate::failure::{text_outcome, Failure};
use crate::path::{join_text, joined};
use crate::pipeline::{answered, lemma_answers_stay, Act, Action, Event, Step};
use crate::source::{cannot_read, unreadable, LIBNEO_HTTPS_SOURCE};
use crate::text::{chars_of, hex, hex_text, join2, join3, join4, join5, maybe_string, piece};

verus! {

/// The environment variable with the path of the checkout, from the repository on.
pub const CHECKOUT_ENV: &'static str = "NEO_LOCAL_LIBNEO_PATH";

/// The checkout where the environment names none.
pub const DEFAULT_CHECKOUT: &'static str = "../libneo";

/// The checkout that the variable gives, or the usual one where it is not set.
pub open spec fn checkout_outcome(value: Option<Seq<u8>>) -> Result<Seq<char>, Seq<char>> {
    match value {
        None => Ok(DEFAULT_CHECKOUT@),
        Some(value) => match decoded(value) {
            Err(_) => Err(CHECKOUT_ENV@ + " must contain valid Unicode"@),
            Ok(checkout) => Ok(checkout),
        },
    }
}

/// The checkout that the variable gives, or the usual one where it is not set.
pub fn configured_checkout(value: Option<&[u8]>) -> (result: Result<String, Failure>)
    ensures
        text_outcome(result) == checkout_outcome(piece(value)),
{
    match value {
        None => Ok(DEFAULT_CHECKOUT.to_string()),
        Some(value) => match decode(value) {
            Ok(checkout) => Ok(checkout),
            Err(_) => Err(
                Failure { message: join2(CHECKOUT_ENV, " must contain valid Unicode") },
            ),
        },
    }
}

/// A character as a basic string of TOML holds it: quotation marks and backslashes behind a backslash,
/// control characters by their number.
pub open spec fn escaped(c: char) -> Seq<char> {
    if c == '"' || c == '\\' {
        seq!['\\', c]
    } else if c < ' ' || c == '\u{7f}' {
        "\\u00"@ + hex(seq![c as u8], true)
    } else {
        seq![c]
    }
}

/// The inside of a basic string of TOML.
pub open spec fn escaped_text(text: Seq<char>) -> Seq<char>
    decreases text.len(),
{
    if text.len() == 0 {
        Seq::empty()
    } else {
        escaped_text(text.drop_last()) + escaped(text.last())
    }
}

/// A text as a basic string of TOML.
pub open spec fn basic_string(text: Seq<char>) -> Seq<char> {
    "\""@ + escaped_text(text) + "\""@
}

/// A text as a basic string of TOML.
pub fn toml_string(text: &str) -> (quoted: String)
    ensures
        quoted@ == basic_string(text@),
{
    let chars = chars_of(text);
    let mut inside = String::new();
    let mut i: usize = 0;
    while i < chars.len()
        invariant
            i <= chars@.len(),
            inside@ == escaped_text(chars@.take(i as int)),
        decreases chars@.len() - i,
    {
        let c = chars[i];
        let ghost before = inside@;
        assert(chars@.take(i + 1).drop_last() == chars@.take(i as int));
        if c == '"' || c == '\\' {
            inside.push('\\');
            inside.push(c);
            assert(inside@ == before + escaped(c));
        } else if c < ' ' || c == '\u{7f}' {
            let mut byte: Vec<u8> = Vec::new();
            byte.push(c as u8);
            assert(byte@ == seq![c as u8]);
            let number = hex_text(byte.as_slice(), true);
            inside = join3(inside.as_str(), "\\u00", number.as_str());
            assert(inside@ == before + escaped(c));
        } else {
            inside.push(c);
            assert(inside@ == before + escaped(c));
        }
        i += 1;
    }
    assert(chars@.take(i as int) == chars@);
    join3("\"", inside.as_str(), "\"")
}

/// The setting that has Cargo take a crate from the checkout.
pub open spec fn patch(checkout: Seq<char>, name: Seq<char>) -> Seq<char> {
    "patch."@ + basic_string(LIBNEO_HTTPS_SOURCE@) + "."@ + name + ".path="@ + basic_string(
        checkout + "/crates/"@ + name,
    )
}

/// The setting that has Cargo take a crate from the checkout.
pub fn local_patch(checkout: &str, name: &str) -> (setting: String)
    ensures
        setting@ == patch(checkout@, name@),
{
    let source = toml_string(LIBNEO_HTTPS_SOURCE);
    let path = toml_string(join3(checkout, "/crates/", name).as_str());
    let head = join5("patch.", source.as_str(), ".", name, ".path=");
    join2(head.as_str(), path.as_str())
}

/// The command with all of `arguments` added to it.
pub open spec fn with_all(command: Call, arguments: Seq<Seq<u8>>) -> Call {
    Call { arguments: command.arguments + arguments, ..command }
}

/// The command that runs Cargo on the checkout. One checkout supplies both crates.
pub open spec fn local_call(checkout: Seq<char>, arguments: Seq<Seq<u8>>) -> Call {
    let command = with_text(
        with_text(call("cargo"@), "--config"@),
        patch(checkout, "libneo"@),
    );
    let command = with_text(
        with_text(command, "--config"@),
        patch(checkout, "libneo-gpui"@),
    );
    with_all(command, arguments)
}

/// The command that runs Cargo on the checkout.
pub fn local_command(checkout: &str, arguments: &Vec<Vec<u8>>) -> (command: Invocation)
    ensures
        command@ == local_call(checkout@, byte_strings(arguments@)),
{
    let libneo = local_patch(checkout, "libneo");
    let gpui = local_patch(checkout, "libneo-gpui");
    let mut command = Invocation::new("cargo").text("--config").text(libneo.as_str()).text(
        "--config",
    ).text(gpui.as_str());
    let ghost first = command@;
    let ghost all = byte_strings(arguments@);
    let mut i: usize = 0;
    assert(command@ =~= with_all(first, all.take(0)));
    while i < arguments.len()
        invariant
            i <= arguments@.len(),
            all == byte_strings(arguments@),
            command@ == with_all(first, all.take(i as int)),
        decreases arguments@.len() - i,
    {
        command = command.arg(arguments[i].as_slice());
        assert(all.take(i + 1) == all.take(i as int).push(all[i as int]));
        assert(command@ =~= with_all(first, all.take(i + 1)));
        i += 1;
    }
    assert(all.take(i as int) == all);
    command
}

/// How far a local run has come.
#[derive(Clone, Copy, Debug, PartialEq, Eq, Structural)]
pub enum LocalStage {
    /// The variable with the checkout is read.
    ReadingCheckout,
    /// The lock file is read.
    Reading,
    /// Cargo is run.
    Running,
    /// The lock file is written back.
    Restoring,
    Finished,
}

/// A local run.
#[derive(Debug)]
pub struct LocalRun {
    root: Vec<u8>,
    arguments: Vec<Vec<u8>>,
    stage: LocalStage,
    checkout: String,
    /// What the lock file held.
    lockfile: Vec<u8>,
    /// Why Cargo failed, where it did.
    refusal: Option<String>,
}

/// The model of a `LocalRun`.
#[verifier::ext_equal]
pub struct Local {
    pub root: Seq<u8>,
    pub arguments: Seq<Seq<u8>>,
    pub stage: LocalStage,
    pub checkout: Seq<char>,
    pub lockfile: Seq<u8>,
    pub refusal: Option<Seq<char>>,
}

impl View for LocalRun {
    type V = Local;

    closed spec fn view(&self) -> Local {
        Local {
            root: self.root@,
            arguments: byte_strings(self.arguments@),
            stage: self.stage,
            checkout: self.checkout@,
            lockfile: self.lockfile@,
            refusal: maybe_string(self.refusal),
        }
    }
}

/// The run before its first event.
pub open spec fn local_start(root: Seq<u8>, arguments: Seq<Seq<u8>>) -> Local {
    Local {
        root,
        arguments,
        stage: LocalStage::ReadingCheckout,
        checkout: Seq::empty(),
        lockfile: Seq::empty(),
        refusal: None,
    }
}

/// Where the lock file lies.
pub open spec fn lockfile_in(root: Seq<u8>) -> Seq<u8> {
    joined(root, encode_utf8("Cargo.lock"@))
}

/// The run after an event. Whatever comes of Cargo, the lock file is written back.
pub open spec fn local_next(run: Local, event: Event) -> Result<Local, Seq<char>> {
    match (run.stage, event) {
        (LocalStage::ReadingCheckout, Event::Variable(value)) => match checkout_outcome(
            byte_string(value),
        ) {
            Err(refusal) => Err(refusal),
            Ok(checkout) => Ok(Local { checkout, stage: LocalStage::Reading, ..run }),
        },
        (LocalStage::Reading, Event::Contents(contents)) => match contents {
            Err(fault) => Err(unreadable(lockfile_in(run.root), fault@)),
            Ok(lockfile) => Ok(
                Local { lockfile: lockfile@, stage: LocalStage::Running, ..run },
            ),
        },
        (LocalStage::Running, Event::Ran(attempted)) => Ok(
            Local {
                refusal: match ran(
                    local_call(run.checkout, run.arguments),
                    attempt(attempted),
                ) {
                    Ok(()) => None,
                    Err(refusal) => Some(refusal),
                },
                stage: LocalStage::Restoring,
                ..run
            },
        ),
        (LocalStage::Restoring, Event::Done(done)) => match done {
            Err(fault) => Err(
                "cannot restore "@ + lossy(lockfile_in(run.root)) + ": "@ + fault@,
            ),
            Ok(()) => match run.refusal {
                Some(refusal) => Err(refusal),
                None => Ok(Local { stage: LocalStage::Finished, ..run }),
            },
        },
        _ => Ok(run),
    }
}

/// What a local run asks for. Cargo is run in the repository.
pub open spec fn local_action(run: Local) -> Act {
    match run.stage {
        LocalStage::ReadingCheckout => Act::ReadVariable(CHECKOUT_ENV@),
        LocalStage::Reading => Act::Read(lockfile_in(run.root)),
        LocalStage::Running => Act::RunIn(run.root, local_call(run.checkout, run.arguments)),
        LocalStage::Restoring => Act::Write(lockfile_in(run.root), run.lockfile),
        LocalStage::Finished => Act::Finish,
    }
}

/// A result with a run replaced by its model, and its refusal by its text.
pub open spec fn local_outcome(result: Result<LocalRun, Failure>) -> Result<Local, Seq<char>> {
    match result {
        Ok(run) => Ok(run@),
        Err(refusal) => Err(refusal@),
    }
}

impl LocalRun {
    /// The run before its first event.
    pub fn start(root: &[u8], arguments: Vec<Vec<u8>>) -> (run: Self)
        ensures
            run@ == local_start(root@, byte_strings(arguments@)),
    {
        let run = LocalRun {
            root: owned(root),
            arguments,
            stage: LocalStage::ReadingCheckout,
            checkout: String::new(),
            lockfile: Vec::new(),
            refusal: None,
        };
        assert(run@ =~= local_start(root@, byte_strings(arguments@)));
        run
    }

    /// How far the run has come.
    pub fn stage(&self) -> (stage: LocalStage)
        ensures
            stage == self@.stage,
    {
        self.stage
    }

    /// What the run asks for.
    pub fn action(&self) -> (action: Action)
        ensures
            action@ == local_action(self@),
    {
        match self.stage {
            LocalStage::ReadingCheckout => Action::ReadVariable(CHECKOUT_ENV),
            LocalStage::Reading => Action::Read(join_text(self.root.as_slice(), "Cargo.lock")),
            LocalStage::Running => Action::RunIn(
                owned(self.root.as_slice()),
                local_command(self.checkout.as_str(), &self.arguments),
            ),
            LocalStage::Restoring => Action::Write(
                join_text(self.root.as_slice(), "Cargo.lock"),
                owned(self.lockfile.as_slice()),
            ),
            LocalStage::Finished => Action::Finish,
        }
    }

    /// The run after it learned which checkout to use.
    fn with_checkout(self, value: &Option<Vec<u8>>) -> (result: Result<Self, Failure>)
        requires
            self.stage == LocalStage::ReadingCheckout,
        ensures
            local_outcome(result) == local_next(self@, Event::Variable(*value)),
    {
        let value = match value {
            Some(value) => Some(value.as_slice()),
            None => None,
        };
        match configured_checkout(value) {
            Ok(checkout) => {
                let mut run = self;
                run.checkout = checkout;
                run.stage = LocalStage::Reading;
                Ok(run)
            },
            Err(refusal) => Err(refusal),
        }
    }

    /// The run after Cargo was run.
    fn with_command(self, attempted: &Result<CommandOutput, String>) -> (run: Self)
        requires
            self.stage == LocalStage::Running,
        ensures
            local_next(self@, Event::Ran(*attempted)) == Ok::<Local, Seq<char>>(run@),
    {
        let ghost before = self@;
        let command = local_command(self.checkout.as_str(), &self.arguments);
        let refusal = match run_command(&command, attempted) {
            Ok(()) => None,
            Err(refusal) => Some(refusal.message),
        };
        let run = LocalRun { refusal, stage: LocalStage::Restoring, ..self };
        assert(run@ =~= local_next(before, Event::Ran(*attempted))->Ok_0);
        run
    }

    /// The run after an event.
    pub fn advance(self, event: &Event) -> (result: Result<Self, Failure>)
        ensures
            local_outcome(result) == local_next(self@, *event),
    {
        match (self.stage, event) {
            (LocalStage::ReadingCheckout, Event::Variable(value)) => self.with_checkout(value),
            (LocalStage::Reading, Event::Contents(contents)) => match contents {
                Err(fault) => {
                    let path = join_text(self.root.as_slice(), "Cargo.lock");
                    Err(cannot_read(path.as_slice(), fault.as_str()))
                },
                Ok(lockfile) => {
                    let mut run = self;
                    run.lockfile = owned(lockfile.as_slice());
                    run.stage = LocalStage::Running;
                    Ok(run)
                },
            },
            (LocalStage::Running, Event::Ran(attempted)) => Ok(self.with_command(attempted)),
            (LocalStage::Restoring, Event::Done(done)) => match done {
                Err(fault) => {
                    let path = join_text(self.root.as_slice(), "Cargo.lock");
                    let shown = lossy_text(path.as_slice());
                    Err(
                        Failure {
                            message: join4(
                                "cannot restore ",
                                shown.as_str(),
                                ": ",
                                fault.as_str(),
                            ),
                        },
                    )
                },
                Ok(()) => {
                    let mut run = self;
                    match run.refusal {
                        Some(refusal) => Err(Failure { message: refusal }),
                        None => {
                            run.refusal = None;
                            run.stage = LocalStage::Finished;
                            Ok(run)
                        },
                    }
                },
            },
            _ => Ok(self),
        }
    }
}

/// The run after several events.
pub open spec fn local_after(first: Local, events: Seq<Event>) -> Result<Local, Seq<char>>
    decreases events.len(),
{
    if events.len() == 0 {
        Ok(first)
    } else {
        match local_after(first, events.drop_last()) {
            Err(refusal) => Err(refusal),
            Ok(run) => local_next(run, events.last()),
        }
    }
}

/// What the run asked for before each event, and the event.
pub open spec fn local_trace(first: Local, events: Seq<Event>) -> Seq<Step>
    decreases events.len(),
{
    if events.len() == 0 {
        Seq::empty()
    } else {
        let before = events.drop_last();
        local_trace(first, before).push(
            Step { asked: local_action(local_after(first, before)->Ok_0), came: events.last() },
        )
    }
}

/// Whether the variable with the checkout was read, and gives this one.
pub open spec fn checkout_was_read(trace: Seq<Step>, checkout: Seq<char>) -> bool {
    exists|came: Event| #[trigger]
        answered(trace, Act::ReadVariable(CHECKOUT_ENV@), came) && (
        came matches Event::Variable(value) && checkout_outcome(byte_string(value)) == Ok::<
            Seq<char>,
            Seq<char>,
        >(checkout))
}

/// Whether the lock file was read, with these contents.
pub open spec fn lockfile_was_read(trace: Seq<Step>, root: Seq<u8>, contents: Seq<u8>) -> bool {
    exists|came: Event| #[trigger]
        answered(trace, Act::Read(lockfile_in(root)), came) && (
        came matches Event::Contents(Ok(found)) && found@ == contents)
}

/// Whether these contents were written to the lock file.
pub open spec fn lockfile_was_written(
    trace: Seq<Step>,
    root: Seq<u8>,
    contents: Seq<u8>,
) -> bool {
    exists|came: Event| #[trigger]
        answered(trace, Act::Write(lockfile_in(root), contents), came) && (
        came matches Event::Done(Ok(())))
}

/// Whether a stage comes after the lock file was read.
pub open spec fn past_reading(stage: LocalStage) -> bool {
    ||| stage == LocalStage::Running
    ||| stage == LocalStage::Restoring
    ||| stage == LocalStage::Finished
}

/// A run asks for Cargo only after it has read the lock file, asks for it in the repository, on the
/// checkout that the variable gives and with the arguments that it was given, and after Cargo was run,
/// whatever came of it, asks for nothing but that what was read be written back. Only then does it
/// tell how Cargo fared.
pub proof fn law_the_lock_file_is_restored(
    root: Seq<u8>,
    arguments: Seq<Seq<u8>>,
    events: Seq<Event>,
    attempted: Result<CommandOutput, String>,
)
    requires
        local_after(local_start(root, arguments), events) is Ok,
    ensures
        ({
            let run = local_after(local_start(root, arguments), events)->Ok_0;
            let trace = local_trace(local_start(root, arguments), events);
            &&& run.root == root && run.arguments == arguments
            &&& run.stage != LocalStage::ReadingCheckout ==> checkout_was_read(
                trace,
                run.checkout,
            )
            &&& past_reading(run.stage) ==> lockfile_was_read(trace, root, run.lockfile)
            &&& run.stage == LocalStage::Running ==> {
                &&& local_action(run) == Act::RunIn(root, local_call(run.checkout, arguments))
                &&& local_next(run, Event::Ran(attempted)) is Ok
                &&& local_action(local_next(run, Event::Ran(attempted))->Ok_0) == Act::Write(
                    lockfile_in(root),
                    run.lockfile,
                )
            }
            &&& run.stage == LocalStage::Finished ==> lockfile_was_written(
                trace,
                root,
                run.lockfile,
            )
        }),
    decreases events.len(),
{
    if events.len() > 0 {
        let first = local_start(root, arguments);
        let before = events.drop_last();
        law_the_lock_file_is_restored(root, arguments, before, attempted);
        let was = local_after(first, before)->Ok_0;
        let run = local_after(first, events)->Ok_0;
        let step = Step { asked: local_action(was), came: events.last() };
        let trace = local_trace(first, before).push(step);
        lemma_answers_stay(local_trace(first, before), step);
        assert(answered(trace, local_action(was), events.last()));
        if run.stage != LocalStage::ReadingCheckout {
            assert(checkout_was_read(trace, run.checkout));
        }
        if past_reading(run.stage) {
            assert(lockfile_was_read(trace, root, run.lockfile));
        }
        if run.stage == LocalStage::Finished {
            assert(lockfile_was_written(trace, root, run.lockfile));
        }
    }
}

/// The checkout is the one that the variable names, as it is written, or `../libneo` where it is not set.
pub proof fn law_checkouts_are_named_by_the_variable(value: Option<Seq<u8>>)
    ensures
        value is None ==> checkout_outcome(value) == Ok::<Seq<char>, Seq<char>>("../libneo"@),
        value is Some && decoded(value->Some_0) is Ok ==> checkout_outcome(value) == decoded(
            value->Some_0,
        ),
        value is Some && decoded(value->Some_0) is Err ==> checkout_outcome(value) == Err::<
            Seq<char>,
            Seq<char>,
        >("NEO_LOCAL_LIBNEO_PATH"@ + " must contain valid Unicode"@),
{
}

/// Texts are written one character after the other: a quote or a backslash behind a backslash, a control
/// character by its number, and any other character as it is.
pub proof fn law_characters_are_escaped_one_by_one(before: Seq<char>, c: char)
    ensures
        escaped_text(Seq::empty()) == Seq::<char>::empty(),
        c == '"' || c == '\\' ==> escaped_text(before.push(c)) == escaped_text(before) + seq![
            '\\',
            c,
        ],
        c < '\u{20}' || c == '\u{7f}' ==> escaped_text(before.push(c)) == escaped_text(before)
            + "\\u00"@ + hex(seq![c as u8], true),
        c != '"' && c != '\\' && c >= '\u{20}' && c != '\u{7f}' ==> escaped_text(before.push(c))
            == escaped_text(before).push(c),
{
    let now = before.push(c);
    assert(now.drop_last() =~= before);
    assert(now.last() == c);
    let written = escaped_text(before);
    if c != '"' && c != '\\' && c >= '\u{20}' && c != '\u{7f}' {
        assert(written + seq![c] =~= written.push(c));
    }
    if c < '\u{20}' || c == '\u{7f}' {
        assert(c != '"' && c != '\\');
        assert(written + ("\\u00"@ + hex(seq![c as u8], true)) =~= written + "\\u00"@ + hex(
            seq![c as u8],
            true,
        ));
    }
}

/// Cargo is run with both crates taken from the one checkout, in place of their source by HTTPS, and then
/// with all the arguments that it was asked for, in their order.
pub proof fn law_both_crates_come_from_the_checkout(
    checkout: Seq<char>,
    arguments: Seq<Seq<u8>>,
)
    ensures
        local_call(checkout, arguments).program == "cargo"@,
        local_call(checkout, arguments).variables.len() == 0,
        local_call(checkout, arguments).arguments == seq![
            encode_utf8("--config"@),
            encode_utf8(
                "patch."@ + basic_string("https://github.com/superneoai/libneo.git"@) + "."@
                    + "libneo"@ + ".path="@ + basic_string(checkout + "/crates/"@ + "libneo"@),
            ),
            encode_utf8("--config"@),
            encode_utf8(
                "patch."@ + basic_string("https://github.com/superneoai/libneo.git"@) + "."@
                    + "libneo-gpui"@ + ".path="@ + basic_string(
                    checkout + "/crates/"@ + "libneo-gpui"@,
                ),
            ),
        ] + arguments,
        basic_string(checkout) == "\""@ + escaped_text(checkout) + "\""@,
{
    assert(local_call(checkout, arguments).arguments =~= seq![
        encode_utf8("--config"@),
        encode_utf8(
            "patch."@ + basic_string("https://github.com/superneoai/libneo.git"@) + "."@
                + "libneo"@ + ".path="@ + basic_string(checkout + "/crates/"@ + "libneo"@),
        ),
        encode_utf8("--config"@),
        encode_utf8(
            "patch."@ + basic_string("https://github.com/superneoai/libneo.git"@) + "."@
                + "libneo-gpui"@ + ".path="@ + basic_string(
                checkout + "/crates/"@ + "libneo-gpui"@,
            ),
        ),
    ] + arguments);
}

/// A run succeeds where, and only where, Cargo succeeded and the lock file was written back. A lock file
/// that cannot be written back is told, whatever came of Cargo.
pub proof fn law_local_runs_that_succeed(
    run: Local,
    attempted: Result<CommandOutput, String>,
    done: Result<(), String>,
)
    requires
        run.stage == LocalStage::Running,
    ensures
        ({
            let next = local_next(run, Event::Ran(attempted));
            let last = local_next(next->Ok_0, Event::Done(done));
            &&& next is Ok
            &&& local_action(next->Ok_0) == Act::Write(
                joined(run.root, encode_utf8("Cargo.lock"@)),
                run.lockfile,
            )
            &&& last is Ok <==> (attempted matches Ok(output) && output.success) && done is Ok
            &&& last is Ok ==> last->Ok_0.stage == LocalStage::Finished
            &&& done matches Err(fault) ==> last == Err::<Local, Seq<char>>(
                "cannot restore "@ + lossy(joined(run.root, encode_utf8("Cargo.lock"@))) + ": "@
                    + fault@,
            )
        }),
{
}

/// A run first asks for the checkout, then for the lock file, which it keeps as it is, and is refused
/// where it gets neither.
pub proof fn law_local_runs_start_with_what_they_need(
    run: Local,
    value: Option<Vec<u8>>,
    contents: Result<Vec<u8>, String>,
)
    ensures
        run.stage == LocalStage::ReadingCheckout ==> {
            let next = local_next(run, Event::Variable(value));
            &&& local_action(run) == Act::ReadVariable("NEO_LOCAL_LIBNEO_PATH"@)
            &&& next is Ok <==> checkout_outcome(byte_string(value)) is Ok
            &&& next is Ok ==> next->Ok_0.stage == LocalStage::Reading && checkout_outcome(
                byte_string(value),
            ) == Ok::<Seq<char>, Seq<char>>(next->Ok_0.checkout)
        },
        run.stage == LocalStage::Reading ==> {
            let next = local_next(run, Event::Contents(contents));
            &&& local_action(run) == Act::Read(joined(run.root, encode_utf8("Cargo.lock"@)))
            &&& next is Ok <==> contents is Ok
            &&& next is Ok ==> next->Ok_0.stage == LocalStage::Running && next->Ok_0.lockfile
                == contents->Ok_0@ && next->Ok_0.checkout == run.checkout && next->Ok_0.arguments
                == run.arguments
        },
        run.stage == LocalStage::Running ==> local_action(run) == Act::RunIn(
            run.root,
            local_call(run.checkout, run.arguments),
        ),
        run.stage == LocalStage::Finished ==> local_action(run) == Act::Finish,
{
}

} // verus!
