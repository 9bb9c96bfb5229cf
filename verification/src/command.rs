//! Commands: what is run, how it is shown, and what its outcome means.

use vstd::prelude::*;
use vstd::utf8::encode_utf8;

use crate::bytes::{byte_strings, owned};
use crate::encoding::{lossy, lossy_text};
use crate::failure::{failure, Failure};
use crate::text::{chars_of, join3, join5, text_of, trim, trimmed};

verus! {

/// A command to run.
#[derive(Debug)]
pub struct Invocation {
    pub program: String,
    pub arguments: Vec<Vec<u8>>,
    /// Environment variables with the values they get, or without a value where they are removed.
    pub variables: Vec<(String, Option<Vec<u8>>)>,
}

/// The model of an `Invocation`.
#[verifier::ext_equal]
pub struct Call {
    pub program: Seq<char>,
    pub arguments: Seq<Seq<u8>>,
    pub variables: Seq<(Seq<char>, Option<Seq<u8>>)>,
}

/// The model of an environment variable that is set or removed.
pub open spec fn variable(entry: (String, Option<Vec<u8>>)) -> (Seq<char>, Option<Seq<u8>>) {
    (
        entry.0@,
        match entry.1 {
            Some(value) => Some(value@),
            None => None,
        },
    )
}

impl View for Invocation {
    type V = Call;

    open spec fn view(&self) -> Call {
        Call {
            program: self.program@,
            arguments: byte_strings(self.arguments@),
            variables: Seq::new(self.variables@.len(), |i: int| variable(self.variables@[i])),
        }
    }
}

/// A command without arguments.
pub open spec fn call(program: Seq<char>) -> Call {
    Call { program, arguments: Seq::empty(), variables: Seq::empty() }
}

/// A command with one more argument.
pub open spec fn with(call: Call, argument: Seq<u8>) -> Call {
    Call { arguments: call.arguments.push(argument), ..call }
}

/// A command with one more argument that is written out.
pub open spec fn with_text(call: Call, argument: Seq<char>) -> Call {
    with(call, encode_utf8(argument))
}

/// A command with one more environment variable set, or removed.
pub open spec fn with_variable(call: Call, name: Seq<char>, value: Option<Seq<u8>>) -> Call {
    Call { variables: call.variables.push((name, value)), ..call }
}

impl Invocation {
    /// A command without arguments.
    pub fn new(program: &str) -> (command: Self)
        ensures
            command@ == call(program@),
    {
        let command = Invocation {
            program: program.to_string(),
            arguments: Vec::new(),
            variables: Vec::new(),
        };
        assert(command@ =~= call(program@));
        command
    }

    /// Adds an argument.
    pub fn arg(self, argument: &[u8]) -> (command: Self)
        ensures
            command@ == with(self@, argument@),
    {
        let ghost before = self@;
        let mut command = self;
        command.arguments.push(owned(argument));
        assert(command@ =~= with(before, argument@));
        command
    }

    /// Adds an argument that is written out.
    pub fn text(self, argument: &str) -> (command: Self)
        ensures
            command@ == with_text(self@, argument@),
    {
        self.arg(argument.as_bytes())
    }

    /// Sets an environment variable.
    pub fn set(self, name: &str, value: &[u8]) -> (command: Self)
        ensures
            command@ == with_variable(self@, name@, Some(value@)),
    {
        let ghost before = self@;
        let mut command = self;
        command.variables.push((name.to_string(), Some(owned(value))));
        assert(command@ =~= with_variable(before, name@, Some(value@)));
        command
    }

    /// Removes an environment variable.
    pub fn unset(self, name: &str) -> (command: Self)
        ensures
            command@ == with_variable(self@, name@, None),
    {
        let ghost before = self@;
        let mut command = self;
        command.variables.push((name.to_string(), None));
        assert(command@ =~= with_variable(before, name@, None));
        command
    }
}

/// Arguments, each after a space.
pub open spec fn spaced(arguments: Seq<Seq<u8>>) -> Seq<char>
    decreases arguments.len(),
{
    if arguments.len() == 0 {
        Seq::empty()
    } else {
        spaced(arguments.drop_last()) + " "@ + lossy(arguments.last())
    }
}

/// A command as it is shown to the operator: its program and arguments, with spaces between them.
pub open spec fn displayed(call: Call) -> Seq<char> {
    call.program + spaced(call.arguments)
}

/// A command as it is shown to the operator.
pub fn display_command(command: &Invocation) -> (text: String)
    ensures
        text@ == displayed(command@),
{
    let mut text = command.program.as_str().to_string();
    let ghost arguments = command@.arguments;
    let mut i: usize = 0;
    assert(arguments.take(0) == Seq::<Seq<u8>>::empty());
    while i < command.arguments.len()
        invariant
            i <= command.arguments@.len(),
            arguments == byte_strings(command.arguments@),
            text@ == command.program@ + spaced(arguments.take(i as int)),
        decreases command.arguments@.len() - i,
    {
        proof {
            assert(arguments.take(i + 1).drop_last() == arguments.take(i as int));
            assert(arguments.take(i + 1).last() == arguments[i as int]);
        }
        let ghost before = text@;
        let shown = lossy_text(command.arguments[i].as_slice());
        text = join3(text.as_str(), " ", shown.as_str());
        assert(text@ == command.program@ + spaced(arguments.take(i + 1)));
        i += 1;
    }
    assert(arguments.take(i as int) == arguments);
    text
}

/// The outcome of a command that was run to its end.
#[derive(Debug)]
pub struct CommandOutput {
    pub success: bool,
    /// How the command ended, as it is shown to the operator.
    pub status: String,
    pub stdout: Vec<u8>,
    pub stderr: Vec<u8>,
}

/// The model of a `CommandOutput`.
pub struct Output {
    pub success: bool,
    pub status: Seq<char>,
    pub stdout: Seq<u8>,
    pub stderr: Seq<u8>,
}

impl View for CommandOutput {
    type V = Output;

    open spec fn view(&self) -> Output {
        Output {
            success: self.success,
            status: self.status@,
            stdout: self.stdout@,
            stderr: self.stderr@,
        }
    }
}

/// The model of an attempt to run a command. Where it could not be run, the attempt is the text of
/// the reason.
pub open spec fn attempt(ran: Result<CommandOutput, String>) -> Result<Output, Seq<char>> {
    match ran {
        Ok(output) => Ok(output@),
        Err(fault) => Err(fault@),
    }
}

/// An outcome of `run_command`.
pub open spec fn ran(call: Call, attempt: Result<Output, Seq<char>>) -> Result<(), Seq<char>> {
    match attempt {
        Err(fault) => Err(fault),
        Ok(output) => if output.success {
            Ok(())
        } else {
            Err(displayed(call) + " exited with "@ + output.status)
        },
    }
}

/// Refuses a command that could not be run or that failed.
pub fn run_command(command: &Invocation, attempted: &Result<CommandOutput, String>) -> (result:
    Result<(), Failure>)
    ensures
        crate::failure::outcome(result) == ran(command@, attempt(*attempted)),
{
    match attempted {
        Err(fault) => Err(failure(fault.as_str())),
        Ok(output) => if output.success {
            Ok(())
        } else {
            let display = display_command(command);
            Err(Failure {
                message: join3(display.as_str(), " exited with ", output.status.as_str()),
            })
        },
    }
}

/// An outcome of `command_output`: what the command wrote to its standard output.
pub open spec fn completed(call: Call, attempt: Result<Output, Seq<char>>) -> Result<
    Seq<u8>,
    Seq<char>,
> {
    match attempt {
        Err(fault) => Err(fault),
        Ok(output) => if output.success {
            Ok(output.stdout)
        } else {
            Err(
                displayed(call) + " exited with "@ + output.status + ": "@ + trim(
                    lossy(output.stderr),
                ),
            )
        },
    }
}

/// A result with a slice replaced by its bytes, and its refusal by its text.
pub open spec fn bytes_outcome(result: Result<&[u8], Failure>) -> Result<Seq<u8>, Seq<char>> {
    match result {
        Ok(bytes) => Ok(bytes@),
        Err(refusal) => Err(refusal@),
    }
}

/// What a command wrote to its standard output. A command that could not be run or that failed is
/// refused, with what it wrote to its standard error.
pub fn command_output<'a>(
    command: &Invocation,
    attempted: &'a Result<CommandOutput, String>,
) -> (result: Result<&'a [u8], Failure>)
    ensures
        bytes_outcome(result) == completed(command@, attempt(*attempted)),
{
    match attempted {
        Err(fault) => Err(failure(fault.as_str())),
        Ok(output) => if output.success {
            Ok(output.stdout.as_slice())
        } else {
            let display = display_command(command);
            let complaint = chars_of(lossy_text(output.stderr.as_slice()).as_str());
            let told = text_of(trimmed(complaint.as_slice()));
            Err(
                Failure {
                    message: join5(
                        display.as_str(),
                        " exited with ",
                        output.status.as_str(),
                        ": ",
                        told.as_str(),
                    ),
                },
            )
        },
    }
}

/// A command is held to have succeeded where it ran and its status says so, whatever it wrote; one that
/// did not is refused in words that name it and how it ended.
pub proof fn law_commands_succeed_by_their_status(call: Call, attempt: Result<Output, Seq<char>>)
    ensures
        ran(call, attempt) is Ok <==> (attempt matches Ok(output) && output.success),
        completed(call, attempt) is Ok <==> (attempt matches Ok(output) && output.success),
        completed(call, attempt) is Ok ==> completed(call, attempt)->Ok_0 == attempt->Ok_0.stdout,
        attempt is Err ==> ran(call, attempt)->Err_0 == attempt->Err_0 && completed(
            call,
            attempt,
        )->Err_0 == attempt->Err_0,
        attempt is Ok && !attempt->Ok_0.success ==> ran(call, attempt)->Err_0 == displayed(call)
            + " exited with "@ + attempt->Ok_0.status,
        attempt is Ok && !attempt->Ok_0.success ==> completed(call, attempt)->Err_0 == displayed(call)
            + " exited with "@ + attempt->Ok_0.status + ": "@ + trim(lossy(attempt->Ok_0.stderr)),
{
}

/// A command is shown as its program, and each further argument behind a space.
pub proof fn law_shown_commands_grow_by_their_arguments(
    program: Seq<char>,
    shown: Call,
    argument: Seq<u8>,
    name: Seq<char>,
    value: Option<Seq<u8>>,
)
    ensures
        displayed(call(program)) == program,
        displayed(with(shown, argument)) == displayed(shown) + " "@ + lossy(argument),
        displayed(with_variable(shown, name, value)) == displayed(shown),
{
    assert(with(shown, argument).arguments.drop_last() =~= shown.arguments);
    assert(displayed(call(program)) =~= program);
    assert(displayed(with(shown, argument)) =~= displayed(shown) + " "@ + lossy(argument));
}

/// What is added to a command comes last and leaves the rest as it is.
pub proof fn law_commands_are_put_together_in_order(
    program: Seq<char>,
    made: Call,
    argument: Seq<u8>,
    text: Seq<char>,
    name: Seq<char>,
    value: Option<Seq<u8>>,
)
    ensures
        call(program).program == program,
        call(program).arguments.len() == 0,
        call(program).variables.len() == 0,
        with(made, argument).program == made.program,
        with(made, argument).arguments == made.arguments + seq![argument],
        with(made, argument).variables == made.variables,
        with_text(made, text).program == made.program,
        with_text(made, text).arguments == made.arguments + seq![encode_utf8(text)],
        with_text(made, text).variables == made.variables,
        with_variable(made, name, value).program == made.program,
        with_variable(made, name, value).arguments == made.arguments,
        with_variable(made, name, value).variables == made.variables + seq![(name, value)],
{
    assert(with(made, argument).arguments =~= made.arguments + seq![argument]);
    assert(with_text(made, text).arguments =~= made.arguments + seq![encode_utf8(text)]);
    assert(with_variable(made, name, value).variables =~= made.variables + seq![(name, value)]);
}

} // verus!
