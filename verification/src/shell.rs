//! Commands that are run with the omp binary, and what comes of them.
use crate::text;
use crate::text::trim;
use vstd::prelude::*;

verus! {

/// The text that bytes are read as, with replacement characters where they are not UTF-8.
pub uninterp spec fn lossy(bytes: Seq<u8>) -> Seq<char>;

/// `String::from_utf8_lossy`: reads bytes as text. Bytes that are UTF-8 are decoded; what
/// stands for other bytes is not said beyond the name.
#[verifier::external_body]
pub(crate) fn decode_lossy(bytes: &Vec<u8>) -> (decoded: String)
    ensures
        decoded@ == lossy(bytes@),
        vstd::utf8::valid_utf8(bytes@) ==> decoded@ == vstd::utf8::decode_utf8(bytes@),
{
    String::from_utf8_lossy(bytes).into_owned()
}

/// A list of texts as it is shown for debugging: quoted, with escapes, in square brackets.
pub uninterp spec fn shown(list: Seq<Seq<char>>) -> Seq<char>;

/// `format!` with `{:?}` on a list of strings. The quoting and the escapes are not said beyond
/// the name.
#[verifier::external_body]
pub(crate) fn show_list(list: &Vec<String>) -> (text: String)
    ensures
        text@ == shown(text::texts(list@)),
{
    format!("{:?}", list)
}

/// What a command wrote, and how it ended.
pub struct CommandOutput {
    /// Whether it ended with success.
    pub success: bool,
    /// How it ended, as text.
    pub status: String,
    pub stdout: Vec<u8>,
    pub stderr: Vec<u8>,
}

/// What a failed command is blamed on: what it wrote to standard error, or else to standard
/// output, or else how it ended.
pub open spec fn failure_details(
    stdout: Seq<char>,
    stderr: Seq<char>,
    status: Seq<char>,
) -> Seq<char> {
    if text::trimmed(stderr).len() > 0 {
        text::trimmed(stderr)
    } else if text::trimmed(stdout).len() > 0 {
        text::trimmed(stdout)
    } else {
        "exit status "@ + status
    }
}

/// What is said of a command that failed.
pub open spec fn command_failed(
    program: Seq<char>,
    args: Seq<char>,
    details: Seq<char>,
) -> Seq<char> {
    "Omp command failed: "@ + program + " "@ + args + ": "@ + details
}

/// What is said of a command that could not be run.
pub open spec fn command_not_run(
    program: Seq<char>,
    args: Seq<char>,
    error: Seq<char>,
) -> Seq<char> {
    "Failed to run omp command ("@ + program + " "@ + args + "): "@ + error
}

/// What comes of a command whose output has been read as text: its trimmed output if it ended
/// with success, otherwise a message.
pub fn command_result(
    program: &str,
    args: &str,
    success: bool,
    status: &str,
    stdout: &str,
    stderr: &str,
) -> (result: Result<String, String>)
    ensures
        match result {
            Ok(output) => success && output@ == text::trimmed(stdout@),
            Err(message) => !success && message@ == command_failed(
                program@,
                args@,
                failure_details(stdout@, stderr@, status@),
            ),
        },
{
    if success {
        return Ok(trim(stdout).to_owned());
    }
    let mut message = "Omp command failed: ".to_owned();
    message.append(program);
    message.append(" ");
    message.append(args);
    message.append(": ");
    let err = trim(stderr);
    let out = trim(stdout);
    if !err.is_empty() {
        message.append(err);
    } else if !out.is_empty() {
        message.append(out);
    } else {
        let mut details = "exit status ".to_owned();
        details.append(status);
        message.append(details.as_str());
    }
    Err(message)
}

/// What comes of running a command with the omp binary: its trimmed output, or a message if it
/// could not be run or ended without success.
pub fn finish_command(
    program: &str,
    args: &Vec<String>,
    ran: Result<CommandOutput, String>,
) -> (result: Result<String, String>)
    ensures
        match ran {
            Err(error) => result matches Err(message) && message@ == command_not_run(
                program@,
                shown(text::texts(args@)),
                error@,
            ),
            Ok(output) => match result {
                Ok(stdout) => output.success && stdout@ == text::trimmed(lossy(output.stdout@)),
                Err(message) => !output.success && message@ == command_failed(
                    program@,
                    shown(text::texts(args@)),
                    failure_details(
                        lossy(output.stdout@),
                        lossy(output.stderr@),
                        output.status@,
                    ),
                ),
            },
        },
{
    let shown_args = show_list(args);
    match ran {
        Err(error) => {
            let mut message = "Failed to run omp command (".to_owned();
            message.append(program);
            message.append(" ");
            message.append(shown_args.as_str());
            message.append("): ");
            message.append(error.as_str());
            Err(message)
        },
        Ok(output) => {
            let stdout = decode_lossy(&output.stdout);
            let stderr = decode_lossy(&output.stderr);
            command_result(
                program,
                shown_args.as_str(),
                output.success,
                output.status.as_str(),
                stdout.as_str(),
                stderr.as_str(),
            )
        },
    }
}

/// A failed command is blamed on what it wrote, without the white space around it: to standard
/// error if that is more than white space, otherwise to standard output, and if that is white
/// space too on how it ended.
pub proof fn law_failure_is_blamed_on_what_was_written(
    lead: Seq<char>,
    inner: Seq<char>,
    tail: Seq<char>,
    blank: Seq<char>,
    other: Seq<char>,
    status: Seq<char>,
)
    requires
        forall|i: int| 0 <= i < lead.len() ==> text::white_space(#[trigger] lead[i]),
        forall|i: int| 0 <= i < tail.len() ==> text::white_space(#[trigger] tail[i]),
        forall|i: int| 0 <= i < blank.len() ==> text::white_space(#[trigger] blank[i]),
        inner.len() > 0,
        !text::white_space(inner.first()),
        !text::white_space(inner.last()),
    ensures
        failure_details(other, lead + inner + tail, status) == inner,
        failure_details(lead + inner + tail, blank, status) == inner,
        failure_details(lead, blank, status) == "exit status "@ + status,
{
    let none = Seq::<char>::empty();
    text::law_trimmed_is_between(lead, inner, tail);
    text::law_trimmed_is_between(blank, none, none);
    text::law_trimmed_is_between(lead, none, none);
    assert(blank + none + none =~= blank);
    assert(lead + none + none =~= lead);
}

/// What is said of a command names it, its arguments and what went wrong, in this order and
/// whole.
pub proof fn law_message_names_the_command(
    program: Seq<char>,
    args: Seq<char>,
    reason: Seq<char>,
)
    ensures
        command_failed(program, args, reason) == text::join(
            seq!["Omp command failed:"@, program, args + ":"@, reason],
            " "@,
        ),
        command_not_run(program, args, reason) == text::join(
            seq!["Failed to run omp command"@, "("@ + program, args + "):"@, reason],
            " "@,
        ),
{
    let space = " "@;
    reveal_strlit(" ");
    reveal_strlit(":");
    reveal_strlit(": ");
    reveal_strlit("(");
    reveal_strlit("):");
    reveal_strlit("): ");
    reveal_strlit("Omp command failed:");
    reveal_strlit("Omp command failed: ");
    reveal_strlit("Failed to run omp command");
    reveal_strlit("Failed to run omp command (");
    lemma_join_four("Omp command failed:"@, program, args + ":"@, reason, space);
    lemma_join_four("Failed to run omp command"@, "("@ + program, args + "):"@, reason, space);
    assert("Omp command failed:"@ + space =~= "Omp command failed: "@);
    assert(":"@ + space =~= ": "@);
    assert("Failed to run omp command"@ + space + "("@ =~= "Failed to run omp command ("@);
    assert("):"@ + space =~= "): "@);
    assert(command_failed(program, args, reason) =~= "Omp command failed:"@ + space + program
        + space + (args + ":"@) + space + reason);
    assert(command_not_run(program, args, reason) =~= "Failed to run omp command"@ + space + (
    "("@ + program) + space + (args + "):"@) + space + reason);
}

proof fn lemma_join_four(
    a: Seq<char>,
    b: Seq<char>,
    c: Seq<char>,
    d: Seq<char>,
    separator: Seq<char>,
)
    ensures
        text::join(seq![a, b, c, d], separator) == a + separator + b + separator + c + separator
            + d,
{
    assert(seq![a, b, c, d].drop_last() =~= seq![a, b, c]);
    assert(seq![a, b, c].drop_last() =~= seq![a, b]);
    assert(seq![a, b].drop_last() =~= seq![a]);
    reveal_with_fuel(text::join, 4);
}

} // verus!
