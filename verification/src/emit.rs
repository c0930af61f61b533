//! The workflow commands that expose one secret to the job: a line that
//! masks its value in the logs, and a block for each of the two command
//! files that sets a variable to it.

use crate::escape::{escaped, github_escape, lemma_escaped_single_line};
use crate::ident::{
    hyphenated, is_hex_char, is_random_id, lemma_hyphenated_shape, random_uuid, uuid_text,
};
use vstd::prelude::*;
use vstd::string::StringExecFns;

verus! {

/// The line that masks `value` in the logs.
pub open spec fn mask_line(value: Seq<char>) -> Seq<char> {
    "::add-mask::"@ + value
}

/// The delimiter that is made from `token`.
pub open spec fn delimiter_text(token: u128) -> Seq<char> {
    "ghadelimiter_"@ + hyphenated(token)
}

/// The block that sets the variable `key` to `value`, which may span
/// several lines: the key and the delimiter on the first line, then the
/// value as it is, then the delimiter on a line of its own.
pub open spec fn file_block(key: Seq<char>, value: Seq<char>, delimiter: Seq<char>) -> Seq<char> {
    key + "<<"@ + delimiter + "\n"@ + value + "\n"@ + delimiter + "\n"@
}

/// What is written for one secret, over plain sequences.
pub struct EmissionView {
    pub mask: Seq<char>,
    pub env_entry: Seq<char>,
    pub output_entry: Seq<char>,
}

/// What is written for the secret `value` under `name`, with a delimiter
/// from `env_token` for the environment file and one from `output_token`
/// for the output file. The mask line holds the encoded value, the blocks
/// the value as it is.
pub open spec fn emission(
    name: Seq<char>,
    value: Seq<char>,
    env_token: u128,
    output_token: u128,
) -> EmissionView {
    EmissionView {
        mask: mask_line(escaped(value)),
        env_entry: file_block(name, value, delimiter_text(env_token)),
        output_entry: file_block(name, value, delimiter_text(output_token)),
    }
}

/// What is written for one secret: the line for standard output, without
/// its line end, and the blocks to append to the environment file and to
/// the output file.
#[derive(Debug)]
pub struct Emission {
    pub mask: String,
    pub env_entry: String,
    pub output_entry: String,
}

impl View for Emission {
    type V = EmissionView;

    open spec fn view(&self) -> EmissionView {
        EmissionView {
            mask: self.mask@,
            env_entry: self.env_entry@,
            output_entry: self.output_entry@,
        }
    }
}

/// The command that masks `value` in the logs. The value is written as it
/// is given: the caller encodes it first.
pub fn mask_value(value: &str) -> (res: String)
    ensures
        res@ == mask_line(value@),
{
    let mut out = String::from_str("::add-mask::");
    out.append(value);
    out
}

/// The delimiter that is made from `token`.
pub fn delimiter(token: u128) -> (res: String)
    ensures
        res@ == delimiter_text(token),
{
    let mut out = String::from_str("ghadelimiter_");
    out.append(uuid_text(token).as_str());
    out
}

/// The block that sets `key` to `value`, framed by `delimiter`.
pub fn file_command(key: &str, value: &str, delimiter: &str) -> (res: String)
    ensures
        res@ == file_block(key@, value@, delimiter@),
{
    let mut out = String::from_str(key);
    out.append("<<");
    out.append(delimiter);
    out.append("\n");
    out.append(value);
    out.append("\n");
    out.append(delimiter);
    out.append("\n");
    out
}

/// The block that sets `key` to `value`, framed by a delimiter that is
/// drawn afresh at random.
pub fn issue_file_command(key: &str, value: &str) -> (res: String)
    ensures
        exists|token: u128|
            is_random_id(token) && res@ == file_block(key@, value@, delimiter_text(token)),
{
    let token = random_uuid();
    let frame = delimiter(token);
    file_command(key, value, frame.as_str())
}

/// What is written for the secret `value` under `name`, with the two
/// delimiters made from the tokens given.
pub fn compose(name: &str, value: &str, env_token: u128, output_token: u128) -> (res: Emission)
    ensures
        res@ == emission(name@, value@, env_token, output_token),
{
    let encoded = github_escape(value);
    let mask = mask_value(encoded.as_str());
    let env_frame = delimiter(env_token);
    let output_frame = delimiter(output_token);
    Emission {
        mask,
        env_entry: file_command(name, value, env_frame.as_str()),
        output_entry: file_command(name, value, output_frame.as_str()),
    }
}

/// What is written for the secret `secret_value` under `secret_name`: the
/// mask line with the encoded value, and one block for each file with the
/// raw value, each framed by a delimiter of its own, drawn at random.
pub fn set_secrets(secret_name: &str, secret_value: &str) -> (res: Emission)
    ensures
        exists|env_token: u128, output_token: u128|
            is_random_id(env_token) && is_random_id(output_token) && res@ == emission(
                secret_name@,
                secret_value@,
                env_token,
                output_token,
            ),
{
    let env_token = random_uuid();
    let output_token = random_uuid();
    compose(secret_name, secret_value, env_token, output_token)
}

/// The mask line of an encoded value holds no carriage return and no line
/// feed, whatever the value: the command stays on one line.
pub proof fn lemma_mask_single_line(value: Seq<char>)
    ensures
        forall|i: int|
            0 <= i < mask_line(escaped(value)).len() ==> mask_line(escaped(value))[i] != '\r'
                && mask_line(escaped(value))[i] != '\n',
{
    reveal_strlit("::add-mask::");
    lemma_escaped_single_line(value);
    let line = mask_line(escaped(value));
    assert forall|i: int| 0 <= i < line.len() implies line[i] != '\r' && line[i] != '\n' by {
        if i >= 12 {
            assert(line[i] == escaped(value)[i - 12]);
        }
    }
}

/// A delimiter has forty-nine characters, none of them a carriage return
/// or a line feed: it fits on a line of its own.
pub proof fn lemma_delimiter_shape(token: u128)
    ensures
        delimiter_text(token).len() == 49,
        delimiter_text(token).subrange(0, 13) == "ghadelimiter_"@,
        delimiter_text(token).subrange(13, 49) == hyphenated(token),
        forall|i: int|
            0 <= i < 49 ==> delimiter_text(token)[i] != '\r' && delimiter_text(token)[i] != '\n',
{
    reveal_strlit("ghadelimiter_");
    lemma_hyphenated_shape(token);
    let d = delimiter_text(token);
    assert(d.subrange(0, 13) =~= "ghadelimiter_"@);
    assert(d.subrange(13, 49) =~= hyphenated(token));
    assert forall|i: int| 0 <= i < 49 implies d[i] != '\r' && d[i] != '\n' by {
        if i >= 13 {
            let c = hyphenated(token)[i - 13];
            assert(d[i] == c);
            assert(c == '-' || is_hex_char(c));
        }
    }
}

/// A block is the head line, the value as it is, and the foot: the line
/// end after the value and the delimiter on a line of its own.
pub proof fn lemma_block_frame(key: Seq<char>, value: Seq<char>, delimiter: Seq<char>)
    ensures
        file_block(key, value, delimiter) == (key + "<<"@ + delimiter + "\n"@) + value + ("\n"@
            + delimiter + "\n"@),
        file_block(key, value, delimiter).len() == key.len() + value.len() + 2 * delimiter.len()
            + 5,
        file_block(key, value, delimiter).subrange(
            (key.len() + delimiter.len() + 3) as int,
            (key.len() + delimiter.len() + 3 + value.len()) as int,
        ) == value,
        file_block(key, value, delimiter).last() == '\n',
{
    reveal_strlit("<<");
    reveal_strlit("\n");
    let head = key + "<<"@ + delimiter + "\n"@;
    let foot = "\n"@ + delimiter + "\n"@;
    let block = file_block(key, value, delimiter);
    assert(block =~= head + value + foot);
    assert(block.subrange(head.len() as int, (head.len() + value.len()) as int) =~= value);
}

/// Why the secrets cannot be written.
#[derive(Clone, Copy, Debug, PartialEq, Eq, Structural)]
pub enum EmissionError {
    /// The place of the environment file is not known.
    MissingEnvTarget,
    /// The place of the output file is not known.
    MissingOutputTarget,
}

/// The places of the two command files.
#[derive(Debug)]
pub struct Targets {
    pub env_path: String,
    pub output_path: String,
}

/// The error for the two places as they were looked up, if there is one:
/// the environment file is asked for first.
pub open spec fn missing_target(
    env_path: Option<String>,
    output_path: Option<String>,
) -> Option<EmissionError> {
    if env_path is None {
        Some(EmissionError::MissingEnvTarget)
    } else if output_path is None {
        Some(EmissionError::MissingOutputTarget)
    } else {
        None
    }
}

/// The name of the setting that holds the place of the environment file.
pub fn env_target_name() -> (res: &'static str)
    ensures
        res@ == "GITHUB_ENV"@,
{
    "GITHUB_ENV"
}

/// The name of the setting that holds the place of the output file.
pub fn output_target_name() -> (res: &'static str)
    ensures
        res@ == "GITHUB_OUTPUT"@,
{
    "GITHUB_OUTPUT"
}

/// The places of the two command files, from what looking them up gave.
/// Both are needed.
pub fn resolve_targets(env_path: Option<String>, output_path: Option<String>) -> (res: Result<
    Targets,
    EmissionError,
>)
    ensures
        match res {
            Ok(targets) => env_path == Some(targets.env_path) && output_path == Some(
                targets.output_path,
            ),
            Err(error) => missing_target(env_path, output_path) == Some(error),
        },
{
    match env_path {
        None => Err(EmissionError::MissingEnvTarget),
        Some(env_path) => match output_path {
            None => Err(EmissionError::MissingOutputTarget),
            Some(output_path) => Ok(Targets { env_path, output_path }),
        },
    }
}

impl EmissionError {
    /// The error in words.
    pub fn message(&self) -> (res: String)
        ensures
            res@ == (match *self {
                EmissionError::MissingEnvTarget => "GITHUB_ENV"@,
                EmissionError::MissingOutputTarget => "GITHUB_OUTPUT"@,
            }) + " is not set"@,
    {
        let mut out = String::from_str(
            match self {
                EmissionError::MissingEnvTarget => env_target_name(),
                EmissionError::MissingOutputTarget => output_target_name(),
            },
        );
        out.append(" is not set");
        out
    }
}

} // verus!
