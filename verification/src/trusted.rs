//! The calls into `gix` that compute on plain values. Verus takes the
//! contracts in this file on trust: each says that the call's result is a
//! function of its arguments, and gives that function a name.

use vstd::prelude::*;

verus! {

/// The unified diff, with `context` lines around each hunk, that turns
/// `before` into `after`, when both are read as lines of UTF-8 text; an error
/// text otherwise.
pub uninterp spec fn unified_diff(before: Seq<u8>, after: Seq<u8>, context: u32) -> Result<
    Seq<char>,
    Seq<char>,
>;

/// The date, time and offset `%Y-%m-%d %H:%M:%S %z` of the instant `seconds`
/// after the epoch, as a clock `offset` seconds east of UTC shows it; an error
/// text where that instant or offset is out of the calendar's range.
pub uninterp spec fn iso8601(seconds: i64, offset: i32) -> Result<Seq<char>, Seq<char>>;

/// The title of a commit message: what stands before its first blank line.
pub uninterp spec fn message_title(message: Seq<u8>) -> Seq<char>;

/// The body of a commit message without its trailers, if it has a body.
pub uninterp spec fn message_body(message: Seq<u8>) -> Option<Seq<char>>;

/// Largest content, in bytes, that the line diff takes.
pub const MAX_DIFF_INPUT: usize = 0x7fff_fffe;

/// Largest number of context lines that the line diff takes.
pub const MAX_DIFF_CONTEXT: u32 = 0x7fff_ffff;

/// Calls `gix::diff::blob::Diff::compute` with Myers' algorithm on the lines
/// of the two contents and renders it with `gix::diff::blob::UnifiedDiff`,
/// `context` lines around each hunk. The contract claims that the text, or
/// the error raised on content that is not UTF-8, depends on the two contents
/// and the size of the context alone. The bound on the contents keeps the
/// number of lines under the limit past which `compute` panics, the bound on
/// the context keeps the line numbers of `UnifiedDiff` within `u32`.
#[verifier::external_body]
pub(crate) fn unified_diff_text(before: &[u8], after: &[u8], context: u32) -> (r: Result<
    String,
    String,
>)
    requires
        before@.len() <= MAX_DIFF_INPUT,
        after@.len() <= MAX_DIFF_INPUT,
        context <= MAX_DIFF_CONTEXT,
    ensures
        match r {
            Ok(text) => unified_diff(before@, after@, context) == Ok::<Seq<char>, Seq<char>>(
                text@,
            ),
            Err(why) => unified_diff(before@, after@, context) == Err::<Seq<char>, Seq<char>>(
                why@,
            ),
        },
{
    let input = gix::diff::blob::InternedInput::new(before, after);
    let diff = gix::diff::blob::Diff::compute(gix::diff::blob::Algorithm::Myers, &input);
    let sink = gix::diff::blob::unified_diff::ConsumeBinaryHunk::new(String::new(), "\n");
    let size = gix::diff::blob::unified_diff::ContextSize::symmetrical(context);
    match gix::diff::blob::UnifiedDiff::new(&diff, &input, sink, size).consume() {
        Ok(text) => Ok(text),
        Err(error) => Err(error.to_string()),
    }
}

/// Calls `gix::date::Time::format` with the format `ISO8601`. The contract
/// claims that the text, or the error, depends on the seconds and the offset
/// alone: the offset is part of the value, no time zone of the machine is read.
#[verifier::external_body]
pub(crate) fn format_iso8601(seconds: i64, offset: i32) -> (r: Result<String, String>)
    ensures
        match r {
            Ok(text) => iso8601(seconds, offset) == Ok::<Seq<char>, Seq<char>>(text@),
            Err(why) => iso8601(seconds, offset) == Err::<Seq<char>, Seq<char>>(why@),
        },
{
    match gix::date::Time::new(seconds, offset).format(gix::date::time::format::ISO8601) {
        Ok(text) => Ok(text),
        Err(error) => Err(error.to_string()),
    }
}

/// Calls `gix::objs::commit::MessageRef::from_bytes` and gives the title as
/// text, bytes that are not UTF-8 replaced. The contract claims that the text
/// depends on the message alone.
#[verifier::external_body]
pub(crate) fn message_title_text(message: &[u8]) -> (r: String)
    ensures
        r@ == message_title(message@),
{
    gix::objs::commit::MessageRef::from_bytes(message).title.to_string()
}

/// Calls `gix::objs::commit::MessageRef::from_bytes` and, where the message
/// has a body, `BodyRef::without_trailer` on it, and gives that as text. The
/// contract claims that the outcome depends on the message alone.
#[verifier::external_body]
pub(crate) fn message_body_text(message: &[u8]) -> (r: Option<String>)
    ensures
        match r {
            Some(text) => message_body(message@) == Some(text@),
            None => message_body(message@).is_none(),
        },
{
    match gix::objs::commit::MessageRef::from_bytes(message).body() {
        Some(body) => Some(body.without_trailer().to_string()),
        None => None,
    }
}

} // verus!
