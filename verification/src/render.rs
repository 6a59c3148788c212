//! Markdown records: a label line with the file's path, then its content
//! in a fenced block tagged with the file's extension.

use crate::path::{extension_of, path_extension};
use crate::text::{trim, trim_text};
use vstd::prelude::*;
use vstd::string::StringExecFns;
use vstd::utf8::{decode_utf8, valid_utf8};

verus! {

/// The three backticks that open and close a block.
pub open spec fn fence() -> Seq<char> {
    seq!['`', '`', '`']
}

/// The tag of the block: the file's extension as it is written in the
/// path, or nothing where the file has none.
pub open spec fn tag(path: Seq<char>) -> Seq<char> {
    match path_extension(path) {
        Some(e) => e,
        None => Seq::empty(),
    }
}

/// What is put between the fences: the content as it is, or trimmed.
pub open spec fn body(content: Seq<char>, trimmed: bool) -> Seq<char> {
    if trimmed {
        trim(content)
    } else {
        content
    }
}

/// The record of one file: the path between backticks on a line of its
/// own, the opening fence with the tag, the body on the lines after it,
/// and the closing fence on a line of its own.
pub open spec fn record(path: Seq<char>, body: Seq<char>) -> Seq<char> {
    seq!['`'] + path + seq!['`', '\n'] + fence() + tag(path) + seq!['\n'] + body + seq!['\n']
        + fence() + seq!['\n']
}

/// Why a file could not be rendered.
#[derive(Debug, Clone, Copy, PartialEq, Eq)]
pub enum RenderError {
    /// The file's bytes are not valid UTF-8.
    InvalidText,
}

impl RenderError {
    /// The message for this error.
    pub fn message(&self) -> (m: String)
        ensures
            m@ == "stream did not contain valid UTF-8"@,
    {
        "stream did not contain valid UTF-8".to_owned()
    }
}

/// `String::from_utf8` checks that the bytes are valid UTF-8 and, where
/// they are, gives the string that they encode; where they are not, it
/// gives an error, which is dropped here.
#[verifier::external_body]
fn decode(bytes: Vec<u8>) -> (r: Option<String>)
    ensures
        r is Some <==> valid_utf8(bytes@),
        r matches Some(s) ==> s@ == decode_utf8(bytes@),
{
    String::from_utf8(bytes).ok()
}

/// Appends the three backticks of a fence.
fn push_fence(out: &mut String)
    ensures
        final(out)@ == old(out)@ + fence(),
{
    out.push('`');
    out.push('`');
    out.push('`');
    assert(out@ =~= old(out)@ + fence());
}

/// Renders the record of the file `path` with the given content, trimmed
/// first where `trimmed` is set.
pub fn render_record(path: &str, content: &str, trimmed: bool) -> (r: String)
    ensures
        r@ == record(path@, body(content@, trimmed)),
{
    let mut out = String::new();
    out.push('`');
    out.append(path);
    out.push('`');
    out.push('\n');
    push_fence(&mut out);
    let ghost head = out@;
    assert(head =~= seq!['`'] + path@ + seq!['`', '\n'] + fence());
    match extension_of(path) {
        Some(e) => {
            out.append(e.as_str());
        },
        None => {},
    }
    assert(out@ =~= head + tag(path@));
    out.push('\n');
    if trimmed {
        let t = trim_text(content);
        out.append(t.as_str());
    } else {
        out.append(content);
    }
    out.push('\n');
    push_fence(&mut out);
    out.push('\n');
    assert(out@ =~= record(path@, body(content@, trimmed)));
    out
}

/// Renders the record of the file `path` from the bytes read from it.
/// Bytes that are not valid UTF-8 are refused.
pub fn render_file(path: &str, bytes: Vec<u8>, trimmed: bool) -> (r: Result<String, RenderError>)
    ensures
        r is Ok <==> valid_utf8(bytes@),
        r matches Ok(s) ==> s@ == record(path@, body(decode_utf8(bytes@), trimmed)),
        r matches Err(e) ==> e == RenderError::InvalidText,
{
    match decode(bytes) {
        Some(content) => Ok(render_record(path, content.as_str(), trimmed)),
        None => Err(RenderError::InvalidText),
    }
}

} // verus!
