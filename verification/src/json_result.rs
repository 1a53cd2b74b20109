//! The JSON envelope of every response, and the pieces of JSON text that
//! the payloads are put together from. All text is laid out as pretty
//! JSON with an indent of two spaces.

use vstd::prelude::*;
use crate::text::chars_of;

verus! {

/// The JSON string literal that writes `text`: the text between double
/// quotes, with the escapes that `rustc_serialize` gives it.
pub uninterp spec fn json_string(text: Seq<char>) -> Seq<char>;

/// `rustc_serialize::json::as_pretty_json` on a string, formatted. Not
/// proved: that the text it gives depends on the string alone.
#[verifier::external_body]
fn encode_string(text: &str) -> (r: String)
    ensures
        r@ == json_string(text@),
{
    format!("{}", rustc_serialize::json::as_pretty_json(&text))
}

/// `text` one level deeper: two spaces follow every line break.
pub open spec fn indented(text: Seq<char>) -> Seq<char>
    decreases text.len(),
{
    if text.len() == 0 {
        Seq::empty()
    } else if text.last() == '\n' {
        indented(text.drop_last()) + "\n  "@
    } else {
        indented(text.drop_last()).push(text.last())
    }
}

/// A string or `null`.
pub open spec fn json_optional(text: Option<Seq<char>>) -> Seq<char> {
    match text {
        Some(text) => json_string(text),
        None => "null"@,
    }
}

/// The items of a non-empty array, each on a line of its own.
pub open spec fn json_items(items: Seq<Seq<char>>) -> Seq<char>
    decreases items.len(),
{
    if items.len() == 0 {
        Seq::empty()
    } else if items.len() == 1 {
        "\n  "@ + indented(items[0])
    } else {
        json_items(items.drop_last()) + ",\n  "@ + indented(items.last())
    }
}

/// An array of items that are JSON text already.
pub open spec fn json_array(items: Seq<Seq<char>>) -> Seq<char> {
    if items.len() == 0 {
        "[]"@
    } else {
        "["@ + json_items(items) + "\n]"@
    }
}

/// The body of a response that succeeded: an object whose `data` is the
/// payload, and a line break after it.
pub open spec fn result_envelope(payload: Seq<char>) -> Seq<char> {
    "{\n  \"data\": "@ + indented(payload) + "\n}\n"@
}

/// The body of a response that failed: an object whose `message` says
/// why, and a line break after it.
pub open spec fn error_envelope(message: Seq<char>) -> Seq<char> {
    "{\n  \"message\": "@ + json_string(message) + "\n}\n"@
}

/// Text without a line break is the same one level deeper, also at the end
/// of other text.
pub proof fn lemma_indented_line(text: Seq<char>, line: Seq<char>)
    requires
        forall|i: int| 0 <= i < line.len() ==> line[i] != '\n',
    ensures
        indented(text + line) == indented(text) + line,
    decreases line.len(),
{
    if line.len() == 0 {
        assert(text + line =~= text);
        assert(indented(text) + line =~= indented(text));
    } else {
        let init = line.drop_last();
        lemma_indented_line(text, init);
        assert((text + line).drop_last() =~= text + init);
        assert((text + line).last() == line.last());
        assert(indented(text + init).push(line.last()) =~= indented(text) + line);
    }
}

/// Appends `text` to `out`, one level deeper.
pub fn push_indented(out: &mut String, text: &str)
    ensures
        final(out)@ == old(out)@ + indented(text@),
{
    let chars = chars_of(text);
    let n: usize = chars.len();
    let mut start: usize = 0;
    let mut i: usize = 0;
    assert(out@ =~= old(out)@ + indented(text@.take(0)));
    while i < n
        invariant
            start <= i <= n == text@.len(),
            chars@ == text@,
            forall|j: int| start <= j < i ==> text@[j] != '\n',
            out@ == old(out)@ + indented(text@.take(start as int)),
        decreases n - i,
    {
        if chars[i] == '\n' {
            let line = text.substring_char(start, i);
            out.append(line);
            out.append("\n  ");
            proof {
                let done = text@.take(start as int);
                lemma_indented_line(done, line@);
                assert(done + line@ =~= text@.take(i as int));
                assert(text@.take(i + 1).drop_last() =~= text@.take(i as int));
                assert(text@.take(i + 1).last() == '\n');
                assert(out@ =~= old(out)@ + indented(text@.take(i + 1)));
            }
            start = i + 1;
        }
        i += 1;
    }
    let line = text.substring_char(start, n);
    out.append(line);
    proof {
        let done = text@.take(start as int);
        lemma_indented_line(done, line@);
        assert(done + line@ =~= text@);
        assert(final(out)@ =~= old(out)@ + indented(text@));
    }
}

/// Appends the JSON string literal of `text` to `out`.
pub fn push_json_string(out: &mut String, text: &str)
    ensures
        final(out)@ == old(out)@ + json_string(text@),
{
    let encoded = encode_string(text);
    out.append(encoded.as_str());
}

/// Appends the JSON string literal of `text`, or `null`, to `out`.
pub fn push_json_optional(out: &mut String, text: &Option<String>)
    ensures
        final(out)@ == old(out)@ + json_optional(
            match *text {
                Some(text) => Some(text@),
                None => None,
            },
        ),
{
    match text {
        Some(text) => push_json_string(out, text.as_str()),
        None => out.append("null"),
    }
}

/// Wraps a payload, given as pretty JSON, into the envelope of a response
/// that succeeded.
pub fn as_json_result(result: &str) -> (r: String)
    ensures
        r@ == result_envelope(result@),
{
    let mut out = String::from_str("{\n  \"data\": ");
    push_indented(&mut out, result);
    out.append("\n}\n");
    out
}

/// Wraps a message into the envelope of a response that failed.
pub fn as_json_error(error_msg: &str) -> (r: String)
    ensures
        r@ == error_envelope(error_msg@),
{
    let mut out = String::from_str("{\n  \"message\": ");
    push_json_string(&mut out, error_msg);
    out.append("\n}\n");
    out
}

} // verus!
