//! The intent-parser exchange, as computations on plain text: building the
//! parser prompt, and collecting the streamed response tokens out of the
//! line-delimited JSON the model host answers with. The HTTP exchange itself
//! is the shell's business.
use vstd::prelude::*;

use crate::catalog::split_lines;
use crate::errors::ScoutError;
use crate::extract::json_accepted;
use crate::format::spec_trim;

verus! {

/// The instruction handed to the intent parser ahead of the user's text.
pub fn intent_prompt(input: &str) -> (r: String)
    ensures
        r@ == "You are a financial query parser. Extract the company name or ticker mentioned in the user's question, convert it to the correct NSE ticker only if you are highly confident, and otherwise return the company name and set \"ticker\": \"NONE\". Never guess a ticker, never invent symbols, never change the company. Also split the user request into smaller questions preserving meaning. Output only valid JSON of the form {\"ticker\": \"STRING_OR_NULL\", \"company\": \"NAME_OR_NULL\", \"questions\": [\"sub question 1\", \"sub question 2\"]}. User question: "@
            + input@,
{
    let mut p =
        "You are a financial query parser. Extract the company name or ticker mentioned in the user's question, convert it to the correct NSE ticker only if you are highly confident, and otherwise return the company name and set \"ticker\": \"NONE\". Never guess a ticker, never invent symbols, never change the company. Also split the user request into smaller questions preserving meaning. Output only valid JSON of the form {\"ticker\": \"STRING_OR_NULL\", \"company\": \"NAME_OR_NULL\", \"questions\": [\"sub question 1\", \"sub question 2\"]}. User question: ".to_owned();
    p.append(input);
    p
}

/// The `response` string member of one streamed JSON line: present when the
/// line parses and holds one.
pub uninterp spec fn response_token_of(line: Seq<char>) -> Option<Seq<char>>;

/// Relies on serde_json::from_str, Value::get and Value::as_str: the
/// `response` string member of a JSON line; the result depends on the text
/// alone.
#[verifier::external_body]
fn response_token(line: &str) -> (r: Option<String>)
    ensures
        match r {
            Some(t) => response_token_of(line@) == Some(t@),
            None => response_token_of(line@) is None,
        },
{
    let v: serde_json::Value = serde_json::from_str(line).ok()?;
    Some(v.get("response")?.as_str()?.to_string())
}

/// The tokens of a streamed completion, concatenated in line order: each
/// nonblank line contributes its `response` member (nothing when it has
/// none).
pub open spec fn spec_stream_tokens(ls: Seq<Seq<char>>) -> Seq<char>
    decreases ls.len(),
{
    if ls.len() == 0 {
        Seq::empty()
    } else {
        (if spec_trim(ls.first()).len() == 0 {
            Seq::<char>::empty()
        } else {
            match response_token_of(ls.first()) {
                Some(t) => t,
                None => Seq::<char>::empty(),
            }
        }) + spec_stream_tokens(ls.drop_first())
    }
}

/// Collects the streamed completion: every nonblank line of the host's
/// answer must be JSON the parser accepts, and the result is the
/// concatenation, in order, of the lines' `response` members. A nonblank
/// line that is not JSON stops the collection with `MalformedJson`.
#[verifier::loop_isolation(false)]
pub fn collect_stream_tokens(text: &str) -> (r: Result<String, ScoutError>)
    ensures
        match r {
            Ok(out) => out@ == spec_stream_tokens(split_lines(text@)) && (forall|i: int|
                0 <= i < split_lines(text@).len() && spec_trim(
                    #[trigger] split_lines(text@)[i],
                ).len() > 0 ==> json_accepted(split_lines(text@)[i])),
            Err(e) => e == ScoutError::MalformedJson && (exists|i: int|
                0 <= i < split_lines(text@).len() && spec_trim(
                    #[trigger] split_lines(text@)[i],
                ).len() > 0 && !json_accepted(split_lines(text@)[i])),
        },
{
    let lines = crate::config::split_content_lines(text);
    let ghost ls = split_lines(text@);
    let mut out = String::new();
    let n = lines.len();
    let mut i: usize = 0;
    proof {
        assert(ls.skip(0) =~= ls);
    }
    while i < n
        invariant
            i <= n == lines@.len(),
            lines@.map_values(|s: String| s@) == ls,
            ls.len() == n,
            spec_stream_tokens(ls) == out@ + spec_stream_tokens(ls.skip(i as int)),
            forall|j: int|
                0 <= j < i && spec_trim(#[trigger] ls[j]).len() > 0 ==> json_accepted(ls[j]),
        decreases n - i,
    {
        proof {
            assert(ls.skip(i as int).first() == ls[i as int]);
            assert(ls[i as int] == lines@[i as int]@);
            assert(ls.skip(i as int).drop_first() =~= ls.skip(i + 1));
        }
        let line = &lines[i];
        let trimmed = crate::format::trim_string(line.as_str());
        if trimmed.as_str().unicode_len() > 0 {
            if !crate::extract::json_accepts(line.as_str()) {
                return Err(ScoutError::MalformedJson);
            }
            match response_token(line.as_str()) {
                Some(t) => {
                    out.append(t.as_str());
                },
                None => {},
            }
        }
        i = i + 1;
    }
    proof {
        assert(ls.skip(n as int) =~= Seq::<Seq<char>>::empty());
    }
    Ok(out)
}

} // verus!
