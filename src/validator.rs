//! The verdict on a buffered upstream body: whether it counts as empty (and
//! so triggers another attempt) and whether its text passes the tag check.
//!
//! The caller decodes the JSON body and hands over what the verdict reads.

use vstd::prelude::*;
use crate::error::ClewdrError;
use crate::tags::{tag_verdict, validate_required_tags};

verus! {

/// What the verdict reads of a Gemini-native response body.
pub struct GeminiBody {
    /// How many candidates the response holds.
    pub candidate_count: usize,
    /// The first candidate has a non-null `content`.
    pub first_has_content: bool,
    /// The first candidate's `finishReason` is `STOP`.
    pub first_finish_stop: bool,
    /// The textual parts of the first candidate's content, in order.
    pub first_texts: Vec<String>,
}

/// What the verdict reads of an OpenAI-compatible response body.
pub struct OpenAiBody {
    /// `choices` is an empty array.
    pub choices_empty: bool,
    /// The first choice's `finish_reason`, when it is a string.
    pub first_finish_reason: Option<String>,
    /// The first choice's `message.content`, when it is a string.
    pub first_content: Option<String>,
}

/// The texts joined end to end.
pub open spec fn concat_texts(texts: Seq<String>) -> Seq<char>
    decreases texts.len(),
{
    if texts.len() == 0 {
        Seq::empty()
    } else {
        concat_texts(texts.drop_last()) + texts.last()@
    }
}

/// A Gemini body is empty when it has no candidate, or when the first
/// candidate has no content and did not finish with `STOP`.
pub open spec fn gemini_is_empty(b: GeminiBody) -> bool {
    b.candidate_count == 0 || (!b.first_has_content && !b.first_finish_stop)
}

/// An OpenAI body is empty when `choices` is an empty array or the first
/// choice finished with `OTHER`.
pub open spec fn openai_is_empty(b: OpenAiBody) -> bool {
    b.choices_empty || (b.first_finish_reason is Some && b.first_finish_reason->Some_0@ == "OTHER"@)
}

/// The tag check on an OpenAI body: the first choice's content must pass;
/// without content there is nothing to check.
pub open spec fn openai_tags_pass(b: OpenAiBody, required: Seq<char>) -> bool {
    match b.first_content {
        Some(c) => tag_verdict(c@, required) is Ok,
        None => true,
    }
}

/// The tag check on a Gemini body: the first candidate's text parts, joined,
/// must pass; without content there is nothing to check.
pub open spec fn gemini_tags_pass(b: GeminiBody, required: Seq<char>) -> bool {
    !b.first_has_content || tag_verdict(concat_texts(b.first_texts@), required) is Ok
}

/// The first candidate's textual parts joined end to end.
pub fn gemini_text(b: &GeminiBody) -> (r: String)
    ensures
        r@ == concat_texts(b.first_texts@),
{
    let mut r = String::new();
    let mut i: usize = 0;
    while i < b.first_texts.len()
        invariant
            i <= b.first_texts@.len(),
            r@ == concat_texts(b.first_texts@.subrange(0, i as int)),
        decreases b.first_texts.len() - i,
    {
        assert(b.first_texts@.subrange(0, i + 1).drop_last() =~= b.first_texts@.subrange(0, i as int));
        r.append(b.first_texts[i].as_str());
        i += 1;
    }
    assert(b.first_texts@.subrange(0, i as int) =~= b.first_texts@);
    r
}

/// Accepts a Gemini body unless it is empty or its content fails the tag
/// check for `required_tags`; both failures are `EmptyChoices`, so the
/// request is tried again. A candidate without content (finished with
/// `STOP`) is not tag-checked.
pub fn check_gemini_body(b: &GeminiBody, required_tags: &str) -> (r: Result<(), ClewdrError>)
    ensures
        r is Ok <==> !gemini_is_empty(*b) && gemini_tags_pass(*b, required_tags@),
        r is Err ==> r == Err::<(), ClewdrError>(ClewdrError::EmptyChoices),
{
    if b.candidate_count == 0 || (!b.first_has_content && !b.first_finish_stop) {
        return Err(ClewdrError::EmptyChoices);
    }
    if !b.first_has_content {
        return Ok(());
    }
    let text = gemini_text(b);
    match validate_required_tags(text.as_str(), required_tags) {
        Ok(()) => Ok(()),
        Err(_) => Err(ClewdrError::EmptyChoices),
    }
}

/// Accepts an OpenAI body unless it is empty or its content fails the tag
/// check for `required_tags`; both failures are `EmptyChoices`. Without
/// `message.content` only the emptiness test decides.
pub fn check_openai_body(b: &OpenAiBody, required_tags: &str) -> (r: Result<(), ClewdrError>)
    ensures
        r is Ok <==> !openai_is_empty(*b) && openai_tags_pass(*b, required_tags@),
        r is Err ==> r == Err::<(), ClewdrError>(ClewdrError::EmptyChoices),
{
    if b.choices_empty {
        return Err(ClewdrError::EmptyChoices);
    }
    let other = String::from_str("OTHER");
    if let Some(reason) = &b.first_finish_reason {
        if *reason == other {
            return Err(ClewdrError::EmptyChoices);
        }
    }
    let text = match &b.first_content {
        Some(c) => c,
        None => return Ok(()),
    };
    match validate_required_tags(text.as_str(), required_tags) {
        Ok(()) => Ok(()),
        Err(_) => Err(ClewdrError::EmptyChoices),
    }
}

} // verus!
