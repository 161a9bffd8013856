//! Ordered composition of the primitive transforms into a pipeline.
use vstd::prelude::*;
use crate::ciphers::{TransformError, rc4, rc4_text, replace, reverse, reversed, substituted};
use crate::codec::{
    decode_url_safe_base64, percent_decode, percent_decoded_text, percent_encode,
    percent_encoded_text, url_safe_base64, url_safe_decoded_text, url_safe_encoded_text,
};

verus! {

/// One transform of a pipeline.
#[derive(Debug, Clone, Copy)]
pub enum Step {
    /// The UTF-16 stream cipher under this key.
    StreamCipher(&'static str),
    /// Byte-wise URL-safe base64 encoding.
    Base64Encode,
    /// Byte-wise URL-safe base64 decoding.
    Base64Decode,
    /// Positional substitution of the first string's characters by the second's.
    Substitute(&'static str, &'static str),
    /// Reversal of the characters.
    Reverse,
    /// Percent-encoding of the UTF-8 bytes.
    PercentEncode,
    /// Percent-decoding to UTF-8 text.
    PercentDecode,
}

/// A pipeline stopped: the step at `position` (counting from 0) failed.
#[derive(Debug, PartialEq, Eq, Structural, Clone, Copy)]
pub struct StepFailed {
    pub position: usize,
    pub error: TransformError,
}

/// What one step makes of the text `s`.
pub open spec fn step_result(step: Step, s: Seq<char>) -> Result<Seq<char>, TransformError> {
    match step {
        Step::StreamCipher(k) => if k@.len() == 0 {
            Err(TransformError::InvalidKey)
        } else {
            Ok(rc4_text(k@, s))
        },
        Step::Base64Encode => Ok(url_safe_encoded_text(s)),
        Step::Base64Decode => match url_safe_decoded_text(s) {
            Some(t) => Ok(t),
            None => Err(TransformError::CodecError),
        },
        Step::Substitute(a, b) => Ok(substituted(s, a@, b@)),
        Step::Reverse => Ok(reversed(s)),
        Step::PercentEncode => Ok(percent_encoded_text(s)),
        Step::PercentDecode => match percent_decoded_text(s) {
            Some(t) => Ok(t),
            None => Err(TransformError::CodecError),
        },
    }
}

/// The steps from index `i` on applied to `s` in order, each to the output of
/// the one before; the first failure stops the run and is reported with its
/// position.
pub open spec fn run_from(steps: Seq<Step>, i: int, s: Seq<char>) -> Result<Seq<char>, StepFailed>
    decreases steps.len() - i,
{
    if i < 0 || i >= steps.len() {
        Ok(s)
    } else {
        match step_result(steps[i], s) {
            Err(e) => Err(StepFailed { position: i as usize, error: e }),
            Ok(t) => run_from(steps, i + 1, t),
        }
    }
}

/// The whole pipeline applied to `s`.
pub open spec fn run_spec(steps: Seq<Step>, s: Seq<char>) -> Result<Seq<char>, StepFailed> {
    run_from(steps, 0, s)
}

/// Applies one step to `input`.
pub fn apply_step(step: &Step, input: &str) -> (r: Result<String, TransformError>)
    ensures
        match step_result(*step, input@) {
            Ok(t) => r is Ok && r->Ok_0@ == t,
            Err(e) => r == Err::<String, TransformError>(e),
        },
{
    match step {
        Step::StreamCipher(k) => rc4(k, input),
        Step::Base64Encode => Ok(url_safe_base64(input)),
        Step::Base64Decode => decode_url_safe_base64(input),
        Step::Substitute(a, b) => Ok(replace(input, a, b)),
        Step::Reverse => Ok(reverse(input)),
        Step::PercentEncode => Ok(percent_encode(input)),
        Step::PercentDecode => percent_decode(input),
    }
}

/// Runs `steps` on `input` from left to right. The first step that fails
/// aborts the run, and its position and error come back unchanged.
pub fn run_pipeline(steps: &Vec<Step>, input: &str) -> (r: Result<String, StepFailed>)
    ensures
        match run_spec(steps@, input@) {
            Ok(t) => r is Ok && r->Ok_0@ == t,
            Err(e) => r == Err::<String, StepFailed>(e),
        },
{
    let mut cur = input.to_owned();
    let mut i: usize = 0;
    while i < steps.len()
        invariant
            i <= steps@.len(),
            run_spec(steps@, input@) == run_from(steps@, i as int, cur@),
        decreases steps@.len() - i,
    {
        match apply_step(&steps[i], cur.as_str()) {
            Err(e) => {
                return Err(StepFailed { position: i, error: e });
            },
            Ok(t) => {
                cur = t;
            },
        }
        i += 1;
    }
    Ok(cur)
}

/// Running from a step that succeeds is running from the next one on its output.
pub proof fn lemma_run_step(steps: Seq<Step>, i: int, s: Seq<char>, t: Seq<char>)
    requires
        0 <= i < steps.len(),
        step_result(steps[i], s) == Ok::<Seq<char>, TransformError>(t),
    ensures
        run_from(steps, i, s) == run_from(steps, i + 1, t),
{
}

/// Past the last step the text comes out unchanged.
pub proof fn lemma_run_end(steps: Seq<Step>, s: Seq<char>)
    ensures
        run_from(steps, steps.len() as int, s) == Ok::<Seq<char>, StepFailed>(s),
{
}

proof fn lemma_run_prefix(steps: Seq<Step>, i: int, j: int, s: Seq<char>)
    requires
        0 <= j <= i <= steps.len(),
    ensures
        match run_from(steps.take(i), j, s) {
            Ok(t) => run_from(steps, j, s) == run_from(steps, i, t),
            Err(e) => run_from(steps, j, s) == Err::<Seq<char>, StepFailed>(e),
        },
    decreases i - j,
{
    if j < i {
        assert(steps.take(i)[j] == steps[j]);
        match step_result(steps[j], s) {
            Ok(t) => lemma_run_prefix(steps, i, j + 1, t),
            Err(e) => {},
        }
    }
}

/// A base64-decode step that receives text which is not URL-safe unpadded
/// base64 stops the whole pipeline with `CodecError` at that step's
/// position, whatever steps come before or after it.
pub proof fn lemma_malformed_base64_fails(steps: Seq<Step>, i: int, s: Seq<char>, t: Seq<char>)
    requires
        0 <= i < steps.len(),
        run_spec(steps.take(i), s) == Ok::<Seq<char>, StepFailed>(t),
        steps[i] == Step::Base64Decode,
        url_safe_decoded_text(t) is None,
    ensures
        run_spec(steps, s) == Err::<Seq<char>, StepFailed>(
            StepFailed { position: i as usize, error: TransformError::CodecError },
        ),
{
    lemma_run_prefix(steps, i, 0, s);
}

} // verus!
