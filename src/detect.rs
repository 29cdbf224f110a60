//! Advisory guess of the language that a text is written in.

use vstd::prelude::*;
use vstd::string::*;

verus! {

/// The language code that cld2 guesses for a plain text, if any, and
/// whether it calls the guess reliable.
pub uninterp spec fn detection_of(text: Seq<char>) -> (Option<Seq<char>>, bool);

/// Relies on cld2::detect_language with `Format::Text`: the guessed
/// language's code and the reliability of the guess, which depend on the
/// text alone.
#[verifier::external_body]
fn detect(text: &str) -> (r: (Option<String>, bool))
    ensures
        match r.0 {
            Some(c) => detection_of(text@) == (Some(c@), r.1),
            None => detection_of(text@) == (None::<Seq<char>>, r.1),
        },
{
    let (language, reliability) = cld2::detect_language(text, cld2::Format::Text);
    let reliable = match reliability {
        cld2::Reliability::Reliable => true,
        cld2::Reliability::Unreliable => false,
    };
    (language.map(|l| l.0.to_string()), reliable)
}

/// The code that the interface shows for a detection: the guessed code when
/// the guess is reliable, else the empty text.
pub open spec fn shown_code(detection: (Option<Seq<char>>, bool)) -> Seq<char> {
    match detection.0 {
        Some(c) => if detection.1 {
            c
        } else {
            seq![]
        },
        None => seq![],
    }
}

/// The code to show for the guess `language` of a detector, which calls the
/// guess reliable or not.
pub fn detected_code(language: Option<String>, reliable: bool) -> (r: String)
    ensures
        r@ == shown_code(
            (
                match language {
                    Some(c) => Some(c@),
                    None => None,
                },
                reliable,
            ),
        ),
{
    match language {
        Some(c) => if reliable {
            c
        } else {
            String::new()
        },
        None => String::new(),
    }
}

/// The code of the language that `text` seems to be written in, or the
/// empty text when no reliable guess exists.
pub fn detect_language_code(text: &str) -> (r: String)
    ensures
        r@ == shown_code(detection_of(text@)),
{
    let (language, reliable) = detect(text);
    detected_code(language, reliable)
}

} // verus!
