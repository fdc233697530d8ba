//! Shared validation for the filename-safe string segments used by package
//! identities, asset PUIDs and asset categories.
//!
//! All three are validated identically: non-empty, ASCII alphanumeric plus
//! `_` and `-`. Dots are rejected because the `.nspkg` filename grammar
//! reserves `.` to separate an asset PUID from its category.

use vstd::prelude::*;

use crate::text::{char_debug, char_debug_text, join, join3, owned};

verus! {

/// A filename-safe segment failed validation.
#[derive(Debug, Clone, Copy, PartialEq, Eq)]
pub enum IdentError {
    /// The segment was empty.
    Empty,
    /// The segment contained a character outside `[A-Za-z0-9_-]`; this is
    /// the first such character.
    InvalidChar(char),
}

/// True for the characters a segment may contain: ASCII letters, digits,
/// `_` and `-`.
pub open spec fn is_segment_char(c: char) -> bool {
    ('a' <= c && c <= 'z') || ('A' <= c && c <= 'Z') || ('0' <= c && c <= '9') || c == '_'
        || c == '-'
}

/// True when `s` is a valid segment: non-empty and made only of segment
/// characters.
pub open spec fn is_valid_segment(s: Seq<char>) -> bool {
    s.len() > 0 && forall|i: int| 0 <= i < s.len() ==> is_segment_char(#[trigger] s[i])
}

/// Index of the first character of `s` that is not a segment character
/// (`s.len()` when there is none).
pub open spec fn first_invalid_index(s: Seq<char>) -> int
    decreases s.len(),
{
    if s.len() == 0 {
        0
    } else if !is_segment_char(s[0]) {
        0
    } else {
        1 + first_invalid_index(s.drop_first())
    }
}

/// The outcome of validating `s`: `Empty` for the empty string, otherwise
/// the first character that is not a segment character, if any.
pub open spec fn spec_validate_segment(s: Seq<char>) -> Result<(), IdentError> {
    if s.len() == 0 {
        Err(IdentError::Empty)
    } else if first_invalid_index(s) < s.len() {
        Err(IdentError::InvalidChar(s[first_invalid_index(s)]))
    } else {
        Ok(())
    }
}

/// `first_invalid_index` is the position of the first non-segment
/// character.
pub proof fn lemma_first_invalid_index(s: Seq<char>)
    ensures
        0 <= first_invalid_index(s) <= s.len(),
        forall|j: int| 0 <= j < first_invalid_index(s) ==> is_segment_char(#[trigger] s[j]),
        first_invalid_index(s) < s.len() ==> !is_segment_char(s[first_invalid_index(s)]),
    decreases s.len(),
{
    if s.len() > 0 && is_segment_char(s[0]) {
        lemma_first_invalid_index(s.drop_first());
        assert forall|j: int| 0 <= j < first_invalid_index(s) implies is_segment_char(
            #[trigger] s[j],
        ) by {
            if j > 0 {
                assert(s[j] == s.drop_first()[j - 1]);
            }
        }
    }
}

/// A segment is valid exactly when validation succeeds.
pub proof fn lemma_validate_ok(s: Seq<char>)
    ensures
        spec_validate_segment(s) is Ok <==> is_valid_segment(s),
{
    lemma_first_invalid_index(s);
    if s.len() > 0 && first_invalid_index(s) == s.len() {
        assert(is_valid_segment(s));
    }
    if is_valid_segment(s) && first_invalid_index(s) < s.len() {
        assert(is_segment_char(s[first_invalid_index(s)]));
    }
}

/// The `.nspkg` grammar reserves `.`: no segment containing a dot is valid,
/// so a dot in a filename always separates segments.
pub proof fn law_dot_never_in_segment(s: Seq<char>, i: int)
    requires
        0 <= i < s.len(),
        s[i] == '.',
    ensures
        !is_valid_segment(s),
        spec_validate_segment(s) is Err,
{
    lemma_validate_ok(s);
    assert(!is_segment_char(s[i]));
}

/// Exact character test used by [`validate_segment`].
pub fn segment_char(c: char) -> (b: bool)
    ensures
        b == is_segment_char(c),
{
    ('a' <= c && c <= 'z') || ('A' <= c && c <= 'Z') || ('0' <= c && c <= '9') || c == '_'
        || c == '-'
}

/// Validates `raw` as a segment, reporting `Empty` or the first invalid
/// character.
pub fn validate_segment(raw: &str) -> (res: Result<(), IdentError>)
    ensures
        res == spec_validate_segment(raw@),
        res is Ok <==> is_valid_segment(raw@),
{
    proof {
        lemma_first_invalid_index(raw@);
        lemma_validate_ok(raw@);
    }
    if raw.is_empty() {
        return Err(IdentError::Empty);
    }
    let ghost s = raw@;
    for c in it: raw.chars()
        invariant
            it.seq() == s,
            s == raw@,
            s.len() > 0,
            0 <= first_invalid_index(s) <= s.len(),
            forall|j: int| 0 <= j < first_invalid_index(s) ==> is_segment_char(#[trigger] s[j]),
            first_invalid_index(s) < s.len() ==> !is_segment_char(s[first_invalid_index(s)]),
            forall|j: int| 0 <= j < it.index() ==> is_segment_char(#[trigger] s[j]),
    {
        let ghost i = it.index();
        if !segment_char(c) {
            assert(s[i as int] == c);
            assert(first_invalid_index(s) == i) by {
                if first_invalid_index(s) < i {
                    assert(is_segment_char(s[first_invalid_index(s)]));
                }
            }
            return Err(IdentError::InvalidChar(c));
        }
    }
    Ok(())
}

/// The human-readable description of an identity-segment failure.
pub open spec fn ident_error_text(e: IdentError) -> Seq<char> {
    match e {
        IdentError::Empty => "must not be empty"@,
        IdentError::InvalidChar(c) => "contains invalid character "@ + char_debug_text(c)
            + " (only ASCII letters, digits, '_' and '-' are allowed)"@,
    }
}

impl IdentError {
    /// Human-readable description of the failure.
    pub fn message(&self) -> (m: String)
        ensures
            m@ == ident_error_text(*self),
    {
        match self {
            IdentError::Empty => owned("must not be empty"),
            IdentError::InvalidChar(c) => {
                let quoted = char_debug(*c);
                let head = join(owned("contains invalid character "), quoted.as_str());
                join(head, " (only ASCII letters, digits, '_' and '-' are allowed)")
            },
        }
    }
}


/// The segment alphabet by code point: a character may stand in a segment
/// exactly when it is an ASCII digit (48–57), an ASCII capital (65–90), an
/// ASCII small letter (97–122), `_` (95) or `-` (45). Everything else, such
/// as `:`, `.`, `/`, a space or any non-ASCII character, is refused.
pub proof fn law_segment_alphabet(c: char)
    ensures
        is_segment_char(c) <==> {
            let n = c as u32;
            (48 <= n <= 57) || (65 <= n <= 90) || (97 <= n <= 122) || n == 95 || n == 45
        },
{
}

/// Validation reports the first character outside the segment alphabet:
/// when every character before position `i` is an ASCII letter, digit, `_`
/// or `-` and the one at `i` is not, validation fails with that character;
/// when every character is one of them (and there is at least one), it
/// succeeds; the empty string fails as `Empty`.
pub proof fn law_validation_reports_first_foreign_char(s: Seq<char>, i: int)
    requires
        0 <= i <= s.len(),
        forall|j: int|
            0 <= j < i ==> {
                let n = #[trigger] s[j] as u32;
                (48 <= n <= 57) || (65 <= n <= 90) || (97 <= n <= 122) || n == 95 || n == 45
            },
    ensures
        i < s.len() && !({
            let n = s[i] as u32;
            (48 <= n <= 57) || (65 <= n <= 90) || (97 <= n <= 122) || n == 95 || n == 45
        }) ==> spec_validate_segment(s) == Err::<(), IdentError>(IdentError::InvalidChar(s[i])),
        i == s.len() && s.len() > 0 ==> spec_validate_segment(s) == Ok::<(), IdentError>(()),
        s.len() == 0 ==> spec_validate_segment(s) == Err::<(), IdentError>(IdentError::Empty),
{
    lemma_first_invalid_index(s);
    assert forall|j: int| 0 <= j < i implies is_segment_char(#[trigger] s[j]) by {
        law_segment_alphabet(s[j]);
    }
    if i < s.len() {
        law_segment_alphabet(s[i]);
        let k = first_invalid_index(s);
        if k < i {
            assert(is_segment_char(s[k]));
        }
        if !is_segment_char(s[i]) && k > i {
            assert(is_segment_char(s[i]));
        }
    } else if s.len() > 0 {
        let k = first_invalid_index(s);
        if k < s.len() {
            assert(is_segment_char(s[k]));
        }
    }
}

} // verus!
