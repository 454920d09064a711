//! Affinity of a function instance with a node feature.
use vstd::prelude::*;
use crate::text::str_equal;

verus! {

/// Whether a node feature (a TEE, a TPM) is required by a function instance.
#[derive(PartialEq, Eq, Structural, Debug, Clone, Copy)]
pub enum AffinityLevel {
    Required,
    NotRequired,
}

/// The lowercase form of a text, as `str::to_lowercase` computes it.
pub uninterp spec fn lowercase(s: Seq<char>) -> Seq<char>;

/// Whether a text is made of lowercase ASCII letters and hyphens only.
pub open spec fn lower_ascii(s: Seq<char>) -> bool {
    forall|i: int| 0 <= i < s.len() ==> ('a' <= #[trigger] s[i] <= 'z' || s[i] == '-')
}

/// Lowercase a text with std's `str::to_lowercase`. The contract names the
/// result `lowercase` of the text, and states that a text of lowercase ASCII
/// letters and hyphens is left as it is (each of these characters is its
/// own lowercase mapping); the rest of the Unicode case mapping is std's
/// own.
#[verifier::external_body]
pub(crate) fn to_lowercase(s: &str) -> (r: String)
    ensures
        r@ == lowercase(s@),
        lower_ascii(s@) ==> r@ == s@,
{
    s.to_lowercase()
}

/// The affinity level written by a text: `Required` exactly when the
/// lowercase form of the text is "required".
pub open spec fn affinity_of(val: Seq<char>) -> AffinityLevel {
    if lowercase(val) == "required"@ {
        AffinityLevel::Required
    } else {
        AffinityLevel::NotRequired
    }
}

pub open spec fn affinity_text(a: AffinityLevel) -> Seq<char> {
    match a {
        AffinityLevel::Required => "required"@,
        AffinityLevel::NotRequired => "not-required"@,
    }
}

impl AffinityLevel {
    /// Read an affinity level from a text, case-insensitively.
    pub fn from_string(val: &str) -> (r: Self)
        ensures
            r == affinity_of(val@),
            lower_ascii(val@) ==> (r == AffinityLevel::Required <==> val@ == "required"@),
    {
        let lower = to_lowercase(val);
        if str_equal(lower.as_str(), "required") {
            AffinityLevel::Required
        } else {
            AffinityLevel::NotRequired
        }
    }

    /// The text of this level: "required" or "not-required".
    pub fn to_text(&self) -> (r: String)
        ensures
            r@ == affinity_text(*self),
    {
        match self {
            AffinityLevel::Required => String::from_str("required"),
            AffinityLevel::NotRequired => String::from_str("not-required"),
        }
    }
}

/// The text of a level is lowercase ASCII and is "required" exactly for
/// `Required`: with `from_string`, which reads such a text as it stands,
/// reading back the text of a level gives the level.
pub proof fn lemma_affinity_text_roundtrip(a: AffinityLevel)
    ensures
        lower_ascii(affinity_text(a)),
        affinity_text(a) == "required"@ <==> a == AffinityLevel::Required,
{
    reveal_strlit("required");
    reveal_strlit("not-required");
    if a == AffinityLevel::NotRequired {
        assert("not-required"@.len() != "required"@.len());
    }
}

} // verus!
