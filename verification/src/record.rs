//! The classification record: one detected language with its codes and its
//! confidence, held as plain values.

use vstd::prelude::*;

verus! {

/// The confidence scale: 1_000_000 micro-units stand for certainty (1.0).
pub const CONF_ONE_MICRO: u64 = 1_000_000;

/// The characters a record field may hold: printable ASCII without the two
/// characters that JSON strings escape. Such a field is emitted verbatim.
pub open spec fn json_safe(s: Seq<char>) -> bool {
    forall|i: int|
        0 <= i < s.len() ==> (0x20 <= #[trigger] s[i] as int <= 0x7e && s[i] != '"' && s[i]
            != '\\')
}

/// Field-level well-formedness of a classification record: safe text, a
/// two-letter and a three-letter code, and a confidence within the scale.
pub open spec fn wf_fields(lang: Seq<char>, iso_639_1: Seq<char>, iso_639_3: Seq<char>, confidence_micro: u64) -> bool {
    &&& json_safe(lang)
    &&& json_safe(iso_639_1)
    &&& iso_639_1.len() == 2
    &&& json_safe(iso_639_3)
    &&& iso_639_3.len() == 3
    &&& confidence_micro <= CONF_ONE_MICRO
}

/// One classification result: the language, both standardized codes, and
/// the confidence in micro-units.
#[derive(Debug, Clone, PartialEq, Eq)]
pub struct DetectedLanguage {
    pub lang: String,
    pub iso_639_1: String,
    pub iso_639_3: String,
    pub confidence_micro: u64,
}

impl DetectedLanguage {
    pub open spec fn wf(self) -> bool {
        wf_fields(self.lang@, self.iso_639_1@, self.iso_639_3@, self.confidence_micro)
    }

    /// Builds a record from its parts; parts that break the record's
    /// invariant are rejected, so every record that exists is well-formed.
    pub fn new(lang: String, iso_639_1: String, iso_639_3: String, confidence_micro: u64) -> (r:
        Option<DetectedLanguage>)
        ensures
            r is Some <==> wf_fields(lang@, iso_639_1@, iso_639_3@, confidence_micro),
            r matches Some(rec) ==> rec == (DetectedLanguage {
                lang,
                iso_639_1,
                iso_639_3,
                confidence_micro,
            }),
    {
        if !is_json_safe(lang.as_str()) {
            return None;
        }
        if !is_json_safe(iso_639_1.as_str()) || iso_639_1.as_str().unicode_len() != 2 {
            return None;
        }
        if !is_json_safe(iso_639_3.as_str()) || iso_639_3.as_str().unicode_len() != 3 {
            return None;
        }
        if confidence_micro > CONF_ONE_MICRO {
            return None;
        }
        Some(DetectedLanguage { lang, iso_639_1, iso_639_3, confidence_micro })
    }
}

/// Decides `json_safe` for a character.
pub fn is_json_safe_char(c: char) -> (b: bool)
    ensures
        b == (0x20 <= c as int <= 0x7e && c != '"' && c != '\\'),
{
    let n = c as u32;
    0x20 <= n && n <= 0x7e && c != '"' && c != '\\'
}

/// Decides `json_safe` for a whole string.
pub fn is_json_safe(s: &str) -> (b: bool)
    ensures
        b == json_safe(s@),
{
    let len = s.unicode_len();
    let mut i: usize = 0;
    while i < len
        invariant
            len == s@.len(),
            i <= len,
            forall|j: int|
                0 <= j < i ==> (0x20 <= #[trigger] s@[j] as int <= 0x7e && s@[j] != '"' && s@[j]
                    != '\\'),
        decreases len - i,
    {
        let c = s.get_char(i);
        if !is_json_safe_char(c) {
            return false;
        }
        i = i + 1;
    }
    true
}

} // verus!
