//! The detection pipeline's pure stages: bounding the input sample,
//! packaging engine candidates into records, and truncating the output.

use vstd::prelude::*;
use crate::record::{DetectedLanguage, wf_fields};

verus! {

pub open spec fn min_int(a: int, b: int) -> int {
    if a <= b {
        a
    } else {
        b
    }
}

/// Keeps at most `limit` bytes of the sample: exactly the first
/// `min(limit, len)` bytes survive, so no more than `limit` bytes are ever
/// classified.
pub fn truncate_sample(sample: Vec<u8>, limit: usize) -> (r: Vec<u8>)
    ensures
        r@ == sample@.take(min_int(limit as int, sample@.len() as int)),
        r@.len() == min_int(limit as int, sample@.len() as int),
{
    let mut v = sample;
    if limit < v.len() {
        v.truncate(limit);
    }
    proof {
        assert(v@ =~= sample@.take(min_int(limit as int, sample@.len() as int)));
    }
    v
}

/// One raw engine candidate: language name, two-letter code, three-letter
/// code, confidence in micro-units.
pub type Candidate = (String, String, String, u64);

/// Packages raw engine candidates into records, in exactly the order
/// given. Succeeds precisely when every candidate satisfies the record
/// invariant; nothing is dropped, reordered or invented.
pub fn from_candidates(cands: &Vec<Candidate>) -> (r: Option<Vec<DetectedLanguage>>)
    ensures
        (r is Some <==> forall|i: int|
            0 <= i < cands@.len() ==> wf_fields(
                #[trigger] cands@[i].0@,
                cands@[i].1@,
                cands@[i].2@,
                cands@[i].3,
            )),
        r matches Some(v) ==> {
            &&& v@.len() == cands@.len()
            &&& forall|i: int|
                0 <= i < v@.len() ==> {
                    &&& (#[trigger] v@[i]).lang@ == cands@[i].0@
                    &&& v@[i].iso_639_1@ == cands@[i].1@
                    &&& v@[i].iso_639_3@ == cands@[i].2@
                    &&& v@[i].confidence_micro == cands@[i].3
                    &&& v@[i].wf()
                }
        },
{
    let mut out: Vec<DetectedLanguage> = Vec::new();
    let n = cands.len();
    let mut i: usize = 0;
    while i < n
        invariant
            n == cands@.len(),
            i <= n,
            out@.len() == i,
            forall|j: int|
                0 <= j < i ==> wf_fields(
                    #[trigger] cands@[j].0@,
                    cands@[j].1@,
                    cands@[j].2@,
                    cands@[j].3,
                ),
            forall|j: int|
                0 <= j < i ==> {
                    &&& (#[trigger] out@[j]).lang@ == cands@[j].0@
                    &&& out@[j].iso_639_1@ == cands@[j].1@
                    &&& out@[j].iso_639_3@ == cands@[j].2@
                    &&& out@[j].confidence_micro == cands@[j].3
                    &&& out@[j].wf()
                },
        decreases n - i,
    {
        let c = &cands[i];
        let rec = DetectedLanguage::new(c.0.clone(), c.1.clone(), c.2.clone(), c.3);
        match rec {
            Some(rec) => {
                out.push(rec);
            },
            None => {
                return None;
            },
        }
        i = i + 1;
    }
    Some(out)
}

/// Truncates the record sequence to the configured output limit: the
/// result holds the first `min(limit, len)` records when a limit is set,
/// and every record otherwise.
pub fn truncate_records(records: Vec<DetectedLanguage>, limit: Option<usize>) -> (r: Vec<
    DetectedLanguage,
>)
    ensures
        r@ == (match limit {
            Some(n) => records@.take(min_int(n as int, records@.len() as int)),
            None => records@,
        }),
        r@.len() == (match limit {
            Some(n) => min_int(n as int, records@.len() as int),
            None => records@.len() as int,
        }),
{
    match limit {
        None => {
            proof {
                assert(records@ =~= records@.take(records@.len() as int));
            }
            records
        },
        Some(n) => {
            let mut v = records;
            if n < v.len() {
                v.truncate(n);
            }
            proof {
                assert(v@ =~= v@.take(v@.len() as int));
            }
            v
        },
    }
}

} // verus!
