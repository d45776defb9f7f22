//! The scanner: finds the first position in a byte buffer where a compiled
//! [`Signature`] matches, using the first concrete byte as an anchor.

use vstd::prelude::*;

use crate::signature::Signature;

verus! {

/// The pattern matches the buffer at position `i`: the window fits, and the
/// buffer agrees with the pattern at every concrete position. Wildcard
/// positions impose no constraint.
pub open spec fn matches_at(buf: Seq<u8>, pattern: Seq<u8>, mask: Seq<char>, i: int) -> bool {
    &&& 0 <= i
    &&& i + mask.len() <= buf.len()
    &&& forall|k: int| 0 <= k < mask.len() && #[trigger] mask[k] == 'x' ==> buf[i + k] == pattern[k]
}

/// The first position at or after `i` where the pattern matches, if any.
pub open spec fn first_match_from(buf: Seq<u8>, pattern: Seq<u8>, mask: Seq<char>, i: int) -> Option<
    int,
>
    decreases buf.len() - i,
{
    if i < 0 || i + mask.len() > buf.len() {
        None
    } else if matches_at(buf, pattern, mask, i) {
        Some(i)
    } else {
        first_match_from(buf, pattern, mask, i + 1)
    }
}

/// What a scan of `buf` reports: the first match position shifted by
/// `offset`, or nothing when the pattern matches nowhere.
pub open spec fn spec_find(buf: Seq<u8>, pattern: Seq<u8>, mask: Seq<char>, offset: int) -> Option<
    int,
> {
    match first_match_from(buf, pattern, mask, 0) {
        Some(i) => Some(i + offset),
        None => None,
    }
}

/// The scan result is the leftmost match: when `first_match_from` starting at
/// `lo` reports `i`, the pattern matches at `i` and at no position in
/// `[lo, i)`; when it reports nothing, the pattern matches nowhere at or
/// after `lo`.
pub proof fn lemma_first_match_characterizes(
    buf: Seq<u8>,
    pattern: Seq<u8>,
    mask: Seq<char>,
    lo: int,
)
    requires
        lo >= 0,
    ensures
        match first_match_from(buf, pattern, mask, lo) {
            Some(i) => lo <= i && matches_at(buf, pattern, mask, i) && forall|j: int|
                lo <= j < i ==> !matches_at(buf, pattern, mask, j),
            None => forall|j: int| j >= lo ==> !matches_at(buf, pattern, mask, j),
        },
    decreases buf.len() - lo,
{
    if lo + mask.len() > buf.len() {
        assert forall|j: int| j >= lo implies !matches_at(buf, pattern, mask, j) by {}
    } else if matches_at(buf, pattern, mask, lo) {
    } else {
        lemma_first_match_characterizes(buf, pattern, mask, lo + 1);
    }
}

/// Offset additivity: a scan with offset `k` reports exactly the result of a
/// scan with offset 0 shifted by `k`; the offset never changes whether, or
/// where, the pattern matches.
pub proof fn lemma_offset_additivity(buf: Seq<u8>, pattern: Seq<u8>, mask: Seq<char>, k: int)
    ensures
        match spec_find(buf, pattern, mask, 0) {
            Some(p) => spec_find(buf, pattern, mask, k) == Some(p + k),
            None => spec_find(buf, pattern, mask, k) is None,
        },
{
}

/// Scanning is deterministic: any two results that each equal the scan of
/// the same buffer against the same pattern, mask and offset are the same.
/// Every call of [`find_signature`] ensures its result equals that scan, so
/// repeated scans of one immutable signature against one buffer agree.
pub proof fn lemma_scan_deterministic(
    buf: Seq<u8>,
    pattern: Seq<u8>,
    mask: Seq<char>,
    offset: int,
    r1: Option<int>,
    r2: Option<int>,
)
    requires
        r1 == spec_find(buf, pattern, mask, offset),
        r2 == spec_find(buf, pattern, mask, offset),
    ensures
        r1 == r2,
{
}

/// Verifies the pattern against the window of `search_region` that starts at
/// `base`, comparing only the concrete positions.
fn check_window(search_region: &[u8], signature: &Signature, base: usize) -> (r: bool)
    requires
        signature.wf(),
        base + signature.length <= search_region@.len(),
    ensures
        r == matches_at(search_region@, signature.pattern@, signature.mask@, base as int),
{
    let n: usize = signature.matching_indices.len();
    let region_len: usize = search_region.len();
    let mut j: usize = 0;
    while j < n
        invariant
            signature.wf(),
            region_len == search_region@.len(),
            base + signature.length <= region_len,
            n == signature.matching_indices@.len(),
            j <= n,
            forall|jj: int|
                0 <= jj < j ==> search_region@[base + #[trigger] signature.matching_indices@[jj]]
                    == signature.pattern@[signature.matching_indices@[jj] as int],
        decreases n - j,
    {
        let idx = signature.matching_indices[j];
        if search_region[base + idx] != signature.pattern[idx] {
            proof {
                assert(signature.mask@[idx as int] == 'x');
                assert(!matches_at(search_region@, signature.pattern@, signature.mask@, base as int));
            }
            return false;
        }
        j += 1;
    }
    proof {
        assert forall|k: int|
            0 <= k < signature.mask@.len() && #[trigger] signature.mask@[k] == 'x'
            implies search_region@[base + k] == signature.pattern@[k] by {
            assert(signature.matching_indices@.contains(k as usize));
            let jj = choose|jj: int|
                0 <= jj < signature.matching_indices@.len()
                    && signature.matching_indices@[jj] == k as usize;
            assert(search_region@[base + signature.matching_indices@[jj]]
                == signature.pattern@[signature.matching_indices@[jj] as int]);
        }
    }
    true
}

/// Checks the pattern against the start of `search_region`: true exactly
/// when the signature matches the window at position 0.
pub fn check_mask(search_region: &[u8], signature: &Signature) -> (r: bool)
    requires
        signature.wf(),
        signature.length <= search_region@.len(),
    ensures
        r == matches_at(search_region@, signature.pattern@, signature.mask@, 0),
{
    check_window(search_region, signature, 0)
}

/// Finds the first position where the signature matches the buffer and
/// reports it shifted by the signature's offset, or `None` when the pattern
/// matches nowhere. The first concrete byte serves as an anchor: windows
/// whose anchor position disagrees are skipped without full verification.
/// An all-wildcard signature has no anchor and cannot be scanned; that is a
/// usage error the precondition rules out, not a "not found".
pub fn find_signature(search_region: &[u8], signature: &Signature) -> (r: Option<usize>)
    requires
        signature.wf(),
        signature.first_byte is Some,
        search_region@.len() + signature.offset <= usize::MAX,
    ensures
        ({
            let found = spec_find(
                search_region@,
                signature.pattern@,
                signature.mask@,
                signature.offset as int,
            );
            match r {
                Some(p) => found == Some(p as int),
                None => found is None,
            }
        }),
{
    let ghost buf = search_region@;
    let ghost pat = signature.pattern@;
    let ghost msk = signature.mask@;
    let first_index: usize = match signature.first_byte {
        Some(i) => i,
        None => {
            // ruled out by the precondition: an all-wildcard signature is a
            // usage error, not a "not found"
            return unreached();
        },
    };
    let anchor: u8 = signature.pattern[first_index];
    let region_len: usize = search_region.len();
    if region_len < signature.length {
        return None;
    }
    let mut i: usize = 0;
    while i <= region_len - signature.length
        invariant
            signature.wf(),
            signature.first_byte == Some(first_index),
            anchor == signature.pattern@[first_index as int],
            buf == search_region@,
            pat == signature.pattern@,
            msk == signature.mask@,
            region_len == buf.len(),
            buf.len() + signature.offset <= usize::MAX,
            signature.length <= region_len,
            i <= region_len - signature.length + 1,
            first_match_from(buf, pat, msk, 0) == first_match_from(buf, pat, msk, i as int),
        decreases region_len - i,
    {
        if search_region[i + first_index] == anchor {
            if check_window(search_region, signature, i) {
                proof {
                    assert(first_match_from(buf, pat, msk, i as int) == Some(i as int));
                }
                return Some(i + signature.offset);
            }
        }
        proof {
            assert(msk[first_index as int] == 'x');
            assert(!matches_at(buf, pat, msk, i as int));
        }
        i += 1;
    }
    proof {
        assert(first_match_from(buf, pat, msk, i as int) is None);
    }
    None
}

/// Byte containers that a signature can be scanned over.
pub trait AobScanner {
    /// The bytes the scan reads.
    spec fn bytes(&self) -> Seq<u8>;

    /// Scans these bytes for the signature, as [`find_signature`] does.
    fn find_signature(&self, signature: &Signature) -> (r: Option<usize>)
        requires
            signature.wf(),
            signature.first_byte is Some,
            self.bytes().len() + signature.offset <= usize::MAX,
        ensures
            ({
                let found = spec_find(
                    self.bytes(),
                    signature.pattern@,
                    signature.mask@,
                    signature.offset as int,
                );
                match r {
                    Some(p) => found == Some(p as int),
                    None => found is None,
                }
            }),
    ;
}

impl AobScanner for [u8] {
    open spec fn bytes(&self) -> Seq<u8> {
        self@
    }

    fn find_signature(&self, signature: &Signature) -> (r: Option<usize>) {
        find_signature(self, signature)
    }
}

impl AobScanner for &[u8] {
    open spec fn bytes(&self) -> Seq<u8> {
        self@
    }

    fn find_signature(&self, signature: &Signature) -> (r: Option<usize>) {
        find_signature(self, signature)
    }
}

impl AobScanner for Vec<u8> {
    open spec fn bytes(&self) -> Seq<u8> {
        self@
    }

    fn find_signature(&self, signature: &Signature) -> (r: Option<usize>) {
        find_signature(self.as_slice(), signature)
    }
}

} // verus!

