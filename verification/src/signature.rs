//! The signature compiler: textual byte patterns with `??` wildcards are
//! parsed into an immutable [`Signature`] holding the byte pattern, the
//! concrete/wildcard mask, and the derived lookup data the scanner uses.

use vstd::prelude::*;

use crate::text::{
    hex_digit, hex_digit_value, is_hex_digit, is_space_char, push_char, strip, strip_spaces,
    to_upper, upper_char,
};

verus! {

/// Group `g` of the stripped signature text: its two characters.
pub open spec fn group_at(t: Seq<char>, g: int) -> Seq<char> {
    t.subrange(2 * g, 2 * g + 2)
}

/// A group is a wildcard as soon as either of its characters is `?`.
pub open spec fn wildcard_at(t: Seq<char>, g: int) -> bool {
    t[2 * g] == '?' || t[2 * g + 1] == '?'
}

/// A group parses: it is a wildcard or two hexadecimal digits.
pub open spec fn group_ok(t: Seq<char>, g: int) -> bool {
    wildcard_at(t, g) || (is_hex_digit(t[2 * g]) && is_hex_digit(t[2 * g + 1]))
}

/// The byte a group contributes to the pattern: the placeholder 0 for a
/// wildcard, the base-16 value otherwise.
pub open spec fn group_byte(t: Seq<char>, g: int) -> u8 {
    if wildcard_at(t, g) {
        0
    } else {
        (16 * (hex_digit_value(t[2 * g]) as int) + (hex_digit_value(t[2 * g + 1]) as int)) as u8
    }
}

/// The mask tag of a group: `?` for a wildcard, `x` for a concrete byte.
pub open spec fn group_mask_char(t: Seq<char>, g: int) -> char {
    if wildcard_at(t, g) {
        '?'
    } else {
        'x'
    }
}

/// The pattern compiled from stripped text `t`, one byte per group.
pub open spec fn spec_pattern(t: Seq<char>) -> Seq<u8> {
    Seq::new((t.len() / 2) as nat, |g: int| group_byte(t, g))
}

/// The mask compiled from stripped text `t`, one tag per group.
pub open spec fn spec_mask(t: Seq<char>) -> Seq<char> {
    Seq::new((t.len() / 2) as nat, |g: int| group_mask_char(t, g))
}

/// The first group at or after `g` that does not parse, if any.
pub open spec fn first_bad_group_from(t: Seq<char>, g: int) -> Option<int>
    decreases t.len() as int / 2 - g,
{
    if g < 0 || g >= t.len() as int / 2 {
        None
    } else if !group_ok(t, g) {
        Some(g)
    } else {
        first_bad_group_from(t, g + 1)
    }
}

/// The first group of the stripped text that does not parse, if any.
pub open spec fn first_bad_group(t: Seq<char>) -> Option<int> {
    first_bad_group_from(t, 0)
}

/// The canonical rendering of the groups at and after `g` (`g >= 1`): each
/// preceded by a single space, letters upper-cased.
pub open spec fn canonical_tail(t: Seq<char>, g: int) -> Seq<char>
    decreases t.len() as int / 2 - g,
{
    if g < 1 || g >= t.len() as int / 2 {
        Seq::empty()
    } else {
        seq![' ', upper_char(t[2 * g]), upper_char(t[2 * g + 1])] + canonical_tail(t, g + 1)
    }
}

/// The canonical rendering of stripped text `t`: two-character groups joined
/// by single spaces, with ASCII letters upper-cased.
pub open spec fn canonical(t: Seq<char>) -> Seq<char>
    recommends
        t.len() % 2 == 0,
{
    if t.len() < 2 {
        Seq::empty()
    } else {
        seq![upper_char(t[0]), upper_char(t[1])] + canonical_tail(t, 1)
    }
}

/// Why a signature text failed to compile.
#[derive(Debug, Clone, PartialEq, Eq)]
pub enum SignatureParseError {
    /// The stripped text's length was odd: each byte needs two characters.
    InvalidLength(usize),
    /// A two-character group was neither a wildcard nor hexadecimal.
    InvalidString(String),
}

/// A compiled byte-pattern signature, immutable once constructed.
#[derive(Debug, Clone, PartialEq, Eq)]
pub struct Signature {
    /// Index of the first wildcard position, absent when fully concrete.
    pub first_wildcard: Option<usize>,
    /// Index of the first concrete position, absent when all wildcards.
    pub first_byte: Option<usize>,
    /// Ascending indices of the concrete positions.
    pub matching_indices: Vec<usize>,
    /// Number of bytes in the pattern.
    pub length: usize,
    /// The byte values; wildcard positions hold the placeholder 0.
    pub pattern: Vec<u8>,
    /// `x` at concrete positions, `?` at wildcard positions.
    pub mask: Vec<char>,
    /// The canonical textual form of the signature.
    pub sig: String,
    /// Added to a raw match position before it is reported.
    pub offset: usize,
}

impl Signature {
    /// Structural well-formedness: the fields agree with each other in the
    /// way every constructed `Signature` guarantees.
    pub open spec fn wf(&self) -> bool {
        &&& self.pattern@.len() == self.length
        &&& self.mask@.len() == self.length
        &&& forall|k: int|
            0 <= k < self.length ==> (#[trigger] self.mask@[k] == 'x' || self.mask@[k] == '?')
        &&& forall|k: int|
            0 <= k < self.length && #[trigger] self.mask@[k] == '?' ==> self.pattern@[k] == 0
        &&& forall|j: int|
            0 <= j < self.matching_indices@.len() ==> #[trigger] self.matching_indices@[j]
                < self.length && self.mask@[self.matching_indices@[j] as int] == 'x'
        &&& forall|j1: int, j2: int|
            0 <= j1 < j2 < self.matching_indices@.len() ==> #[trigger] self.matching_indices@[j1]
                < #[trigger] self.matching_indices@[j2]
        &&& forall|k: int|
            0 <= k < self.length && #[trigger] self.mask@[k] == 'x'
                ==> self.matching_indices@.contains(k as usize)
        &&& match self.first_byte {
            Some(i) => i < self.length && self.mask@[i as int] == 'x' && forall|j: int|
                0 <= j < i ==> #[trigger] self.mask@[j] != 'x',
            None => forall|k: int| 0 <= k < self.length ==> #[trigger] self.mask@[k] != 'x',
        }
        &&& match self.first_wildcard {
            Some(i) => i < self.length && self.mask@[i as int] == '?' && forall|j: int|
                0 <= j < i ==> #[trigger] self.mask@[j] != '?',
            None => forall|k: int| 0 <= k < self.length ==> #[trigger] self.mask@[k] != '?',
        }
    }

    /// Parses signature text into its pattern and mask.
    ///
    /// Whitespace is removed first. The result is `Ok` exactly when the
    /// stripped text has even length and every two-character group is a
    /// wildcard or hexadecimal; the errors report, in this order, an odd
    /// stripped length or the first group that does not parse.
    pub fn get_pattern_and_mask_from_signature(signature: &str) -> (r: Result<
        (Vec<u8>, Vec<char>),
        SignatureParseError,
    >)
        ensures
            ({
                let t = strip_spaces(signature@);
                match r {
                    Ok(pm) => {
                        &&& t.len() % 2 == 0
                        &&& first_bad_group(t) is None
                        &&& pm.0@ == spec_pattern(t)
                        &&& pm.1@ == spec_mask(t)
                    },
                    Err(e) => match e {
                        SignatureParseError::InvalidLength(n) => t.len() % 2 != 0 && n == t.len(),
                        SignatureParseError::InvalidString(g) => {
                            &&& t.len() % 2 == 0
                            &&& match first_bad_group(t) {
                                Some(b) => g@ == group_at(t, b),
                                None => false,
                            }
                        },
                    },
                }
            }),
    {
        let ghost t = strip_spaces(signature@);
        let stripped = strip(signature);
        if stripped.len() % 2 != 0 {
            return Err(SignatureParseError::InvalidLength(stripped.len()));
        }
        let n_groups: usize = stripped.len() / 2;
        let mut bytes: Vec<u8> = Vec::new();
        let mut mask: Vec<char> = Vec::new();
        let mut g: usize = 0;
        while g < n_groups
            invariant
                t == strip_spaces(signature@),
                stripped@ == t,
                t.len() <= usize::MAX,
                t.len() % 2 == 0,
                n_groups == t.len() / 2,
                g <= n_groups,
                bytes@ == spec_pattern(t).subrange(0, g as int),
                mask@ == spec_mask(t).subrange(0, g as int),
                first_bad_group(t) == first_bad_group_from(t, g as int),
            decreases n_groups - g,
        {
            let c0 = stripped[2 * g];
            let c1 = stripped[2 * g + 1];
            if c0 == '?' || c1 == '?' {
                bytes.push(0);
                mask.push('?');
            } else {
                let hi = match hex_digit(c0) {
                    Some(v) => v,
                    None => {
                        let gs = group_string(c0, c1);
                        proof {
                            assert(!group_ok(t, g as int));
                            assert(first_bad_group_from(t, g as int) == Some(g as int));
                            assert(gs@ =~= group_at(t, g as int));
                        }
                        return Err(SignatureParseError::InvalidString(gs));
                    },
                };
                let lo = match hex_digit(c1) {
                    Some(v) => v,
                    None => {
                        let gs = group_string(c0, c1);
                        proof {
                            assert(!group_ok(t, g as int));
                            assert(first_bad_group_from(t, g as int) == Some(g as int));
                            assert(gs@ =~= group_at(t, g as int));
                        }
                        return Err(SignatureParseError::InvalidString(gs));
                    },
                };
                bytes.push(16 * hi + lo);
                mask.push('x');
            }
            proof {
                assert(bytes@ =~= spec_pattern(t).subrange(0, g + 1));
                assert(mask@ =~= spec_mask(t).subrange(0, g + 1));
            }
            g += 1;
        }
        proof {
            assert(bytes@ =~= spec_pattern(t));
            assert(mask@ =~= spec_mask(t));
        }
        Ok((bytes, mask))
    }

    /// Renders signature text in canonical form: two-character groups joined
    /// by single spaces, ASCII letters upper-cased. Whitespace in the input
    /// is removed first; only an odd stripped length is rejected.
    pub fn format(signature: &str) -> (r: Result<String, SignatureParseError>)
        ensures
            ({
                let t = strip_spaces(signature@);
                match r {
                    Ok(s) => t.len() % 2 == 0 && s@ == canonical(t),
                    Err(e) => match e {
                        SignatureParseError::InvalidLength(n) => t.len() % 2 != 0 && n == t.len(),
                        SignatureParseError::InvalidString(_) => false,
                    },
                }
            }),
    {
        let ghost t = strip_spaces(signature@);
        let stripped = strip(signature);
        if stripped.len() % 2 != 0 {
            return Err(SignatureParseError::InvalidLength(stripped.len()));
        }
        let n_groups: usize = stripped.len() / 2;
        let mut out = String::new();
        if n_groups == 0 {
            return Ok(out);
        }
        push_char(&mut out, to_upper(stripped[0]));
        push_char(&mut out, to_upper(stripped[1]));
        let mut g: usize = 1;
        proof {
            assert(out@ =~= seq![upper_char(t[0]), upper_char(t[1])]);
        }
        while g < n_groups
            invariant
                t == strip_spaces(signature@),
                stripped@ == t,
                t.len() <= usize::MAX,
                t.len() % 2 == 0,
                n_groups == t.len() / 2,
                1 <= g <= n_groups,
                canonical(t) == out@ + canonical_tail(t, g as int),
            decreases n_groups - g,
        {
            push_char(&mut out, ' ');
            push_char(&mut out, to_upper(stripped[2 * g]));
            push_char(&mut out, to_upper(stripped[2 * g + 1]));
            proof {
                let gi = g as int;
                assert(canonical_tail(t, gi) == seq![
                    ' ',
                    upper_char(t[2 * gi]),
                    upper_char(t[2 * gi + 1]),
                ] + canonical_tail(t, gi + 1));
                assert(canonical(t) =~= out@ + canonical_tail(t, gi + 1));
            }
            g += 1;
        }
        proof {
            assert(canonical_tail(t, n_groups as int) =~= Seq::<char>::empty());
            assert(canonical(t) =~= out@);
        }
        Ok(out)
    }

    /// Compiles signature text into a [`Signature`].
    ///
    /// The result is `Ok` exactly when the stripped text has even length and
    /// every group parses; the compiled value is well formed, carries the
    /// pattern and mask of the text, the given offset, and the canonical
    /// rendering of the text. The errors are those of
    /// [`Self::get_pattern_and_mask_from_signature`].
    pub fn new(signature: &str, offset: usize) -> (r: Result<Signature, SignatureParseError>)
        ensures
            ({
                let t = strip_spaces(signature@);
                match r {
                    Ok(s) => {
                        &&& t.len() % 2 == 0
                        &&& first_bad_group(t) is None
                        &&& s.wf()
                        &&& s.pattern@ == spec_pattern(t)
                        &&& s.mask@ == spec_mask(t)
                        &&& s.length == t.len() / 2
                        &&& s.offset == offset
                        &&& s.sig@ == canonical(t)
                    },
                    Err(e) => match e {
                        SignatureParseError::InvalidLength(n) => t.len() % 2 != 0 && n == t.len(),
                        SignatureParseError::InvalidString(g) => {
                            &&& t.len() % 2 == 0
                            &&& match first_bad_group(t) {
                                Some(b) => g@ == group_at(t, b),
                                None => false,
                            }
                        },
                    },
                }
            }),
    {
        let (pattern, mask) = match Self::get_pattern_and_mask_from_signature(signature) {
            Ok(pm) => pm,
            Err(e) => {
                return Err(e);
            },
        };
        let mut matching_indices: Vec<usize> = Vec::new();
        let mut first_byte: Option<usize> = None;
        let mut first_wildcard: Option<usize> = None;
        let mut k: usize = 0;
        let mask_len: usize = mask.len();
        while k < mask_len
            invariant
                mask_len == mask@.len(),
                k <= mask@.len(),
                forall|i: int| 0 <= i < mask@.len() ==> (#[trigger] mask@[i] == 'x' || mask@[i] == '?'),
                forall|j: int|
                    0 <= j < matching_indices@.len() ==> #[trigger] matching_indices@[j] < k
                        && mask@[matching_indices@[j] as int] == 'x',
                forall|j1: int, j2: int|
                    0 <= j1 < j2 < matching_indices@.len()
                        ==> #[trigger] matching_indices@[j1] < #[trigger] matching_indices@[j2],
                forall|p: int|
                    0 <= p < k && #[trigger] mask@[p] == 'x' ==> matching_indices@.contains(
                        p as usize,
                    ),
                match first_byte {
                    Some(i) => i < k && mask@[i as int] == 'x' && forall|j: int|
                        0 <= j < i ==> #[trigger] mask@[j] != 'x',
                    None => forall|j: int| 0 <= j < k ==> #[trigger] mask@[j] != 'x',
                },
                match first_wildcard {
                    Some(i) => i < k && mask@[i as int] == '?' && forall|j: int|
                        0 <= j < i ==> #[trigger] mask@[j] != '?',
                    None => forall|j: int| 0 <= j < k ==> #[trigger] mask@[j] != '?',
                },
            decreases mask@.len() - k,
        {
            let m = mask[k];
            if m == 'x' {
                let ghost before = matching_indices@;
                matching_indices.push(k);
                proof {
                    assert forall|p: int|
                        0 <= p < k + 1 && #[trigger] mask@[p] == 'x' implies matching_indices@
                        .contains(p as usize) by {
                        if p < k {
                            let j = choose|j: int|
                                0 <= j < before.len() && before[j] == p as usize;
                            assert(matching_indices@[j] == p as usize);
                        } else {
                            assert(matching_indices@[before.len() as int] == p as usize);
                        }
                    }
                }
                if first_byte.is_none() {
                    first_byte = Some(k);
                }
            } else {
                if first_wildcard.is_none() {
                    first_wildcard = Some(k);
                }
            }
            k += 1;
        }
        let sig = match Self::format(signature) {
            Ok(s) => s,
            Err(e) => {
                return Err(e);
            },
        };
        let length = pattern.len();
        Ok(
            Signature {
                first_wildcard,
                first_byte,
                matching_indices,
                length,
                pattern,
                mask,
                sig,
                offset,
            },
        )
    }

    /// The canonical display form of the stored signature text, in place of
    /// a `Display` impl. For a signature built by [`Self::new`] the stored
    /// text is already canonical, so by [`lemma_canonical_idempotent`] this
    /// returns that text itself.
    pub fn rendered(&self) -> (r: Result<String, SignatureParseError>)
        ensures
            ({
                let t = strip_spaces(self.sig@);
                match r {
                    Ok(s) => t.len() % 2 == 0 && s@ == canonical(t),
                    Err(e) => match e {
                        SignatureParseError::InvalidLength(n) => t.len() % 2 != 0 && n == t.len(),
                        SignatureParseError::InvalidString(_) => false,
                    },
                }
            }),
    {
        Self::format(self.sig.as_str())
    }
}

/// A well-formed signature has an anchor exactly when it has a concrete
/// position: `first_byte` is present iff `matching_indices` is non-empty.
pub proof fn lemma_anchor_iff_concrete(s: &Signature)
    requires
        s.wf(),
    ensures
        (s.first_byte is Some) <==> s.matching_indices@.len() > 0,
{
    match s.first_byte {
        Some(i) => {
            assert(s.mask@[i as int] == 'x');
            assert(s.matching_indices@.contains(i));
        },
        None => {
            if s.matching_indices@.len() > 0 {
                assert(s.mask@[s.matching_indices@[0] as int] == 'x');
            }
        },
    }
}

/// `t` with every character upper-cased as [`upper_char`] does.
pub open spec fn upper_text(t: Seq<char>) -> Seq<char> {
    Seq::new(t.len(), |i: int| upper_char(t[i]))
}

/// Upper-casing a character changes neither whether it is `?`, nor whether
/// it is a hexadecimal digit, nor the digit's value, nor whether it is
/// whitespace.
proof fn lemma_upper_char_facts(c: char)
    ensures
        (upper_char(c) == '?') == (c == '?'),
        is_hex_digit(upper_char(c)) == is_hex_digit(c),
        is_hex_digit(c) ==> hex_digit_value(upper_char(c)) == hex_digit_value(c),
        is_space_char(upper_char(c)) == is_space_char(c),
{
}

/// Whitespace removal distributes over concatenation.
proof fn lemma_strip_append(a: Seq<char>, b: Seq<char>)
    ensures
        strip_spaces(a + b) == strip_spaces(a) + strip_spaces(b),
    decreases b.len(),
{
    if b.len() == 0 {
        assert(a + b =~= a);
        assert(strip_spaces(a) + strip_spaces(b) =~= strip_spaces(a));
    } else {
        lemma_strip_append(a, b.drop_last());
        assert((a + b).drop_last() =~= a + b.drop_last());
        assert((a + b).last() == b.last());
    }
}

/// Stripped text holds no whitespace.
pub proof fn lemma_strip_no_spaces(s: Seq<char>)
    ensures
        forall|i: int|
            0 <= i < strip_spaces(s).len() ==> !is_space_char(#[trigger] strip_spaces(s)[i]),
    decreases s.len(),
{
    if s.len() > 0 {
        lemma_strip_no_spaces(s.drop_last());
        let r = strip_spaces(s);
        let rp = strip_spaces(s.drop_last());
        if !is_space_char(s.last()) {
            assert forall|i: int| 0 <= i < r.len() implies !is_space_char(r[i]) by {
                if i < rp.len() {
                    assert(r[i] == rp[i]);
                } else {
                    assert(r[i] == s.last());
                }
            }
        }
    }
}

/// Stripping the canonical tail from group `g` on yields the upper-cased
/// characters of those groups.
proof fn lemma_strip_canonical_tail(t: Seq<char>, g: int)
    requires
        t.len() % 2 == 0,
        forall|i: int| 0 <= i < t.len() ==> !is_space_char(#[trigger] t[i]),
        1 <= g <= t.len() as int / 2,
    ensures
        strip_spaces(canonical_tail(t, g)) == upper_text(t).subrange(2 * g, t.len() as int),
    decreases t.len() as int / 2 - g,
{
    let count = t.len() as int / 2;
    if g == count {
        assert(strip_spaces(canonical_tail(t, g)) =~= upper_text(t).subrange(2 * g, t.len() as int));
    } else {
        let x = upper_char(t[2 * g]);
        let y = upper_char(t[2 * g + 1]);
        lemma_upper_char_facts(t[2 * g]);
        lemma_upper_char_facts(t[2 * g + 1]);
        lemma_strip_append(seq![' ', x, y], canonical_tail(t, g + 1));
        lemma_strip_canonical_tail(t, g + 1);
        assert(strip_spaces(seq![' ', x, y]) =~= seq![x, y]) by {
            reveal_with_fuel(strip_spaces, 4);
            assert(seq![' ', x, y].drop_last() =~= seq![' ', x]);
            assert(seq![' ', x].drop_last() =~= seq![' ']);
            assert(seq![' '].drop_last() =~= Seq::<char>::empty());
        }
        assert(strip_spaces(canonical_tail(t, g)) =~= upper_text(t).subrange(
            2 * g,
            t.len() as int,
        ));
    }
}

/// Stripping the canonical rendering of whitespace-free text upper-cases it
/// and nothing more.
proof fn lemma_strip_canonical(t: Seq<char>)
    requires
        t.len() % 2 == 0,
        forall|i: int| 0 <= i < t.len() ==> !is_space_char(#[trigger] t[i]),
    ensures
        strip_spaces(canonical(t)) == upper_text(t),
{
    if t.len() < 2 {
        assert(strip_spaces(canonical(t)) =~= upper_text(t));
    } else {
        let x = upper_char(t[0]);
        let y = upper_char(t[1]);
        lemma_upper_char_facts(t[0]);
        lemma_upper_char_facts(t[1]);
        lemma_strip_append(seq![x, y], canonical_tail(t, 1));
        lemma_strip_canonical_tail(t, 1);
        assert(strip_spaces(seq![x, y]) =~= seq![x, y]) by {
            reveal_with_fuel(strip_spaces, 3);
            assert(seq![x, y].drop_last() =~= seq![x]);
            assert(seq![x].drop_last() =~= Seq::<char>::empty());
        }
        assert(strip_spaces(canonical(t)) =~= upper_text(t));
    }
}

/// Upper-casing signature text changes no group's wildcard status, validity,
/// mask tag, or byte value.
proof fn lemma_upper_preserves_groups(t: Seq<char>, g: int)
    requires
        t.len() % 2 == 0,
        0 <= g < t.len() as int / 2,
    ensures
        wildcard_at(upper_text(t), g) == wildcard_at(t, g),
        group_ok(upper_text(t), g) == group_ok(t, g),
        group_mask_char(upper_text(t), g) == group_mask_char(t, g),
        group_ok(t, g) ==> group_byte(upper_text(t), g) == group_byte(t, g),
{
    lemma_upper_char_facts(t[2 * g]);
    lemma_upper_char_facts(t[2 * g + 1]);
}

/// The first group that does not parse is the same in the text and in its
/// upper-cased form, provided every earlier group parses in both.
proof fn lemma_upper_preserves_first_bad(t: Seq<char>, g: int)
    requires
        t.len() % 2 == 0,
        0 <= g,
    ensures
        first_bad_group_from(upper_text(t), g) == first_bad_group_from(t, g),
    decreases t.len() as int / 2 - g,
{
    let count = t.len() as int / 2;
    if g < count {
        lemma_upper_preserves_groups(t, g);
        if group_ok(t, g) {
            lemma_upper_preserves_first_bad(t, g + 1);
        }
    }
}

/// Upper-casing is idempotent character by character.
proof fn lemma_upper_idempotent(c: char)
    ensures
        upper_char(upper_char(c)) == upper_char(c),
{
}

/// The canonical rendering of upper-cased text is that of the text itself.
proof fn lemma_canonical_of_upper_tail(t: Seq<char>, g: int)
    requires
        t.len() % 2 == 0,
        1 <= g,
    ensures
        canonical_tail(upper_text(t), g) == canonical_tail(t, g),
    decreases t.len() as int / 2 - g,
{
    let count = t.len() as int / 2;
    if g < count {
        lemma_upper_idempotent(t[2 * g]);
        lemma_upper_idempotent(t[2 * g + 1]);
        lemma_canonical_of_upper_tail(t, g + 1);
        assert(canonical_tail(upper_text(t), g) =~= canonical_tail(t, g));
    } else {
        assert(canonical_tail(upper_text(t), g) =~= canonical_tail(t, g));
    }
}

/// Rendering is idempotent: canonical text renders to itself. The canonical
/// form stored in a compiled signature therefore renders back unchanged.
pub proof fn lemma_canonical_idempotent(t: Seq<char>)
    requires
        t.len() % 2 == 0,
        forall|i: int| 0 <= i < t.len() ==> !is_space_char(#[trigger] t[i]),
    ensures
        strip_spaces(canonical(t)).len() % 2 == 0,
        canonical(strip_spaces(canonical(t))) == canonical(t),
{
    lemma_strip_canonical(t);
    let u = upper_text(t);
    if t.len() < 2 {
        assert(canonical(u) =~= canonical(t));
    } else {
        lemma_upper_idempotent(t[0]);
        lemma_upper_idempotent(t[1]);
        lemma_canonical_of_upper_tail(t, 1);
        assert(canonical(u) =~= canonical(t));
    }
}

/// Round trip of the canonical rendering: when signature text compiles, the
/// canonical form stored in the compiled signature compiles again, to the
/// same pattern and the same mask.
pub proof fn lemma_render_roundtrip(text: Seq<char>)
    requires
        strip_spaces(text).len() % 2 == 0,
        first_bad_group(strip_spaces(text)) is None,
    ensures
        ({
            let t = strip_spaces(text);
            let t2 = strip_spaces(canonical(t));
            &&& t2.len() % 2 == 0
            &&& first_bad_group(t2) is None
            &&& spec_pattern(t2) == spec_pattern(t)
            &&& spec_mask(t2) == spec_mask(t)
        }),
{
    let t = strip_spaces(text);
    lemma_strip_no_spaces(text);
    lemma_strip_canonical(t);
    let t2 = upper_text(t);
    lemma_upper_preserves_first_bad(t, 0);
    assert forall|g: int| 0 <= g < t.len() as int / 2 implies group_ok(t, g) by {
        lemma_first_bad_none_all_ok(t, g);
    }
    assert forall|g: int|
        0 <= g < t.len() as int / 2 implies #[trigger] group_byte(t2, g) == group_byte(t, g)
        && group_mask_char(t2, g) == group_mask_char(t, g) by {
        lemma_upper_preserves_groups(t, g);
    }
    assert(spec_pattern(t2) =~= spec_pattern(t));
    assert(spec_mask(t2) =~= spec_mask(t));
}

/// When no group fails to parse, every group parses.
proof fn lemma_first_bad_none_all_ok(t: Seq<char>, g: int)
    requires
        first_bad_group(t) is None,
        0 <= g < t.len() as int / 2,
    ensures
        group_ok(t, g),
{
    lemma_first_bad_prefix(t, 0, g);
}

/// When the scan for a bad group reaches past `g` without stopping, group
/// `g` parses.
proof fn lemma_first_bad_prefix(t: Seq<char>, lo: int, g: int)
    requires
        0 <= lo <= g < t.len() as int / 2,
        first_bad_group_from(t, lo) is None || first_bad_group_from(t, lo)->Some_0 > g,
    ensures
        group_ok(t, g),
    decreases g - lo,
{
    if lo < g {
        lemma_first_bad_prefix(t, lo + 1, g);
    }
}

/// The two characters of a group, as a `String`, for an error report.
fn group_string(c0: char, c1: char) -> (r: String)
    ensures
        r@ == seq![c0, c1],
{
    let mut s = String::new();
    push_char(&mut s, c0);
    push_char(&mut s, c1);
    proof {
        assert(s@ =~= seq![c0, c1]);
    }
    s
}

} // verus!
