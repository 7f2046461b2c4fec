//! The patchers that replace the sRGB EOTF constants in shaders.
use vstd::prelude::*;
use aho_corasick::{AhoCorasick, BuildError, MatchKind};

verus! {

use crate::bytes::{le_bytes, push_le};
use crate::error::Error;
use crate::BinaryPatcher;

/// The automaton of the `aho-corasick` crate; opaque here.
#[verifier::external_type_specification]
#[verifier::external_body]
pub struct ExAhoCorasick(AhoCorasick);

/// The error of building an automaton; opaque here.
#[verifier::external_type_specification]
#[verifier::external_body]
pub struct ExBuildError(BuildError);

/// The patterns an automaton searches for, in the order they were given.
pub uninterp spec fn automaton_patterns(a: AhoCorasick) -> Seq<Seq<u8>>;

/// The match semantics of an automaton, as `aho_corasick::MatchKind` has
/// them.
#[derive(Debug, Clone, Copy, PartialEq, Eq)]
pub enum Semantics {
    Standard,
    LeftmostFirst,
    LeftmostLongest,
}

/// The match semantics an automaton was built with.
pub uninterp spec fn automaton_semantics(a: AhoCorasick) -> Semantics;

/// Whether an automaton supports unanchored search.
pub uninterp spec fn automaton_unanchored(a: AhoCorasick) -> bool;

/// Whether an automaton matches ASCII letters without regard to their case.
pub uninterp spec fn automaton_ascii_case_insensitive(a: AhoCorasick) -> bool;

/// What `AhoCorasick::replace_all_bytes` gives for an automaton with the
/// match semantics `semantics`, ASCII case-insensitive or not, over
/// `patterns`: `haystack` with every match replaced by the replacement of the
/// pattern that matched.
pub uninterp spec fn automaton_replacement(
    semantics: Semantics,
    case_insensitive: bool,
    patterns: Seq<Seq<u8>>,
    haystack: Seq<u8>,
    replace_with: Seq<Seq<u8>>,
) -> Seq<u8>;

/// Whether pattern `k` occurs in `hay` starting at `i`.
pub open spec fn occurs_at(patterns: Seq<Seq<u8>>, hay: Seq<u8>, i: int, k: int) -> bool {
    &&& 0 <= k < patterns.len()
    &&& 0 <= i
    &&& i + patterns[k].len() <= hay.len()
    &&& hay.subrange(i, i + patterns[k].len()) == patterns[k]
}

/// Whether pattern `k` is a longest one among those that occur at `i`.
pub open spec fn longest_at(patterns: Seq<Seq<u8>>, hay: Seq<u8>, i: int, k: int) -> bool {
    &&& occurs_at(patterns, hay, i, k)
    &&& forall|k2: int| #[trigger]
        occurs_at(patterns, hay, i, k2) ==> patterns[k2].len() <= patterns[k].len()
}

/// Whether the patterns are not empty and no two are the same.
pub open spec fn distinct_nonempty(patterns: Seq<Seq<u8>>) -> bool {
    &&& forall|k: int| 0 <= k < patterns.len() ==> #[trigger] patterns[k].len() > 0
    &&& forall|k1: int, k2: int|
        0 <= k1 < patterns.len() && 0 <= k2 < patterns.len() && k1 != k2 ==> #[trigger] patterns[k1]
            != #[trigger] patterns[k2]
}

/// `hay` from `i` on with its leftmost-longest matches replaced: where a
/// pattern occurs at `i`, the longest one that does is replaced and the
/// search goes on past it; else the byte at `i` stays. Stated for patterns
/// that are not empty and pairwise different, where the longest is unique.
pub open spec fn replaced_from(
    patterns: Seq<Seq<u8>>,
    hay: Seq<u8>,
    replace_with: Seq<Seq<u8>>,
    i: int,
) -> Seq<u8>
    decreases hay.len() - i,
{
    if i < 0 || i >= hay.len() {
        Seq::empty()
    } else if exists|k: int| longest_at(patterns, hay, i, k) && patterns[k].len() > 0 {
        let k = choose|k: int| longest_at(patterns, hay, i, k) && patterns[k].len() > 0;
        replace_with[k] + replaced_from(patterns, hay, replace_with, i + patterns[k].len())
    } else {
        seq![hay[i]] + replaced_from(patterns, hay, replace_with, i + 1)
    }
}

/// Law: where every replacement is as long as its pattern, the replacement
/// keeps the length of what it replaces in.
pub proof fn lemma_replaced_from_len(
    patterns: Seq<Seq<u8>>,
    hay: Seq<u8>,
    replace_with: Seq<Seq<u8>>,
    i: int,
)
    requires
        same_lengths(patterns, replace_with),
        0 <= i <= hay.len(),
    ensures
        replaced_from(patterns, hay, replace_with, i).len() == hay.len() - i,
    decreases hay.len() - i,
{
    if i < hay.len() {
        if exists|k: int| longest_at(patterns, hay, i, k) && patterns[k].len() > 0 {
            let k = choose|k: int| longest_at(patterns, hay, i, k) && patterns[k].len() > 0;
            lemma_replaced_from_len(patterns, hay, replace_with, i + patterns[k].len());
        } else {
            lemma_replaced_from_len(patterns, hay, replace_with, i + 1);
        }
    }
}

/// Law: where no pattern occurs, the replacement leaves the bytes as they
/// are.
pub proof fn lemma_replaced_from_no_match(
    patterns: Seq<Seq<u8>>,
    hay: Seq<u8>,
    replace_with: Seq<Seq<u8>>,
    i: int,
)
    requires
        0 <= i <= hay.len(),
        forall|j: int, k: int| i <= j < hay.len() ==> !#[trigger] occurs_at(patterns, hay, j, k),
    ensures
        replaced_from(patterns, hay, replace_with, i) == hay.subrange(i, hay.len() as int),
    decreases hay.len() - i,
{
    if i < hay.len() {
        lemma_replaced_from_no_match(patterns, hay, replace_with, i + 1);
        assert(hay.subrange(i, hay.len() as int) =~= seq![hay[i]] + hay.subrange(
            i + 1,
            hay.len() as int,
        ));
    } else {
        assert(hay.subrange(i, hay.len() as int) =~= Seq::<u8>::empty());
    }
}

/// Builds an automaton with `AhoCorasick::builder`, then
/// `AhoCorasickBuilder::match_kind(MatchKind::LeftmostLongest)` and
/// `AhoCorasickBuilder::build`. Claimed: an automaton that is built searches
/// for the given patterns, in their order, unanchored, leftmost-longest and
/// case-sensitive (the builder's default start kind is unanchored, and it is
/// case-sensitive by default). The build fails only
/// where the noncontiguous automaton outgrows its pattern, state or index
/// limits (from `i32::MAX` pattern identifiers down); so a few short
/// patterns, at most four of at most sixteen bytes, always build.
#[verifier::external_body]
fn build_leftmost_longest(patterns: &Vec<Vec<u8>>) -> (r: Result<AhoCorasick, BuildError>)
    ensures
        r matches Ok(a) ==> automaton_patterns(a) == patterns.deep_view() && automaton_semantics(a)
            == Semantics::LeftmostLongest && automaton_unanchored(a)
            && !automaton_ascii_case_insensitive(a),
        patterns.deep_view().len() <= 4 && (forall|i: int|
            0 <= i < patterns.deep_view().len() ==> #[trigger] patterns.deep_view()[i].len()
                <= 16) ==> r is Ok,
{
    AhoCorasick::builder().match_kind(MatchKind::LeftmostLongest).build(patterns)
}

/// Calls `AhoCorasick::replace_all_bytes`, which panics unless there is one
/// replacement per pattern and the automaton supports unanchored search.
/// Claimed: the result is the named replacement of `haystack` under the
/// automaton's semantics and case option; and, as the crate documents
/// leftmost-longest search (of the matches that start first, the longest)
/// and non-overlapping matches each replaced by its pattern's replacement,
/// under those semantics, case-sensitive, it is `replaced_from` from the
/// start for patterns that are not empty and pairwise different. Nothing is
/// claimed of the other semantics, nor of case-insensitive search, beyond
/// the name.
#[verifier::external_body]
fn replace_all_bytes(a: &AhoCorasick, haystack: &[u8], replace_with: &Vec<Vec<u8>>) -> (r: Vec<u8>)
    requires
        automaton_unanchored(*a),
        replace_with@.len() == automaton_patterns(*a).len(),
    ensures
        r@ == automaton_replacement(
            automaton_semantics(*a),
            automaton_ascii_case_insensitive(*a),
            automaton_patterns(*a),
            haystack@,
            replace_with.deep_view(),
        ),
        automaton_semantics(*a) == Semantics::LeftmostLongest && !automaton_ascii_case_insensitive(
            *a,
        ) && distinct_nonempty(automaton_patterns(*a)) ==> r@ == replaced_from(
            automaton_patterns(*a),
            haystack@,
            replace_with.deep_view(),
            0,
        ),
{
    a.replace_all_bytes(haystack, replace_with)
}

/// The checksums of the shaders that are patched unless the whitelist is
/// ignored.
pub open spec fn hash_whitelist() -> Seq<u128> {
    seq![
        0x85d254ecdbd4d71dcdec559258d1e696u128,
        0x3caf9cdde6b655e3ddfba2c137b02621u128,
        0xdbadc38d66727c965df029e2ff26892cu128,
        0xf5a79888be546336d9b324afbbbf93f6u128,
    ]
}

/// Whether `checksum` is on the whitelist.
pub fn is_whitelisted(checksum: u128) -> (r: bool)
    ensures
        r == hash_whitelist().contains(checksum),
{
    let r = checksum == 0x85d254ecdbd4d71dcdec559258d1e696u128 || checksum
        == 0x3caf9cdde6b655e3ddfba2c137b02621u128 || checksum
        == 0xdbadc38d66727c965df029e2ff26892cu128 || checksum
        == 0xf5a79888be546336d9b324afbbbf93f6u128;
    proof {
        if r {
            if checksum == 0x85d254ecdbd4d71dcdec559258d1e696u128 {
                assert(hash_whitelist()[0] == checksum);
            } else if checksum == 0x3caf9cdde6b655e3ddfba2c137b02621u128 {
                assert(hash_whitelist()[1] == checksum);
            } else if checksum == 0xdbadc38d66727c965df029e2ff26892cu128 {
                assert(hash_whitelist()[2] == checksum);
            } else {
                assert(hash_whitelist()[3] == checksum);
            }
        }
    }
    r
}

/// The sixteen bytes of an `f32` vector whose first three components have the
/// bits `x` and whose fourth is zero.
pub open spec fn vector_bytes(x: u32) -> Seq<u8> {
    le_bytes(x as nat, 4) + le_bytes(x as nat, 4) + le_bytes(x as nat, 4) + le_bytes(0, 4)
}

/// The sRGB EOTF constants as they stand in the shaders, each a vector of
/// `f32`s: 2.4 (`0x4019999A`), 0.04045 (`0x3D25AEE6`), 0.055 (`0x3D6147AE`)
/// and 0.94786733 (`0x3F72A76F`).
pub open spec fn original_patterns() -> Seq<Seq<u8>> {
    seq![
        vector_bytes(0x4019999Au32),
        vector_bytes(0x3D25AEE6u32),
        vector_bytes(0x3D6147AEu32),
        vector_bytes(0x3F72A76Fu32),
    ]
}

/// What replaces the constants for a gamma with the `f32` bits `gamma`: the
/// exponent becomes the gamma, the linear segment and the offset go to zero
/// and the scale goes to 1.0 (`0x3F800000`).
pub open spec fn replacement_patterns(gamma: u32) -> Seq<Seq<u8>> {
    seq![vector_bytes(gamma), vector_bytes(0), vector_bytes(0), vector_bytes(0x3F800000u32)]
}

/// Whether the `f32` with the bits `b` compares `<= 0.0`: the two zeros, and
/// every negative number but not a NaN.
pub open spec fn f32_bits_not_positive(b: u32) -> bool {
    let magnitude = b % 0x8000_0000;
    magnitude == 0 || (b >= 0x8000_0000 && magnitude <= 0x7f80_0000)
}

proof fn lemma_vector_bytes_len(x: u32)
    ensures
        vector_bytes(x).len() == 16,
{
    crate::bytes::lemma_le_bytes_len(x as nat, 4);
    crate::bytes::lemma_le_bytes_len(0, 4);
}

proof fn lemma_le4_injective(a: u32, b: u32, x: Seq<u8>, y: Seq<u8>)
    requires
        x.subrange(0, 4) == le_bytes(a as nat, 4),
        y.subrange(0, 4) == le_bytes(b as nat, 4),
        x == y,
    ensures
        a == b,
{
    crate::bytes::lemma_byte_power_values();
    crate::bytes::lemma_le_value_of_bytes(a as nat, 4);
    crate::bytes::lemma_le_value_of_bytes(b as nat, 4);
}

proof fn lemma_vector_bytes_prefix(x: u32)
    ensures
        vector_bytes(x).subrange(0, 4) == le_bytes(x as nat, 4),
        vector3_bytes(x).subrange(0, 4) == le_bytes(x as nat, 4),
{
    crate::bytes::lemma_le_bytes_len(x as nat, 4);
    crate::bytes::lemma_le_bytes_len(0, 4);
    assert(vector_bytes(x).subrange(0, 4) =~= le_bytes(x as nat, 4));
    assert(vector3_bytes(x).subrange(0, 4) =~= le_bytes(x as nat, 4));
}

/// The vectors of four different constants, as patterns, are not empty and
/// pairwise different.
proof fn lemma_constants_distinct(cs: Seq<u32>, ps: Seq<Seq<u8>>, three: bool)
    requires
        cs.len() == 4,
        ps.len() == 4,
        forall|k: int|
            0 <= k < 4 ==> #[trigger] ps[k] == if three {
                vector3_bytes(cs[k])
            } else {
                vector_bytes(cs[k])
            },
        forall|k1: int, k2: int| 0 <= k1 < 4 && 0 <= k2 < 4 && k1 != k2 ==> cs[k1] != cs[k2],
    ensures
        distinct_nonempty(ps),
{
    assert forall|k: int| 0 <= k < ps.len() implies #[trigger] ps[k].len() > 0 by {
        lemma_vector_bytes_len(cs[k]);
        lemma_vector3_bytes_len(cs[k]);
    }
    assert forall|k1: int, k2: int|
        0 <= k1 < ps.len() && 0 <= k2 < ps.len() && k1 != k2 implies #[trigger] ps[k1]
        != #[trigger] ps[k2] by {
        lemma_vector_bytes_prefix(cs[k1]);
        lemma_vector_bytes_prefix(cs[k2]);
        if ps[k1] == ps[k2] {
            lemma_le4_injective(cs[k1], cs[k2], ps[k1], ps[k2]);
        }
    }
}

fn vector_vec(x: u32) -> (r: Vec<u8>)
    ensures
        r.deep_view() == vector_bytes(x),
{
    let mut r: Vec<u8> = Vec::new();
    push_le(&mut r, x as u128, 4);
    push_le(&mut r, x as u128, 4);
    push_le(&mut r, x as u128, 4);
    push_le(&mut r, 0, 4);
    proof {
        assert(r.deep_view() =~= r@);
    }
    r
}

fn pattern_vecs(a: u32, b: u32, c: u32, d: u32) -> (r: Vec<Vec<u8>>)
    ensures
        r.deep_view() == seq![vector_bytes(a), vector_bytes(b), vector_bytes(c), vector_bytes(d)],
{
    let mut r: Vec<Vec<u8>> = Vec::new();
    r.push(vector_vec(a));
    r.push(vector_vec(b));
    r.push(vector_vec(c));
    r.push(vector_vec(d));
    proof {
        assert(r.deep_view() =~= seq![
            vector_bytes(a),
            vector_bytes(b),
            vector_bytes(c),
            vector_bytes(d),
        ]);
    }
    r
}

/// Builds the automaton that finds the sRGB EOTF constants, leftmost-longest.
pub fn build_aho_corasick() -> (r: Result<AhoCorasick, Error>)
    ensures
        r matches Ok(a) ==> automaton_patterns(a) == original_patterns() && automaton_semantics(a)
            == Semantics::LeftmostLongest && automaton_unanchored(a)
            && !automaton_ascii_case_insensitive(a),
        r is Ok,
{
    let patterns = pattern_vecs(0x4019999Au32, 0x3D25AEE6u32, 0x3D6147AEu32, 0x3F72A76Fu32);
    proof {
        lemma_vector_bytes_len(0x4019999Au32);
        lemma_vector_bytes_len(0x3D25AEE6u32);
        lemma_vector_bytes_len(0x3D6147AEu32);
        lemma_vector_bytes_len(0x3F72A76Fu32);
    }
    match build_leftmost_longest(&patterns) {
        Ok(a) => Ok(a),
        Err(_) => Err(Error::PatternBuild),
    }
}

/// Replaces the sRGB EOTF constants in whitelisted shaders, or in all shaders
/// when the whitelist is ignored.
pub struct SimplePatcher {
    aho: AhoCorasick,
    replacements: Vec<Vec<u8>>,
    ignore_whitelist: bool,
}

/// What `SimplePatcher::patch` does with `data` and `checksum`: nothing, when
/// the whitelist counts and does not hold the checksum; else it replaces the
/// patterns, and fails, leaving the data as it was, when that changed the
/// length.
pub open spec fn simple_patch_outcome(
    semantics: Semantics,
    case_insensitive: bool,
    patterns: Seq<Seq<u8>>,
    replacements: Seq<Seq<u8>>,
    ignore_whitelist: bool,
    data: Seq<u8>,
    checksum: u128,
) -> (Seq<u8>, Result<bool, Error>) {
    if !ignore_whitelist && !hash_whitelist().contains(checksum) {
        (data, Ok(false))
    } else {
        replacement_outcome(data, automaton_replacement(
            semantics,
            case_insensitive,
            patterns,
            data,
            replacements,
        ))
    }
}

/// The data left and the answer when `replaced` is to take the place of
/// `data`: it does when it is as long; else the data stays and the patch
/// fails.
pub open spec fn replacement_outcome(data: Seq<u8>, replaced: Seq<u8>) -> (Seq<u8>, Result<bool, Error>) {
    if replaced.len() == data.len() {
        (replaced, Ok(true))
    } else {
        (data, Err(Error::ReplLenChange))
    }
}

/// Puts `replaced` in the place of `data`, as `replacement_outcome` says.
pub fn apply_replacement(data: &mut [u8], replaced: &[u8]) -> (r: Result<bool, Error>)
    ensures
        final(data)@ == replacement_outcome(old(data)@, replaced@).0,
        r == replacement_outcome(old(data)@, replaced@).1,
{
    if replaced.len() != data.len() {
        return Err(Error::ReplLenChange);
    }
    let n = data.len();
    let mut i: usize = 0;
    while i < n
        invariant
            n == data@.len(),
            n == replaced@.len(),
            i <= n,
            forall|k: int| 0 <= k < i ==> data@[k] == replaced@[k],
        decreases n - i,
    {
        data[i] = replaced[i];
        i = i + 1;
    }
    proof {
        assert(data@ =~= replaced@);
    }
    Ok(true)
}

impl SimplePatcher {
    #[verifier::type_invariant]
    spec fn wf(self) -> bool {
        &&& automaton_unanchored(self.aho)
        &&& self.replacements@.len() == automaton_patterns(self.aho).len()
    }

    /// The match semantics of the patcher's automaton.
    pub closed spec fn semantics(self) -> Semantics {
        automaton_semantics(self.aho)
    }

    /// Whether the patcher's automaton ignores the case of ASCII letters.
    pub closed spec fn case_insensitive(self) -> bool {
        automaton_ascii_case_insensitive(self.aho)
    }

    /// The patterns the patcher searches for.
    pub closed spec fn patterns(self) -> Seq<Seq<u8>> {
        automaton_patterns(self.aho)
    }

    /// What each pattern is replaced with.
    pub closed spec fn replacements(self) -> Seq<Seq<u8>> {
        self.replacements.deep_view()
    }

    /// Whether the patcher patches shaders that are not on the whitelist.
    pub closed spec fn ignores_whitelist(self) -> bool {
        self.ignore_whitelist
    }

    /// Whether the search is leftmost-longest and case-sensitive over
    /// patterns that are not empty and pairwise different, and every
    /// replacement is as long as the pattern it replaces.
    pub open spec fn lengths_match(self) -> bool {
        &&& self.semantics() == Semantics::LeftmostLongest
        &&& !self.case_insensitive()
        &&& distinct_nonempty(self.patterns())
        &&& same_lengths(self.patterns(), self.replacements())
    }

    /// A patcher over the automaton `aho`, which searches for the four
    /// constants (as one built by `build_aho_corasick` does) and supports
    /// unanchored search, for the gamma with the `f32` bits `gamma`; fails
    /// when that gamma is not greater than zero.
    pub fn new(aho: AhoCorasick, gamma: u32, ignore_whitelist: bool) -> (r: Result<Self, Error>)
        requires
            automaton_unanchored(aho),
            automaton_patterns(aho).len() == 4,
        ensures
            r is Err <==> f32_bits_not_positive(gamma),
            r matches Err(e) ==> e == Error::NonPositiveGamma,
            r matches Ok(p) ==> {
                &&& p.patterns() == automaton_patterns(aho)
                &&& p.semantics() == automaton_semantics(aho)
                &&& p.case_insensitive() == automaton_ascii_case_insensitive(aho)
                &&& p.replacements() == replacement_patterns(gamma)
                &&& p.replacements()[0] == le_bytes(gamma as nat, 4) + le_bytes(gamma as nat, 4)
                    + le_bytes(gamma as nat, 4) + zeros(4)
                &&& p.replacements()[1] == zeros(16)
                &&& p.replacements()[2] == zeros(16)
                &&& p.ignores_whitelist() == ignore_whitelist
            },
    {
        proof {
            lemma_replacements_of_gamma(gamma);
        }
        let magnitude = gamma % 0x8000_0000;
        if magnitude == 0 || (gamma >= 0x8000_0000 && magnitude <= 0x7f80_0000) {
            return Err(Error::NonPositiveGamma);
        }
        let replacements = pattern_vecs(gamma, 0, 0, 0x3F800000u32);
        assert(replacements@.len() == replacements.deep_view().len());
        Ok(SimplePatcher { aho, replacements, ignore_whitelist })
    }

    /// Builds the automaton with `build_aho_corasick`, then a patcher over it
    /// with `new`; fails exactly when the gamma is not greater than zero.
    pub fn with_gamma(gamma: u32, ignore_whitelist: bool) -> (r: Result<Self, Error>)
        ensures
            r matches Ok(p) ==> {
                &&& p.patterns() == original_patterns()
                &&& p.replacements() == replacement_patterns(gamma)
                &&& p.replacements()[0] == le_bytes(gamma as nat, 4) + le_bytes(gamma as nat, 4)
                    + le_bytes(gamma as nat, 4) + zeros(4)
                &&& p.replacements()[1] == zeros(16)
                &&& p.replacements()[2] == zeros(16)
                &&& p.ignores_whitelist() == ignore_whitelist
                &&& p.lengths_match()
            },
            r is Err <==> f32_bits_not_positive(gamma),
            r matches Err(e) ==> e == Error::NonPositiveGamma,
    {
        let aho = build_aho_corasick()?;
        proof {
            lemma_vector_bytes_len(gamma);
            lemma_vector_bytes_len(0);
            lemma_vector_bytes_len(0x3F800000u32);
            lemma_vector_bytes_len(0x4019999Au32);
            lemma_vector_bytes_len(0x3D25AEE6u32);
            lemma_vector_bytes_len(0x3D6147AEu32);
            lemma_vector_bytes_len(0x3F72A76Fu32);
            let cs = seq![0x4019999Au32, 0x3D25AEE6u32, 0x3D6147AEu32, 0x3F72A76Fu32];
            lemma_constants_distinct(cs, original_patterns(), false);
        }
        Self::new(aho, gamma, ignore_whitelist)
    }
}

impl BinaryPatcher for SimplePatcher {
    open spec fn spec_patch(&self, data: Seq<u8>, checksum: u128) -> (Seq<u8>, Result<bool, Error>) {
        simple_patch_outcome(
            self.semantics(),
            self.case_insensitive(),
            self.patterns(),
            self.replacements(),
            self.ignores_whitelist(),
            data,
            checksum,
        )
    }

    /// Beyond the contract of the trait: when the search is leftmost-longest
    /// and case-sensitive over patterns that are not empty and pairwise
    /// different, and every
    /// replacement is as long as its pattern, the patch does not fail, and
    /// a shader it patches ends as `replaced_from` says.
    fn patch(&self, data: &mut [u8], checksum: u128) -> (r: Result<bool, Error>)
        ensures
            self.lengths_match() ==> r is Ok,
            self.lengths_match() && (self.ignores_whitelist() || hash_whitelist().contains(checksum))
                ==> final(data)@ == replaced_from(self.patterns(), old(data)@, self.replacements(), 0),
    {
        proof {
            use_type_invariant(self);
        }
        replace_in_place(&self.aho, &self.replacements, self.ignore_whitelist, data, checksum)
    }
}

/// Whether every replacement is as long as the pattern it replaces.
pub open spec fn same_lengths(patterns: Seq<Seq<u8>>, replacements: Seq<Seq<u8>>) -> bool {
    &&& replacements.len() == patterns.len()
    &&& forall|i: int|
        0 <= i < patterns.len() ==> #[trigger] replacements[i].len() == patterns[i].len()
}

/// The patch both patchers make: see `simple_patch_outcome`.
fn replace_in_place(
    aho: &AhoCorasick,
    replacements: &Vec<Vec<u8>>,
    ignore_whitelist: bool,
    data: &mut [u8],
    checksum: u128,
) -> (r: Result<bool, Error>)
    requires
        automaton_unanchored(*aho),
        replacements@.len() == automaton_patterns(*aho).len(),
    ensures
        final(data)@.len() == old(data)@.len(),
        final(data)@ == simple_patch_outcome(
            automaton_semantics(*aho),
            automaton_ascii_case_insensitive(*aho),
            automaton_patterns(*aho),
            replacements.deep_view(),
            ignore_whitelist,
            old(data)@,
            checksum,
        ).0,
        r == simple_patch_outcome(
            automaton_semantics(*aho),
            automaton_ascii_case_insensitive(*aho),
            automaton_patterns(*aho),
            replacements.deep_view(),
            ignore_whitelist,
            old(data)@,
            checksum,
        ).1,
        automaton_semantics(*aho) == Semantics::LeftmostLongest && !automaton_ascii_case_insensitive(
            *aho,
        ) && distinct_nonempty(automaton_patterns(*aho)) && same_lengths(
            automaton_patterns(*aho),
            replacements.deep_view(),
        ) ==> {
            &&& r is Ok
            &&& (ignore_whitelist || hash_whitelist().contains(checksum)) ==> final(data)@
                == replaced_from(automaton_patterns(*aho), old(data)@, replacements.deep_view(), 0)
        },
{
    if !ignore_whitelist && !is_whitelisted(checksum) {
        return Ok(false);
    }
    let patched = replace_all_bytes(aho, data, replacements);
    proof {
        if automaton_semantics(*aho) == Semantics::LeftmostLongest
            && !automaton_ascii_case_insensitive(*aho) && distinct_nonempty(
            automaton_patterns(*aho),
        ) && same_lengths(
            automaton_patterns(*aho),
            replacements.deep_view(),
        ) {
            lemma_replaced_from_len(
                automaton_patterns(*aho),
                data@,
                replacements.deep_view(),
                0,
            );
        }
    }
    apply_replacement(data, patched.as_slice())
}

/// The sRGB EOTF constants as three-component `f32` vectors.
pub open spec fn original_patterns3() -> Seq<Seq<u8>> {
    seq![
        vector3_bytes(0x4019999Au32),
        vector3_bytes(0x3D25AEE6u32),
        vector3_bytes(0x3D6147AEu32),
        vector3_bytes(0x3F72A76Fu32),
    ]
}

/// What replaces them for gamma 2.2.
pub open spec fn replacement_patterns3() -> Seq<Seq<u8>> {
    seq![
        vector3_bytes(0x400CCCCDu32),
        vector3_bytes(0),
        vector3_bytes(0),
        vector3_bytes(0x3F800000u32),
    ]
}

/// The twelve bytes of an `f32` vector of three components with the bits `x`.
pub open spec fn vector3_bytes(x: u32) -> Seq<u8> {
    le_bytes(x as nat, 4) + le_bytes(x as nat, 4) + le_bytes(x as nat, 4)
}

proof fn lemma_vector3_bytes_len(x: u32)
    ensures
        vector3_bytes(x).len() == 12,
{
    crate::bytes::lemma_le_bytes_len(x as nat, 4);
}

fn vector3_vec(x: u32) -> (r: Vec<u8>)
    ensures
        r.deep_view() == vector3_bytes(x),
{
    let mut r: Vec<u8> = Vec::new();
    push_le(&mut r, x as u128, 4);
    push_le(&mut r, x as u128, 4);
    push_le(&mut r, x as u128, 4);
    proof {
        assert(r.deep_view() =~= r@);
    }
    r
}

fn pattern3_vecs(a: u32, b: u32, c: u32, d: u32) -> (r: Vec<Vec<u8>>)
    ensures
        r.deep_view() == seq![vector3_bytes(a), vector3_bytes(b), vector3_bytes(c), vector3_bytes(d)],
{
    let mut r: Vec<Vec<u8>> = Vec::new();
    r.push(vector3_vec(a));
    r.push(vector3_vec(b));
    r.push(vector3_vec(c));
    r.push(vector3_vec(d));
    proof {
        assert(r.deep_view() =~= seq![
            vector3_bytes(a),
            vector3_bytes(b),
            vector3_bytes(c),
            vector3_bytes(d),
        ]);
    }
    r
}

/// Replaces the three-component sRGB EOTF constants with those of gamma 2.2,
/// in whitelisted shaders only.
pub struct HardCodedPatcher {
    aho: AhoCorasick,
    repl: Vec<Vec<u8>>,
}

impl HardCodedPatcher {
    #[verifier::type_invariant]
    spec fn wf(self) -> bool {
        &&& automaton_unanchored(self.aho)
        &&& automaton_semantics(self.aho) == Semantics::LeftmostLongest
        &&& !automaton_ascii_case_insensitive(self.aho)
        &&& self.repl@.len() == automaton_patterns(self.aho).len()
    }

    /// The patterns the patcher searches for.
    pub closed spec fn patterns(self) -> Seq<Seq<u8>> {
        automaton_patterns(self.aho)
    }

    /// What each pattern is replaced with.
    pub closed spec fn replacements(self) -> Seq<Seq<u8>> {
        self.repl.deep_view()
    }

    /// The patcher, with its automaton built leftmost-longest over the
    /// three-component constants. The `Result` is kept for callers; the
    /// automaton of these few short patterns always builds.
    pub fn try_default() -> (r: Result<Self, Error>)
        ensures
            r matches Ok(p) ==> p.patterns() == original_patterns3() && p.replacements()
                == replacement_patterns3() && distinct_nonempty(p.patterns()) && same_lengths(
                p.patterns(),
                p.replacements(),
            ),
            r matches Ok(p) ==> p.replacements()[1] == zeros(12) && p.replacements()[2] == zeros(
                12,
            ),
            r is Ok,
    {
        let orig = pattern3_vecs(0x4019999Au32, 0x3D25AEE6u32, 0x3D6147AEu32, 0x3F72A76Fu32);
        let repl = pattern3_vecs(0x400CCCCDu32, 0, 0, 0x3F800000u32);
        proof {
            lemma_vector3_bytes_len(0x4019999Au32);
            lemma_vector3_bytes_len(0x3D25AEE6u32);
            lemma_vector3_bytes_len(0x3D6147AEu32);
            lemma_vector3_bytes_len(0x3F72A76Fu32);
            lemma_vector3_bytes_len(0x400CCCCDu32);
            lemma_vector3_bytes_len(0);
            lemma_vector3_bytes_len(0x3F800000u32);
            let cs = seq![0x4019999Au32, 0x3D25AEE6u32, 0x3D6147AEu32, 0x3F72A76Fu32];
            lemma_constants_distinct(cs, original_patterns3(), true);
            lemma_hard_coded_bytes();
        }
        match build_leftmost_longest(&orig) {
            Ok(aho) => {
                assert(repl@.len() == repl.deep_view().len());
                assert(orig@.len() == orig.deep_view().len());
                Ok(HardCodedPatcher { aho, repl })
            },
            Err(_) => Err(Error::PatternBuild),
        }
    }
}

impl BinaryPatcher for HardCodedPatcher {
    open spec fn spec_patch(&self, data: Seq<u8>, checksum: u128) -> (Seq<u8>, Result<bool, Error>) {
        simple_patch_outcome(
            Semantics::LeftmostLongest,
            false,
            self.patterns(),
            self.replacements(),
            false,
            data,
            checksum,
        )
    }

    /// Beyond the contract of the trait: when the patterns are not empty and
    /// pairwise different, and every replacement is as long as its pattern,
    /// the patch does not fail, and a shader it patches ends as
    /// `replaced_from` says.
    fn patch(&self, data: &mut [u8], checksum: u128) -> (r: Result<bool, Error>)
        ensures
            distinct_nonempty(self.patterns()) && same_lengths(self.patterns(), self.replacements())
                ==> r is Ok,
            distinct_nonempty(self.patterns()) && same_lengths(self.patterns(), self.replacements())
                && hash_whitelist().contains(checksum) ==> final(data)@ == replaced_from(
                self.patterns(),
                old(data)@,
                self.replacements(),
                0,
            ),
    {
        proof {
            use_type_invariant(self);
        }
        replace_in_place(&self.aho, &self.repl, false, data, checksum)
    }
}

/// Law: unless the whitelist is ignored, a shader whose checksum is not on it
/// is left as it is, and reported as not patched.
pub proof fn lemma_off_whitelist_untouched(p: SimplePatcher, data: Seq<u8>, checksum: u128)
    requires
        !p.ignores_whitelist(),
        !hash_whitelist().contains(checksum),
    ensures
        p.spec_patch(data, checksum) == (data, Ok::<bool, Error>(false)),
{
}

/// The four bytes of `x`, least significant first.
proof fn lemma_le_bytes4(x: u32)
    ensures
        le_bytes(x as nat, 4) == seq![
            (x % 0x100) as u8,
            (x / 0x100 % 0x100) as u8,
            (x / 0x1_0000 % 0x100) as u8,
            (x / 0x100_0000 % 0x100) as u8,
        ],
{
    reveal_with_fuel(le_bytes, 5);
    assert(le_bytes(x as nat, 4) =~= seq![
        (x % 0x100) as u8,
        (x / 0x100 % 0x100) as u8,
        (x / 0x1_0000 % 0x100) as u8,
        (x / 0x100_0000 % 0x100) as u8,
    ]);
}

/// `n` zero bytes.
pub open spec fn zeros(n: nat) -> Seq<u8> {
    Seq::new(n, |_i: int| 0u8)
}

/// Law: the patcher for the gamma with the bits `g` writes the vector
/// `(g, g, g, 0.0)` over the exponent 2.4, zeros over the linear threshold
/// and the offset, and `(1.0, 1.0, 1.0, 0.0)` over the scale; each vector is
/// its four `f32`s, little-endian.
pub proof fn lemma_replacements_of_gamma(g: u32)
    ensures
        replacement_patterns(g).len() == 4,
        replacement_patterns(g)[0] == le_bytes(g as nat, 4) + le_bytes(g as nat, 4) + le_bytes(
            g as nat,
            4,
        ) + zeros(4),
        replacement_patterns(g)[1] == zeros(16),
        replacement_patterns(g)[2] == zeros(16),
        replacement_patterns(g)[3] == seq![
            0x00u8, 0x00, 0x80, 0x3F, 0x00, 0x00, 0x80, 0x3F, 0x00, 0x00, 0x80, 0x3F,
            0x00, 0x00, 0x00, 0x00,
        ],
{
    lemma_le_bytes4(0);
    lemma_le_bytes4(0x3F80_0000u32);
    assert(le_bytes(0, 4) =~= zeros(4));
    assert(replacement_patterns(g)[1] =~= zeros(16));
    assert(replacement_patterns(g)[2] =~= zeros(16));
    assert(replacement_patterns(g)[3] =~= seq![
        0x00u8, 0x00, 0x80, 0x3F, 0x00, 0x00, 0x80, 0x3F, 0x00, 0x00, 0x80, 0x3F,
        0x00, 0x00, 0x00, 0x00,
    ]);
}

/// Law: the patterns searched for are the vectors of 2.4 (`9A 99 19 40`),
/// 0.04045 (`E6 AE 25 3D`), 0.055 (`AE 47 61 3D`) and 0.94786733
/// (`6F A7 72 3F`), each three times and then a zero `f32`, in that order.
pub proof fn lemma_original_pattern_bytes()
    ensures
        original_patterns() == seq![
            seq![0x9Au8, 0x99, 0x19, 0x40, 0x9A, 0x99, 0x19, 0x40, 0x9A, 0x99, 0x19, 0x40, 0, 0, 0, 0],
            seq![0xE6u8, 0xAE, 0x25, 0x3D, 0xE6, 0xAE, 0x25, 0x3D, 0xE6, 0xAE, 0x25, 0x3D, 0, 0, 0, 0],
            seq![0xAEu8, 0x47, 0x61, 0x3D, 0xAE, 0x47, 0x61, 0x3D, 0xAE, 0x47, 0x61, 0x3D, 0, 0, 0, 0],
            seq![0x6Fu8, 0xA7, 0x72, 0x3F, 0x6F, 0xA7, 0x72, 0x3F, 0x6F, 0xA7, 0x72, 0x3F, 0, 0, 0, 0],
        ],
{
    lemma_le_bytes4(0);
    lemma_le_bytes4(0x4019999Au32);
    lemma_le_bytes4(0x3D25AEE6u32);
    lemma_le_bytes4(0x3D6147AEu32);
    lemma_le_bytes4(0x3F72A76Fu32);
    assert(original_patterns()[0] =~= seq![0x9Au8, 0x99, 0x19, 0x40, 0x9A, 0x99, 0x19, 0x40, 0x9A, 0x99, 0x19, 0x40, 0, 0, 0, 0]);
    assert(original_patterns()[1] =~= seq![0xE6u8, 0xAE, 0x25, 0x3D, 0xE6, 0xAE, 0x25, 0x3D, 0xE6, 0xAE, 0x25, 0x3D, 0, 0, 0, 0]);
    assert(original_patterns()[2] =~= seq![0xAEu8, 0x47, 0x61, 0x3D, 0xAE, 0x47, 0x61, 0x3D, 0xAE, 0x47, 0x61, 0x3D, 0, 0, 0, 0]);
    assert(original_patterns()[3] =~= seq![0x6Fu8, 0xA7, 0x72, 0x3F, 0x6F, 0xA7, 0x72, 0x3F, 0x6F, 0xA7, 0x72, 0x3F, 0, 0, 0, 0]);
    assert(original_patterns() =~= seq![
        seq![0x9Au8, 0x99, 0x19, 0x40, 0x9A, 0x99, 0x19, 0x40, 0x9A, 0x99, 0x19, 0x40, 0, 0, 0, 0],
        seq![0xE6u8, 0xAE, 0x25, 0x3D, 0xE6, 0xAE, 0x25, 0x3D, 0xE6, 0xAE, 0x25, 0x3D, 0, 0, 0, 0],
        seq![0xAEu8, 0x47, 0x61, 0x3D, 0xAE, 0x47, 0x61, 0x3D, 0xAE, 0x47, 0x61, 0x3D, 0, 0, 0, 0],
        seq![0x6Fu8, 0xA7, 0x72, 0x3F, 0x6F, 0xA7, 0x72, 0x3F, 0x6F, 0xA7, 0x72, 0x3F, 0, 0, 0, 0],
    ]);
}

/// Law: the hard-coded patcher searches for the three-component vectors of
/// 2.4, 0.04045, 0.055 and 0.94786733, and writes over them the vector of
/// 2.2 (`CD CC 0C 40`), zeros over the linear threshold and the offset, and
/// the vector of 1.0 (`00 00 80 3F`) over the scale.
pub proof fn lemma_hard_coded_bytes()
    ensures
        original_patterns3() == seq![
            seq![0x9Au8, 0x99, 0x19, 0x40, 0x9A, 0x99, 0x19, 0x40, 0x9A, 0x99, 0x19, 0x40],
            seq![0xE6u8, 0xAE, 0x25, 0x3D, 0xE6, 0xAE, 0x25, 0x3D, 0xE6, 0xAE, 0x25, 0x3D],
            seq![0xAEu8, 0x47, 0x61, 0x3D, 0xAE, 0x47, 0x61, 0x3D, 0xAE, 0x47, 0x61, 0x3D],
            seq![0x6Fu8, 0xA7, 0x72, 0x3F, 0x6F, 0xA7, 0x72, 0x3F, 0x6F, 0xA7, 0x72, 0x3F],
        ],
        replacement_patterns3() == seq![
            seq![0xCDu8, 0xCC, 0x0C, 0x40, 0xCD, 0xCC, 0x0C, 0x40, 0xCD, 0xCC, 0x0C, 0x40],
            zeros(12),
            zeros(12),
            seq![0x00u8, 0x00, 0x80, 0x3F, 0x00, 0x00, 0x80, 0x3F, 0x00, 0x00, 0x80, 0x3F],
        ],
{
    lemma_le_bytes4(0);
    lemma_le_bytes4(0x4019999Au32);
    lemma_le_bytes4(0x3D25AEE6u32);
    lemma_le_bytes4(0x3D6147AEu32);
    lemma_le_bytes4(0x3F72A76Fu32);
    lemma_le_bytes4(0x400CCCCDu32);
    lemma_le_bytes4(0x3F80_0000u32);
    assert(original_patterns3()[0] =~= seq![0x9Au8, 0x99, 0x19, 0x40, 0x9A, 0x99, 0x19, 0x40, 0x9A, 0x99, 0x19, 0x40]);
    assert(original_patterns3()[1] =~= seq![0xE6u8, 0xAE, 0x25, 0x3D, 0xE6, 0xAE, 0x25, 0x3D, 0xE6, 0xAE, 0x25, 0x3D]);
    assert(original_patterns3()[2] =~= seq![0xAEu8, 0x47, 0x61, 0x3D, 0xAE, 0x47, 0x61, 0x3D, 0xAE, 0x47, 0x61, 0x3D]);
    assert(original_patterns3()[3] =~= seq![0x6Fu8, 0xA7, 0x72, 0x3F, 0x6F, 0xA7, 0x72, 0x3F, 0x6F, 0xA7, 0x72, 0x3F]);
    assert(original_patterns3() =~= seq![
        seq![0x9Au8, 0x99, 0x19, 0x40, 0x9A, 0x99, 0x19, 0x40, 0x9A, 0x99, 0x19, 0x40],
        seq![0xE6u8, 0xAE, 0x25, 0x3D, 0xE6, 0xAE, 0x25, 0x3D, 0xE6, 0xAE, 0x25, 0x3D],
        seq![0xAEu8, 0x47, 0x61, 0x3D, 0xAE, 0x47, 0x61, 0x3D, 0xAE, 0x47, 0x61, 0x3D],
        seq![0x6Fu8, 0xA7, 0x72, 0x3F, 0x6F, 0xA7, 0x72, 0x3F, 0x6F, 0xA7, 0x72, 0x3F],
    ]);
    assert(replacement_patterns3()[0] =~= seq![0xCDu8, 0xCC, 0x0C, 0x40, 0xCD, 0xCC, 0x0C, 0x40, 0xCD, 0xCC, 0x0C, 0x40]);
    assert(replacement_patterns3()[1] =~= zeros(12));
    assert(replacement_patterns3()[2] =~= zeros(12));
    assert(replacement_patterns3()[3] =~= seq![0x00u8, 0x00, 0x80, 0x3F, 0x00, 0x00, 0x80, 0x3F, 0x00, 0x00, 0x80, 0x3F]);
    assert(replacement_patterns3() =~= seq![
        seq![0xCDu8, 0xCC, 0x0C, 0x40, 0xCD, 0xCC, 0x0C, 0x40, 0xCD, 0xCC, 0x0C, 0x40],
        zeros(12),
        zeros(12),
        seq![0x00u8, 0x00, 0x80, 0x3F, 0x00, 0x00, 0x80, 0x3F, 0x00, 0x00, 0x80, 0x3F],
    ]);
}

} // verus!
