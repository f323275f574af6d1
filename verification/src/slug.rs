//! Slug encoding: the deterministic checksum fragment of a short code and
//! the random fragment that diversifies a code on retry.

use vstd::prelude::*;
use vstd::string::StringExecFns;
use rand::Rng;

verus! {

/// The base62 digit alphabet in its standard order: decimal digits, then
/// upper-case letters, then lower-case letters.
pub const BASE62_ALPHABET: [char; 62] = [
    '0', '1', '2', '3', '4', '5', '6', '7', '8', '9', 'A', 'B', 'C', 'D', 'E', 'F', 'G', 'H',
    'I', 'J', 'K', 'L', 'M', 'N', 'O', 'P', 'Q', 'R', 'S', 'T', 'U', 'V', 'W', 'X', 'Y', 'Z',
    'a', 'b', 'c', 'd', 'e', 'f', 'g', 'h', 'i', 'j', 'k', 'l', 'm', 'n', 'o', 'p', 'q', 'r',
    's', 't', 'u', 'v', 'w', 'x', 'y', 'z',
];

/// The base62 rendering of `n`: its base-62 digits over `BASE62_ALPHABET`,
/// most significant digit first; zero is rendered as the single digit `0`.
pub open spec fn base62_of(n: nat) -> Seq<char>
    decreases n,
{
    if n < 62 {
        seq![BASE62_ALPHABET@[n as int]]
    } else {
        base62_of(n / 62).push(BASE62_ALPHABET@[(n % 62) as int])
    }
}

/// The CRC-32 checksum of a URL's text. It is a pure function of the
/// characters; its value is fixed only by the outside implementation.
pub uninterp spec fn crc32_of(url: Seq<char>) -> u32;

/// The candidate short code composed for a URL: the base62 rendering of the
/// URL's checksum, followed by the (possibly empty) random suffix.
pub open spec fn slug_spec(url: Seq<char>, suffix: Seq<char>) -> Seq<char> {
    base62_of(crc32_of(url) as nat) + suffix
}

/// The suffix a shorten attempt appends: empty when no random part is given.
pub open spec fn suffix_view(random_part: Option<String>) -> Seq<char> {
    match random_part {
        Option::Some(p) => p@,
        Option::None => Seq::<char>::empty(),
    }
}

/// Relies on `crc32fast::hash`: the CRC-32 checksum of the URL's bytes,
/// a deterministic function of the URL text alone.
#[verifier::external_body]
fn crc32_checksum(url: &str) -> (r: u32)
    ensures
        r == crc32_of(url@),
{
    crc32fast::hash(url.as_bytes())
}

/// Relies on `base62::encode`: renders an integer over the standard base62
/// alphabet (digits, then upper case, then lower case), most significant
/// digit first, with zero rendered as "0".
#[verifier::external_body]
fn base62_encode(n: u32) -> (r: String)
    ensures
        r@ == base62_of(n as nat),
{
    base62::encode(n)
}

#[verifier::external_type_specification]
#[verifier::external_body]
pub struct ExSmallRng(rand::rngs::SmallRng);

/// Relies on rand's `Rng::random`: an arbitrary 32-bit draw from the given
/// generator; nothing is promised of its value.
#[verifier::external_body]
fn random_u32(rng: &mut rand::rngs::SmallRng) -> u32 {
    rng.random()
}

/// Composes the short code for `url`: the base62 rendering of the URL's
/// CRC-32 checksum, with `random_part` appended when one is supplied.
/// Deterministic in its arguments; diversification on retry comes only from
/// the supplied random part.
pub fn get_url_slug(url: String, random_part: Option<String>) -> (r: String)
    ensures
        r@ == slug_spec(url@, suffix_view(random_part)),
{
    let checksum = crc32_checksum(url.as_str());
    let encoded = base62_encode(checksum);
    match random_part {
        Option::Some(part) => encoded.concat(part.as_str()),
        Option::None => {
            proof {
                assert(encoded@ + Seq::<char>::empty() =~= encoded@);
            }
            encoded
        },
    }
}

/// Draws a fresh 32-bit value from the caller-supplied generator and renders
/// it in base62, yielding the random fragment appended on a retry.
pub fn generate_random_code(rng: &mut rand::rngs::SmallRng) -> (r: String)
    ensures
        exists|n: u32| r@ == base62_of(n as nat),
{
    let n = random_u32(rng);
    let code = base62_encode(n);
    proof {
        assert(code@ == base62_of(n as nat));
    }
    code
}

/// Whether `c` is a character of the base62 alphabet.
pub open spec fn is_base62_char(c: char) -> bool {
    ('0' <= c && c <= '9') || ('A' <= c && c <= 'Z') || ('a' <= c && c <= 'z')
}

/// A rendered fragment is never empty and is drawn entirely from the
/// base62 alphabet; a short code is therefore never empty.
pub proof fn lemma_base62_of_wf(n: nat)
    ensures
        base62_of(n).len() >= 1,
        forall|i: int|
            0 <= i < base62_of(n).len() ==> is_base62_char(#[trigger] base62_of(n)[i]),
    decreases n,
{
    assert(forall|d: int| 0 <= d < 62 ==> is_base62_char(#[trigger] BASE62_ALPHABET@[d]));
    if n >= 62 {
        lemma_base62_of_wf(n / 62);
    }
}

/// Determinism: encoding one URL with one suffix pins the code down; any two
/// codes obtained for the same URL and suffix are the same code.
pub proof fn lemma_encode_deterministic(
    url: Seq<char>,
    suffix: Seq<char>,
    c1: Seq<char>,
    c2: Seq<char>,
)
    requires
        c1 == slug_spec(url, suffix),
        c2 == slug_spec(url, suffix),
    ensures
        c1 == c2,
{
}

/// Diversification: for one URL, candidates composed with two different
/// random fragments are different codes.
pub proof fn lemma_diversification(url: Seq<char>, r1: Seq<char>, r2: Seq<char>)
    requires
        r1 != r2,
    ensures
        slug_spec(url, r1) != slug_spec(url, r2),
{
    let p = base62_of(crc32_of(url) as nat);
    if p + r1 == p + r2 {
        assert((p + r1).len() == (p + r2).len());
        assert forall|i: int| 0 <= i < r1.len() implies r1[i] == r2[i] by {
            assert((p + r1)[p.len() + i] == r1[i]);
            assert((p + r2)[p.len() + i] == r2[i]);
        }
        assert(r1 =~= r2);
    }
}

} // verus!
