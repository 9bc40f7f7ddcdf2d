//! Digests and the sidecars that publish them.

use crate::ngx::error::{DownloadError, DownloadErrorModel};
use crate::number::{hex_digit, hex_lower, hex_text, is_hex_digit, to_hex};
use crate::text::{chars_of, copy_text, lower_char, lower_spec, same_text, to_lower};
use vstd::prelude::*;
use vstd::slice::slice_subrange;

verus! {

/// The SHA-256 digest of some bytes.
pub uninterp spec fn sha256(data: Seq<u8>) -> Seq<u8>;

/// `sha2::Sha256::digest` (of the trait `sha2::Digest`) gives the digest of
/// the bytes, which is 32 bytes long.
#[verifier::external_body]
fn digest_of(data: &[u8]) -> (r: Vec<u8>)
    ensures
        r@ == sha256(data@),
        r@.len() == 32,
{
    <sha2::Sha256 as sha2::Digest>::digest(data).to_vec()
}

/// The SHA-256 digest of some bytes, in hexadecimal with small letters.
pub fn sha256_hex(data: &[u8]) -> (r: String)
    ensures
        r@ == hex_text(sha256(data@)),
        r@.len() == 64,
{
    let d = digest_of(data);
    proof {
        lemma_hex_text(d@);
    }
    to_hex(d.as_slice())
}

/// The hexadecimal digits with which a text begins.
pub open spec fn leading_hex(s: Seq<char>) -> Seq<char>
    decreases s.len(),
{
    if s.len() == 0 || !is_hex_digit(s[0]) {
        seq![]
    } else {
        seq![s[0]] + leading_hex(s.skip(1))
    }
}

/// The digest that a sidecar publishes: the 64 hexadecimal digits with which
/// it begins, with small letters.
pub open spec fn sidecar_digest(body: Seq<char>) -> Option<Seq<char>> {
    if leading_hex(body).len() == 64 {
        Some(lower_spec(leading_hex(body)))
    } else {
        None
    }
}

/// `n` hexadecimal digits, and no further one, stand at the beginning of `s`.
proof fn lemma_leading_hex(s: Seq<char>, n: int)
    requires
        0 <= n <= s.len(),
        forall|j: int| 0 <= j < n ==> is_hex_digit(#[trigger] s[j]),
        n < s.len() ==> !is_hex_digit(s[n]),
    ensures
        leading_hex(s) == s.take(n),
    decreases n,
{
    if n > 0 {
        let t = s.skip(1);
        assert forall|j: int| 0 <= j < n - 1 implies is_hex_digit(#[trigger] t[j]) by {
            assert(t[j] == s[j + 1]);
        }
        lemma_leading_hex(t, n - 1);
        assert(is_hex_digit(s[0]));
        assert(seq![s[0]] + t.take(n - 1) =~= s.take(n));
    } else {
        assert(s.take(n) =~= seq![]);
    }
}

/// Reads the digest that a sidecar publishes.
pub fn parse_sidecar(body: &str) -> (r: Result<String, DownloadError>)
    ensures
        match r {
            Ok(hex) => sidecar_digest(body@) == Some(hex@),
            Err(e) => sidecar_digest(body@) is None && e@ == DownloadErrorModel::SidecarFormat,
        },
{
    let cs = chars_of(body);
    let mut n: usize = 0;
    while n < cs.len() && hex_digit(cs[n])
        invariant
            n <= cs@.len(),
            forall|j: int| 0 <= j < n ==> is_hex_digit(#[trigger] cs@[j]),
        decreases cs@.len() - n,
    {
        n = n + 1;
    }
    proof {
        lemma_leading_hex(cs@, n as int);
    }
    if n != 64 {
        return Err(DownloadError::SidecarFormat);
    }
    let hex = slice_subrange(cs.as_slice(), 0, n);
    assert(hex@ =~= cs@.take(n as int));
    Ok(to_lower(hex))
}

/// What comparing the digest of what was received with that of its sidecar gives.
pub open spec fn digest_check(expect: Seq<char>, actual: Seq<char>) -> Option<DownloadErrorModel> {
    if expect == actual {
        None
    } else {
        Some(DownloadErrorModel::Mismatch(expect, actual))
    }
}

/// Compares the digest of what was received with that of its sidecar.
pub fn check_digest(expect: &str, actual: &str) -> (r: Result<(), DownloadError>)
    ensures
        match r {
            Ok(_) => digest_check(expect@, actual@) is None,
            Err(e) => digest_check(expect@, actual@) == Some(e@),
        },
{
    if same_text(expect, actual) {
        Ok(())
    } else {
        Err(DownloadError::Mismatch(copy_text(expect), copy_text(actual)))
    }
}

// ---------------------------------------------------------------------------
// Laws
// ---------------------------------------------------------------------------

/// Bytes in hexadecimal are two small hexadecimal digits each.
pub proof fn lemma_hex_text(bytes: Seq<u8>)
    ensures
        hex_text(bytes).len() == 2 * bytes.len(),
        forall|i: int|
            0 <= i < hex_text(bytes).len() ==> is_hex_digit(#[trigger] hex_text(bytes)[i])
                && lower_char(hex_text(bytes)[i]) == hex_text(bytes)[i],
    decreases bytes.len(),
{
    if bytes.len() > 0 {
        lemma_hex_text(bytes.drop_last());
    }
}

/// The sidecar that gives the digest of a payload in hexadecimal, in small or
/// capital letters, with anything behind it that does not go on with a
/// hexadecimal digit, passes the payload.
pub proof fn law_sidecar_passes(digest: Seq<u8>, written: Seq<char>, rest: Seq<char>)
    requires
        digest.len() == 32,
        lower_spec(written) == hex_text(digest),
        rest.len() > 0 ==> !is_hex_digit(rest[0]),
    ensures
        sidecar_digest(written + rest) == Some(hex_text(digest)),
        digest_check(sidecar_digest(written + rest)->0, hex_text(digest)) is None,
{
    let body = written + rest;
    lemma_hex_text(digest);
    assert(lower_spec(written).len() == written.len());
    assert forall|j: int| 0 <= j < written.len() implies is_hex_digit(#[trigger] body[j]) by {
        assert(body[j] == written[j]);
        assert(lower_spec(written)[j] == lower_char(written[j]));
        assert(is_hex_digit(hex_text(digest)[j]));
    }
    if rest.len() > 0 {
        assert(body[written.len() as int] == rest[0]);
    }
    lemma_leading_hex(body, written.len() as int);
    assert(body.take(written.len() as int) =~= written);
}

/// A sidecar that passes a payload gives its digest: a payload with another
/// digest is refused.
pub proof fn law_sidecar_refuses(body: Seq<char>, digest: Seq<u8>, other: Seq<u8>)
    requires
        sidecar_digest(body) == Some(hex_text(digest)),
        digest != other,
        digest.len() == other.len(),
    ensures
        digest_check(sidecar_digest(body)->0, hex_text(other)) == Some(
            DownloadErrorModel::Mismatch(hex_text(digest), hex_text(other)),
        ),
{
    if hex_text(digest) == hex_text(other) {
        lemma_hex_text_injective(digest, other);
    }
}

/// Values can be told from their hexadecimal digits.
proof fn lemma_hex_lower_injective(p: u8, q: u8)
    requires
        p < 16,
        q < 16,
        hex_lower(p) == hex_lower(q),
    ensures
        p == q,
{
    assert(hex_lower(p) as int == if p < 10 { 48 + p } else { 87 + p });
    assert(hex_lower(q) as int == if q < 10 { 48 + q } else { 87 + q });
}

/// Bytes can be told from their hexadecimal digits.
proof fn lemma_hex_text_injective(a: Seq<u8>, b: Seq<u8>)
    requires
        a.len() == b.len(),
        hex_text(a) == hex_text(b),
    ensures
        a == b,
    decreases a.len(),
{
    if a.len() > 0 {
        let s = hex_text(a);
        let n = s.len();
        lemma_hex_text(a.drop_last());
        lemma_hex_text(b.drop_last());
        assert(s.take(n - 2) =~= hex_text(a.drop_last()));
        assert(s.take(n - 2) =~= hex_text(b.drop_last()));
        lemma_hex_text_injective(a.drop_last(), b.drop_last());
        assert(hex_text(a)[n - 2] == hex_text(b)[n - 2]);
        assert(hex_text(a)[n - 1] == hex_text(b)[n - 1]);
        let (p, q) = (a.last(), b.last());
        assert(hex_text(a)[n - 2] == hex_lower(p / 16));
        assert(hex_text(b)[n - 2] == hex_lower(q / 16));
        assert(hex_text(a)[n - 1] == hex_lower(p % 16));
        assert(hex_text(b)[n - 1] == hex_lower(q % 16));
        lemma_hex_lower_injective(p / 16, q / 16);
        lemma_hex_lower_injective(p % 16, q % 16);
        assert(a =~= a.drop_last().push(a.last()));
        assert(b =~= b.drop_last().push(b.last()));
    } else {
        assert(a =~= b);
    }
}

/// A sidecar publishes a digest if and only if it begins with 64 hexadecimal
/// digits, and no further one; the digest is these, in small letters.
pub proof fn law_sidecar(body: Seq<char>)
    ensures
        ({
            let hex = |c: char| ('0' <= c <= '9') || ('a' <= c <= 'f') || ('A' <= c <= 'F');
            let good = body.len() >= 64 && (forall|i: int| 0 <= i < 64 ==> hex(#[trigger] body[i]))
                && (body.len() > 64 ==> !hex(body[64]));
            &&& good ==> sidecar_digest(body) == Some(lower_spec(body.take(64)))
            &&& !good ==> sidecar_digest(body) is None
        }),
{
    let hex = |c: char| ('0' <= c <= '9') || ('a' <= c <= 'f') || ('A' <= c <= 'F');
    let n = lemma_hex_run(body, 0);
    lemma_leading_hex(body, n);
    if n != 64 {
        assert(leading_hex(body).len() == n);
        if body.len() >= 64 && (forall|i: int| 0 <= i < 64 ==> hex(#[trigger] body[i])) {
            if n < 64 {
                assert(hex(body[n]));
            } else {
                assert(is_hex_digit(body[64]));
            }
        }
    } else {
        assert forall|i: int| 0 <= i < 64 implies hex(#[trigger] body[i]) by {
            assert(is_hex_digit(body[i]));
        }
    }
}

/// Where the hexadecimal digits end.
proof fn lemma_hex_run(s: Seq<char>, from: int) -> (n: int)
    requires
        0 <= from <= s.len(),
        forall|j: int| 0 <= j < from ==> is_hex_digit(#[trigger] s[j]),
    ensures
        from <= n <= s.len(),
        forall|j: int| 0 <= j < n ==> is_hex_digit(#[trigger] s[j]),
        n < s.len() ==> !is_hex_digit(s[n]),
    decreases s.len() - from,
{
    if from < s.len() && is_hex_digit(s[from]) {
        lemma_hex_run(s, from + 1)
    } else {
        from
    }
}

} // verus!
