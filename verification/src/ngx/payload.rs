//! Payload file names: `<snippet-id>_<app-id>.<ext>`.

use crate::ngx::feature::{canonical_app_of, Feature};
use crate::number::{hex_digit, is_hex_digit};
use crate::text::{index_of, lemma_index_of, lemma_index_of_is, lemma_split_cons};
use crate::text::{lemma_split_first, lemma_split_none, lower_spec};
use crate::text::{before_suffix, chars_of, runs, same_but_case, same_ignoring_case, split};
use crate::text::{split_once, split_once_spec, split_spec, strip_suffix, text_of};
use vstd::prelude::*;

verus! {

/// A payload name without its extension.
pub open spec fn payload_stem(payload: Seq<char>) -> Seq<char> {
    match before_suffix(payload, ".bin"@) {
        Some(stem) => stem,
        None => match before_suffix(payload, ".zip"@) {
            Some(stem) => stem,
            None => payload,
        },
    }
}

/// The snippet prefix and the app id of a payload name.
pub open spec fn split_payload_spec(payload: Seq<char>) -> (Seq<char>, Seq<char>) {
    let stem = payload_stem(payload);
    match split_once_spec(stem, '_') {
        Some(parts) => parts,
        None => (stem, seq![]),
    }
}

/// Split a payload into (snippet-prefix, app-id), extension stripped:
/// `160_E658700.bin` -> ("160", "E658700").
pub fn split_payload(payload: &str) -> (r: (String, String))
    ensures
        (r.0@, r.1@) == split_payload_spec(payload@),
{
    let cs = chars_of(payload);
    let bin = chars_of(".bin");
    let zip = chars_of(".zip");
    let stem = match strip_suffix(cs.as_slice(), bin.as_slice()) {
        Some(stem) => stem,
        None => match strip_suffix(cs.as_slice(), zip.as_slice()) {
            Some(stem) => stem,
            None => cs.as_slice(),
        },
    };
    match split_once(stem, '_') {
        Some((a, b)) => (text_of(a), text_of(b)),
        None => (text_of(stem), String::new()),
    }
}

/// The payload is for the universal app id of the feature.
pub open spec fn canonical_app_payload(payload: Seq<char>, dir: Seq<char>) -> bool {
    same_ignoring_case(split_payload_spec(payload).1, canonical_app_of(dir))
}

/// The payload has the snippet prefix that every package ships with.
pub open spec fn standard_prefix(payload: Seq<char>) -> bool {
    same_ignoring_case(split_payload_spec(payload).0, "160"@)
}

/// How well a payload stands for its version: the universal app id counts
/// twice as much as the standard prefix.
pub open spec fn payload_rank_spec(payload: Seq<char>, dir: Seq<char>) -> u8 {
    let app: u8 = if canonical_app_payload(payload, dir) {
        2
    } else {
        0
    };
    let prefix: u8 = if standard_prefix(payload) {
        1
    } else {
        0
    };
    (app + prefix) as u8
}

/// Whether `a` and `b` differ in the case of ASCII letters at most.
pub fn same_name(a: &str, b: &str) -> (r: bool)
    ensures
        r == same_ignoring_case(a@, b@),
{
    let x = chars_of(a);
    let y = chars_of(b);
    same_but_case(x.as_slice(), y.as_slice())
}

/// How well a payload stands for its version, from 0 to 3.
pub fn payload_rank(payload: &str, feature: &Feature) -> (r: u8)
    ensures
        r == payload_rank_spec(payload@, feature@),
        r <= 3,
{
    let (prefix, app) = split_payload(payload);
    let app_points: u8 = if same_name(app.as_str(), feature.canonical_app_id()) {
        2
    } else {
        0
    };
    let prefix_points: u8 = if same_name(prefix.as_str(), "160") {
        1
    } else {
        0
    };
    app_points + prefix_points
}

/// `s` is made of hexadecimal digits, at least one.
pub open spec fn is_hex_spec(s: Seq<char>) -> bool {
    s.len() > 0 && forall|i: int| 0 <= i < s.len() ==> is_hex_digit(#[trigger] s[i])
}

/// Whether `s` is made of hexadecimal digits, at least one.
fn hex_run(s: &[char]) -> (r: bool)
    ensures
        r == is_hex_spec(s@),
{
    if s.len() == 0 {
        return false;
    }
    let mut i: usize = 0;
    while i < s.len()
        invariant
            i <= s@.len(),
            forall|j: int| 0 <= j < i ==> is_hex_digit(#[trigger] s@[j]),
        decreases s@.len() - i,
    {
        if !hex_digit(s[i]) {
            assert(!is_hex_digit(s@[i as int]));
            return false;
        }
        i = i + 1;
    }
    true
}

/// Whether `s` is made of hexadecimal digits, at least one.
pub fn is_hex(s: &str) -> (r: bool)
    ensures
        r == is_hex_spec(s@),
{
    let cs = chars_of(s);
    hex_run(cs.as_slice())
}

/// `name` is two hexadecimal numbers with an underscore between them, and `ext` behind.
pub open spec fn payload_name(name: Seq<char>, ext: Seq<char>) -> bool {
    match before_suffix(name, ext) {
        Some(stem) => {
            let parts = split_spec(stem, '_');
            parts.len() == 2 && is_hex_spec(parts[0]) && is_hex_spec(parts[1])
        },
        None => false,
    }
}

/// Whether `name` is `<hex>_<hex>` with the extension `ext`.
fn has_payload_name(name: &str, ext: &str) -> (r: bool)
    ensures
        r == payload_name(name@, ext@),
{
    let cs = chars_of(name);
    let suffix = chars_of(ext);
    match strip_suffix(cs.as_slice(), suffix.as_slice()) {
        Some(stem) => {
            let parts = split(stem, '_');
            assert(runs(parts@).len() == parts@.len());
            parts.len() == 2 && hex_run(parts[0]) && hex_run(parts[1])
        },
        None => false,
    }
}

/// `<snippet-id>_<app-id>.bin`, e.g. `160_E658700.bin`.
/// 160 = NV_GPU_ARCHITECTURE_ID of Turing; NVIDIA ships this file for every
/// arch today, but other prefixes (170/180/190/1B0, ...) may appear later.
pub fn is_bin_payload(name: &str) -> (r: bool)
    ensures
        r == payload_name(name@, ".bin"@),
{
    has_payload_name(name, ".bin")
}

/// `<snippet-id>_<app-id>.zip`, e.g. `160_E658703.zip`.
pub fn is_zip_payload(name: &str) -> (r: bool)
    ensures
        r == payload_name(name@, ".zip"@),
{
    has_payload_name(name, ".zip")
}

// ---------------------------------------------------------------------------
// Laws
// ---------------------------------------------------------------------------


/// A hexadecimal digit, of either case, is one of 22 characters.
pub open spec fn hexadecimal(s: Seq<char>) -> bool {
    forall|i: int|
        0 <= i < s.len() ==> ('0' <= #[trigger] s[i] <= '9') || ('a' <= s[i] <= 'f') || ('A' <= s[i]
            <= 'F')
}

/// What stands before an extension.
proof fn lemma_before_suffix(stem: Seq<char>, ext: Seq<char>)
    ensures
        before_suffix(stem + ext, ext) == Some(stem),
{
    let s = stem + ext;
    assert(s.subrange(s.len() - ext.len(), s.len() as int) =~= ext);
    assert(s.take(s.len() - ext.len()) =~= stem);
}

/// A name with the extension `.zip` has not the extension `.bin`.
proof fn lemma_zip_is_not_bin(stem: Seq<char>)
    ensures
        before_suffix(stem + ".zip"@, ".bin"@) is None,
{
    reveal_strlit(".zip");
    reveal_strlit(".bin");
    let s = stem + ".zip"@;
    if ".bin"@.is_suffix_of(s) {
        let end = s.subrange(s.len() - 4, s.len() as int);
        assert(end =~= ".bin"@);
        assert(end[1] == 'z');
        assert(".bin"@[1] == 'b');
    }
}

/// What stands before and behind the first underscore.
proof fn lemma_split_at(a: Seq<char>, b: Seq<char>)
    requires
        !a.contains('_'),
    ensures
        split_once_spec(a + seq!['_'] + b, '_') == Some((a, b)),
{
    let s = a + seq!['_'] + b;
    assert forall|j: int| 0 <= j < a.len() implies s[j] != '_' by {
        assert(a.contains(a[j]));
    }
    lemma_index_of_is(s, '_', a.len() as int);
    assert(s.take(a.len() as int) =~= a);
    assert(s.skip(a.len() as int + 1) =~= b);
}

/// A payload name is split at its first underscore, without its extension; one
/// that has no underscore is all in front of it. No extension but the two is
/// taken away.
pub proof fn law_split_payload(a: Seq<char>, b: Seq<char>)
    requires
        !a.contains('_'),
    ensures
        split_payload_spec(a + seq!['_'] + b + ".bin"@) == (a, b),
        split_payload_spec(a + seq!['_'] + b + ".zip"@) == (a, b),
        split_payload_spec(a + ".bin"@) == (a, Seq::<char>::empty()),
        split_payload_spec(a + ".zip"@) == (a, Seq::<char>::empty()),
        !".bin"@.is_suffix_of(a + seq!['_'] + b) && !".zip"@.is_suffix_of(a + seq!['_'] + b)
            ==> split_payload_spec(a + seq!['_'] + b) == (a, b),
        !".bin"@.is_suffix_of(a) && !".zip"@.is_suffix_of(a) ==> split_payload_spec(a) == (
            a,
            Seq::<char>::empty(),
        ),
{
    let stem = a + seq!['_'] + b;
    lemma_before_suffix(stem, ".bin"@);
    lemma_before_suffix(stem, ".zip"@);
    lemma_zip_is_not_bin(stem);
    lemma_split_at(a, b);
    lemma_before_suffix(a, ".bin"@);
    lemma_before_suffix(a, ".zip"@);
    lemma_zip_is_not_bin(a);
    lemma_index_of(a, '_');
    if index_of(a, '_') < a.len() {
        assert(a.contains(a[index_of(a, '_')]));
    }
}

/// How well a payload stands for its version: two points for the app id of the
/// universal file of the feature, one for the prefix `160`, letter case not counted.
pub proof fn law_payload_rank(a: Seq<char>, b: Seq<char>, dir: Seq<char>)
    requires
        !a.contains('_'),
    ensures
        ({
            let app = if "sl_sdk"@.is_prefix_of(dir) {
                "E658703"@
            } else {
                "E658700"@
            };
            let points: u8 = if lower_spec(b) == lower_spec(app) {
                if lower_spec(a) == lower_spec("160"@) {
                    3
                } else {
                    2
                }
            } else {
                if lower_spec(a) == lower_spec("160"@) {
                    1
                } else {
                    0
                }
            };
            &&& payload_rank_spec(a + seq!['_'] + b + ".bin"@, dir) == points
            &&& payload_rank_spec(a + seq!['_'] + b + ".zip"@, dir) == points
        }),
{
    law_split_payload(a, b);
}

/// The names of payloads are two hexadecimal numbers with an underscore between
/// them and the extension behind, and no others are.
pub proof fn law_payload_name(a: Seq<char>, b: Seq<char>, name: Seq<char>, ext: Seq<char>)
    ensures
        a.len() > 0 && b.len() > 0 && hexadecimal(a) && hexadecimal(b) ==> payload_name(
            a + seq!['_'] + b + ext,
            ext,
        ),
        payload_name(name, ext) ==> exists|x: Seq<char>, y: Seq<char>|
            x.len() > 0 && y.len() > 0 && #[trigger] hexadecimal(x) && #[trigger] hexadecimal(y)
                && name == x + seq!['_'] + y + ext,
{
    if a.len() > 0 && b.len() > 0 && hexadecimal(a) && hexadecimal(b) {
        let stem = a + seq!['_'] + b;
        lemma_before_suffix(stem, ext);
        assert(!a.contains('_'));
        assert(!b.contains('_'));
        lemma_split_cons(a, '_', b);
        lemma_split_none(b, '_');
        assert(split_spec(stem, '_') =~= seq![a, b]);
        assert(is_hex_spec(a) && is_hex_spec(b));
    }
    if payload_name(name, ext) {
        let stem = name.take(name.len() - ext.len());
        assert(before_suffix(name, ext) == Some(stem));
        let rest = lemma_split_first(stem, '_');
        let none = lemma_split_first(rest, '_');
        let x = split_spec(stem, '_')[0];
        let y = split_spec(stem, '_')[1];
        assert(split_spec(rest, '_')[0] == y);
        assert(rest == y);
        assert(name =~= stem + ext);
        assert forall|i: int| 0 <= i < x.len() implies ('0' <= #[trigger] x[i] <= '9') || ('a'
            <= x[i] <= 'f') || ('A' <= x[i] <= 'F') by {
            assert(is_hex_digit(x[i]));
        }
        assert forall|i: int| 0 <= i < y.len() implies ('0' <= #[trigger] y[i] <= '9') || ('a'
            <= y[i] <= 'f') || ('A' <= y[i] <= 'F') by {
            assert(is_hex_digit(y[i]));
        }
        assert(hexadecimal(x) && hexadecimal(y));
    }
}

/// The points of any payload, by the two parts of its name.
pub proof fn law_rank_of_parts(payload: Seq<char>, dir: Seq<char>)
    ensures
        ({
            let (a, b) = split_payload_spec(payload);
            let app = if "sl_sdk"@.is_prefix_of(dir) {
                "E658703"@
            } else {
                "E658700"@
            };
            let universal = lower_spec(b) == lower_spec(app);
            let plain = lower_spec(a) == lower_spec("160"@);
            &&& universal && plain ==> payload_rank_spec(payload, dir) == 3
            &&& universal && !plain ==> payload_rank_spec(payload, dir) == 2
            &&& !universal && plain ==> payload_rank_spec(payload, dir) == 1
            &&& !universal && !plain ==> payload_rank_spec(payload, dir) == 0
        }),
{
}

/// Hexadecimal digits are what a text of them holds: at least one, and nothing
/// else.
pub proof fn law_hex(s: Seq<char>)
    ensures
        is_hex_spec(s) <==> s.len() > 0 && hexadecimal(s),
{
    if is_hex_spec(s) {
        assert forall|i: int| 0 <= i < s.len() implies ('0' <= #[trigger] s[i] <= '9') || ('a'
            <= s[i] <= 'f') || ('A' <= s[i] <= 'F') by {
            assert(is_hex_digit(s[i]));
        }
    }
}

} // verus!
