//! Packed version ids and the versions they stand for.

use crate::number::{decimal, lemma_decimal, lemma_number_of_decimal, number_spec};
use crate::number::{is_digit, parse_number, push_decimal};
use crate::text::{chars_of, lemma_split_cons, lemma_split_none, lemma_trim_nothing};
use crate::text::{runs, split, split_spec, trim, trim_spec};
use vstd::prelude::*;

verus! {

/// The major version of a packed id.
pub open spec fn major_of(v: u32) -> u32 {
    v / 65536
}

/// The minor version of a packed id.
pub open spec fn minor_of(v: u32) -> u32 {
    (v / 256) % 256
}

/// The patch version of a packed id.
pub open spec fn patch_of(v: u32) -> u32 {
    v % 256
}

/// `major << 16 | minor << 8 | patch`, on 32 bits.
pub open spec fn pack(major: u32, minor: u32, patch: u32) -> u32 {
    (major << 16) | (minor << 8) | patch
}

/// The text `<major>.<minor>.<patch>`.
pub open spec fn dotted(major: nat, minor: nat, patch: nat) -> Seq<char> {
    decimal(major) + seq!['.'] + (decimal(minor) + seq!['.'] + decimal(patch))
}

/// The version that a packed id stands for.
pub open spec fn version_spec(v: u32) -> Seq<char> {
    dotted(major_of(v) as nat, minor_of(v) as nat, patch_of(v) as nat)
}

/// The parts of a packed id, by shifting and masking.
pub proof fn lemma_parts_by_bits(v: u32)
    ensures
        v >> 16 == major_of(v),
        (v >> 8) & 0xFF == minor_of(v),
        v & 0xFF == patch_of(v),
{
    assert(v >> 16 == v / 65536) by (bit_vector);
    assert((v >> 8) & 0xFF == (v / 256) % 256) by (bit_vector);
    assert(v & 0xFF == v % 256) by (bit_vector);
}

/// Decode a packed NGX version id: `major << 16 | minor << 8 | patch`.
pub fn decode_version(v: u32) -> (r: String)
    ensures
        r@ == version_spec(v),
{
    proof {
        lemma_parts_by_bits(v);
    }
    let mut out = String::new();
    push_decimal(&mut out, (v >> 16) as u64);
    out.push('.');
    push_decimal(&mut out, ((v >> 8) & 0xFF) as u64);
    out.push('.');
    push_decimal(&mut out, (v & 0xFF) as u64);
    assert(out@ =~= version_spec(v));
    out
}

/// The number in the `i`-th of the dot-separated parts; zero behind the last part.
pub open spec fn version_part(parts: Seq<Seq<char>>, i: int) -> Option<nat> {
    if i < parts.len() {
        number_spec(trim_spec(parts[i]), u32::MAX as nat)
    } else {
        Some(0)
    }
}

/// The packed id that a `major.minor.patch` text stands for. Minor and patch
/// may be left out; what follows the patch does not matter.
pub open spec fn pack_semver_spec(s: Seq<char>) -> Option<u32> {
    let parts = split_spec(s, '.');
    match (version_part(parts, 0), version_part(parts, 1), version_part(parts, 2)) {
        (Some(a), Some(b), Some(c)) => Some(pack(a as u32, b as u32, c as u32)),
        _ => None,
    }
}

/// Reads the `i`-th of the dot-separated parts.
fn read_part(parts: &Vec<&[char]>, i: usize) -> (r: Option<u32>)
    ensures
        match r {
            Some(n) => version_part(runs(parts@), i as int) == Some(n as nat),
            None => version_part(runs(parts@), i as int) is None,
        },
{
    if i < parts.len() {
        match parse_number(trim(parts[i]), u32::MAX as u64) {
            Some(n) => Some(n as u32),
            None => None,
        }
    } else {
        Some(0)
    }
}

/// Pack a `major.minor.patch` string into an NGX version id.
pub fn pack_semver(s: &str) -> (r: Option<u32>)
    ensures
        r == pack_semver_spec(s@),
{
    let cs = chars_of(s);
    let parts = split(cs.as_slice(), '.');
    let major = match read_part(&parts, 0) {
        Some(n) => n,
        None => return None,
    };
    let minor = match read_part(&parts, 1) {
        Some(n) => n,
        None => return None,
    };
    let patch = match read_part(&parts, 2) {
        Some(n) => n,
        None => return None,
    };
    Some((major << 16) | (minor << 8) | patch)
}

// ---------------------------------------------------------------------------
// Laws
// ---------------------------------------------------------------------------

/// A number in decimal is left as it is by trimming, and has no dot.
proof fn lemma_decimal_part(n: nat)
    ensures
        trim_spec(decimal(n)) == decimal(n),
        !decimal(n).contains('.'),
{
    lemma_decimal(n);
    let d = decimal(n);
    assert(is_digit(d[0]));
    assert(is_digit(d[d.len() - 1]));
    lemma_trim_nothing(d);
    assert forall|i: int| 0 <= i < d.len() implies d[i] != '.' by {
        assert(is_digit(d[i]));
    }
}

/// Reading `<major>.<minor>.<patch>` packs the three numbers.
pub proof fn law_pack_of_dotted(major: u32, minor: u32, patch: u32)
    ensures
        pack_semver_spec(dotted(major as nat, minor as nat, patch as nat)) == Some(
            pack(major, minor, patch),
        ),
{
    let a = decimal(major as nat);
    let b = decimal(minor as nat);
    let c = decimal(patch as nat);
    lemma_decimal_part(major as nat);
    lemma_decimal_part(minor as nat);
    lemma_decimal_part(patch as nat);
    lemma_split_cons(a, '.', b + seq!['.'] + c);
    lemma_split_cons(b, '.', c);
    lemma_split_none(c, '.');
    let parts = split_spec(dotted(major as nat, minor as nat, patch as nat), '.');
    assert(parts =~= seq![a, b, c]);
    lemma_number_of_decimal(major as nat, u32::MAX as nat);
    lemma_number_of_decimal(minor as nat, u32::MAX as nat);
    lemma_number_of_decimal(patch as nat, u32::MAX as nat);
}

/// Packing the version that an id stands for gives back the id.
pub proof fn law_pack_undoes_decode(v: u32)
    ensures
        pack_semver_spec(version_spec(v)) == Some(v),
{
    let (a, b, c) = (major_of(v), minor_of(v), patch_of(v));
    law_pack_of_dotted(a, b, c);
    assert(((v / 65536) << 16) | (((v / 256) % 256) << 8) | (v % 256) == v) by (bit_vector);
}

/// The id packed from a version whose parts fit decodes to that version.
pub proof fn law_decode_undoes_pack(major: u32, minor: u32, patch: u32)
    requires
        major < 65536,
        minor < 256,
        patch < 256,
    ensures
        version_spec(pack(major, minor, patch)) == dotted(major as nat, minor as nat, patch as nat),
{
    assert(((major << 16) | (minor << 8) | patch) / 65536 == major && (((major << 16) | (minor << 8)
        | patch) / 256) % 256 == minor && ((major << 16) | (minor << 8) | patch) % 256 == patch)
        by (bit_vector)
        requires
            major < 65536,
            minor < 256,
            patch < 256,
    ;
}

/// A packed id stands for its upper sixteen bits, its third and its fourth
/// byte, in decimal with dots between them.
pub proof fn law_version(v: u32)
    ensures
        version_spec(v) == decimal((v / 65536) as nat) + seq!['.'] + decimal(
            ((v / 256) % 256) as nat,
        ) + seq!['.'] + decimal((v % 256) as nat),
{
    assert(version_spec(v) =~= decimal((v / 65536) as nat) + seq!['.'] + decimal(
        ((v / 256) % 256) as nat,
    ) + seq!['.'] + decimal((v % 256) as nat));
}

/// How a version is packed: a text without a dot is the major version; behind
/// a dot comes the minor and behind another the patch version, white space
/// round them not counted. What stands behind a third dot does not matter. A
/// part that is no number makes no version.
pub proof fn law_pack(a: Seq<char>, b: Seq<char>, c: Seq<char>, rest: Seq<char>)
    requires
        !a.contains('.'),
        !b.contains('.'),
        !c.contains('.'),
    ensures
        ({
            let x = number_spec(trim_spec(a), u32::MAX as nat);
            let y = number_spec(trim_spec(b), u32::MAX as nat);
            let z = number_spec(trim_spec(c), u32::MAX as nat);
            let dot = seq!['.'];
            &&& x is Some ==> pack_semver_spec(a) == Some(((x->0 as u32) << 16) | (0u32 << 8) | 0u32)
            &&& x is Some && y is Some ==> pack_semver_spec(a + dot + b) == Some(
                ((x->0 as u32) << 16) | ((y->0 as u32) << 8) | 0u32,
            )
            &&& x is Some && y is Some && z is Some ==> pack_semver_spec(a + dot + (b + dot + c))
                == Some(((x->0 as u32) << 16) | ((y->0 as u32) << 8) | (z->0 as u32))
            &&& x is Some && y is Some && z is Some ==> pack_semver_spec(
                a + dot + (b + dot + (c + dot + rest)),
            ) == Some(((x->0 as u32) << 16) | ((y->0 as u32) << 8) | (z->0 as u32))
            &&& x is None ==> pack_semver_spec(a) is None && pack_semver_spec(a + dot + b) is None
                && pack_semver_spec(a + dot + (b + dot + c)) is None
            &&& y is None ==> pack_semver_spec(a + dot + b) is None && pack_semver_spec(
                a + dot + (b + dot + c),
            ) is None
            &&& z is None ==> pack_semver_spec(a + dot + (b + dot + c)) is None
            &&& x is None || y is None || z is None ==> pack_semver_spec(
                a + dot + (b + dot + (c + dot + rest)),
            ) is None
        }),
{
    let dot = seq!['.'];
    lemma_split_none(a, '.');
    lemma_split_none(b, '.');
    lemma_split_none(c, '.');
    lemma_split_cons(a, '.', b);
    lemma_split_cons(b, '.', c);
    lemma_split_cons(a, '.', b + dot + c);
    lemma_split_cons(c, '.', rest);
    lemma_split_cons(b, '.', c + dot + rest);
    lemma_split_cons(a, '.', b + dot + (c + dot + rest));
    assert(split_spec(a + dot + b, '.') =~= seq![a, b]);
    assert(split_spec(a + dot + (b + dot + c), '.') =~= seq![a, b, c]);
    assert(split_spec(a + dot + (b + dot + (c + dot + rest)), '.') =~= seq![a, b, c] + split_spec(
        rest,
        '.',
    ));
}

} // verus!
