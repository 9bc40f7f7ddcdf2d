//! Object keys of the bucket.

use crate::ngx::feature::{streamline_dir, supported_dir, Feature};
use crate::ngx::payload::{hexadecimal, is_bin_payload, is_zip_payload, law_payload_name};
use crate::ngx::payload::payload_name;
use crate::number::{decimal, law_no_number, lemma_number_of_decimal, number_spec};
use crate::number::parse_number;
use crate::text::{before_suffix, chars_of, contains_text, ends_with, find, find_spec};
use crate::text::{first_occurrence, law_split, lemma_find_is, lemma_find_some, occurs_at};
use crate::text::{lemma_split_cons, lemma_split_first, lemma_split_none};
use crate::text::{runs, same_chars, same_text, split, split_spec, strip_suffix, text_of};
use vstd::prelude::*;
use vstd::slice::slice_subrange;

verus! {

/// What stands in every key of a model object, behind the namespace.
pub const MODELS_MARKER: &'static str = "org/nvidia/team/ngx/models/";

/// What an object of the bucket is, by its key.
pub struct EntryModel {
    pub ns: Seq<char>,
    pub dir: Seq<char>,
    pub version_id: u32,
    pub payload: Seq<char>,
    pub is_sidecar: bool,
    pub size: u64,
}

/// A model object of the bucket.
#[derive(Debug)]
pub struct RawEntry {
    /// What stands before the marker in the key, the slash included.
    pub ns: String,
    pub feature: Feature,
    pub version_id: u32,
    /// The payload file name; of a sidecar, that of the payload it belongs to.
    pub payload: String,
    pub is_sidecar: bool,
    pub size: u64,
}

impl View for RawEntry {
    type V = EntryModel;

    open spec fn view(&self) -> EntryModel {
        EntryModel {
            ns: self.ns@,
            dir: self.feature@,
            version_id: self.version_id,
            payload: self.payload@,
            is_sidecar: self.is_sidecar,
            size: self.size,
        }
    }
}

/// What a list of entries holds.
pub open spec fn models(v: Seq<RawEntry>) -> Seq<EntryModel> {
    v.map_values(|e: RawEntry| e@)
}

/// The file name is one that a payload of the feature has.
pub open spec fn payload_fits(dir: Seq<char>, name: Seq<char>) -> bool {
    if streamline_dir(dir) {
        payload_name(name, ".zip"@)
    } else {
        payload_name(name, ".bin"@)
    }
}

/// The payload that a file name stands for, and whether it is its sha256 sidecar.
pub open spec fn sidecar_split(raw_name: Seq<char>) -> (Seq<char>, bool) {
    match before_suffix(raw_name, ".sha256"@) {
        Some(stem) => (stem, true),
        None => (raw_name, false),
    }
}

/// The entry that the path behind the marker stands for:
/// `<feature>/versions/<version-id>/files/<name>`.
pub open spec fn entry_of_path(ns: Seq<char>, parts: Seq<Seq<char>>, size: u64) -> Option<
    EntryModel,
> {
    if parts.len() == 5 && supported_dir(parts[0]) && parts[1] == "versions"@ && number_spec(
        parts[2],
        u32::MAX as nat,
    ) is Some && parts[3] == "files"@ && payload_fits(parts[0], sidecar_split(parts[4]).0) {
        Some(
            EntryModel {
                ns,
                dir: parts[0],
                version_id: number_spec(parts[2], u32::MAX as nat)->0 as u32,
                payload: sidecar_split(parts[4]).0,
                is_sidecar: sidecar_split(parts[4]).1,
                size,
            },
        )
    } else {
        None
    }
}

/// The path behind the marker, in pieces.
pub open spec fn path_parts(key: Seq<char>, pos: int) -> Seq<Seq<char>> {
    split_spec(key.skip(pos + MODELS_MARKER@.len()), '/')
}

/// The entry that a key stands for. The namespace is what stands before the
/// first marker.
pub open spec fn parse_key_spec(key: Seq<char>, size: u64) -> Option<EntryModel> {
    match find_spec(key, MODELS_MARKER@) {
        Some(pos) => entry_of_path(key.take(pos), path_parts(key, pos), size),
        None => None,
    }
}

/// The entry that an object key stands for, if it is one of a payload or of
/// the sidecar of a payload.
pub fn parse_key(key: &str, size: u64) -> (r: Option<RawEntry>)
    ensures
        match r {
            Some(e) => parse_key_spec(key@, size) == Some(e@),
            None => parse_key_spec(key@, size) is None,
        },
{
    let cs = chars_of(key);
    let marker = chars_of(MODELS_MARKER);
    let pos = match find(cs.as_slice(), marker.as_slice()) {
        Some(pos) => pos,
        None => return None,
    };
    assert(pos + marker.len() <= cs.len());
    let rest = slice_subrange(cs.as_slice(), pos + marker.len(), cs.len());
    let parts = split(rest, '/');
    assert(rest@ =~= key@.skip(pos + MODELS_MARKER@.len()));
    assert(runs(parts@).len() == parts@.len());
    if parts.len() != 5 {
        return None;
    }
    let dir = text_of(parts[0]);
    let feature = match Feature::from_dir(dir.as_str()) {
        Some(f) => f,
        None => return None,
    };
    let versions = chars_of("versions");
    if !same_chars(parts[1], versions.as_slice()) {
        return None;
    }
    let version_id = match parse_number(parts[2], u32::MAX as u64) {
        Some(n) => n as u32,
        None => return None,
    };
    let files = chars_of("files");
    if !same_chars(parts[3], files.as_slice()) {
        return None;
    }
    let suffix = chars_of(".sha256");
    let (name, is_sidecar) = match strip_suffix(parts[4], suffix.as_slice()) {
        Some(stem) => (text_of(stem), true),
        None => (text_of(parts[4]), false),
    };
    let payload_ok = if feature.is_streamline() {
        is_zip_payload(name.as_str())
    } else {
        is_bin_payload(name.as_str())
    };
    if !payload_ok {
        return None;
    }
    let ns = text_of(slice_subrange(cs.as_slice(), 0, pos));
    assert(ns@ =~= key@.take(pos as int));
    Some(RawEntry { ns, feature, version_id, payload: name, is_sidecar, size })
}

/// The feature directory of an object that is no payload, where it is worth
/// reporting: directory markers and configuration are not.
pub open spec fn other_dir_spec(key: Seq<char>) -> Option<Seq<char>> {
    if "/"@.is_suffix_of(key) {
        None
    } else {
        match find_spec(key, MODELS_MARKER@) {
            Some(pos) => {
                let dir = path_parts(key, pos)[0];
                if dir.len() > 0 && dir != "config"@ {
                    Some(dir)
                } else {
                    None
                }
            },
            None => None,
        }
    }
}

/// The feature directory to report for an object that is no payload.
pub fn other_dir(key: &str) -> (r: Option<String>)
    ensures
        match r {
            Some(dir) => other_dir_spec(key@) == Some(dir@),
            None => other_dir_spec(key@) is None,
        },
{
    let cs = chars_of(key);
    let slash = chars_of("/");
    if ends_with(cs.as_slice(), slash.as_slice()) {
        return None;
    }
    let marker = chars_of(MODELS_MARKER);
    match find(cs.as_slice(), marker.as_slice()) {
        Some(pos) => {
            assert(pos + marker.len() <= cs.len());
            let rest = slice_subrange(cs.as_slice(), pos + marker.len(), cs.len());
            assert(rest@ =~= key@.skip(pos + MODELS_MARKER@.len()));
            let parts = split(rest, '/');
            assert(runs(parts@)[0] == parts@[0]@);
            let dir = text_of(parts[0]);
            if parts[0].len() > 0 && !same_text(dir.as_str(), "config") {
                Some(dir)
            } else {
                None
            }
        },
        None => None,
    }
}

// ---------------------------------------------------------------------------
// Laws
// ---------------------------------------------------------------------------

/// The key `<ns><marker><dir>/versions/<version>/files/<name>`.
pub open spec fn object_key(
    ns: Seq<char>,
    dir: Seq<char>,
    version: Seq<char>,
    name: Seq<char>,
) -> Seq<char> {
    ns + MODELS_MARKER@ + (dir + seq!['/'] + ("versions"@ + seq!['/'] + (version + seq!['/'] + (
    "files"@ + seq!['/'] + name))))
}

/// The marker does not overlap itself: behind a text without it, it first
/// stands where that text ends.
proof fn lemma_marker_first(ns: Seq<char>, rest: Seq<char>)
    requires
        !contains_text(ns, MODELS_MARKER@),
    ensures
        first_occurrence(ns + MODELS_MARKER@ + rest, MODELS_MARKER@, ns.len() as int),
{
    let m = MODELS_MARKER@;
    let key = ns + m + rest;
    reveal_strlit("org/nvidia/team/ngx/models/");
    assert(m.len() == 27);
    assert(key.subrange(ns.len() as int, ns.len() as int + m.len()) =~= m);
    assert forall|j: int| 0 <= j < ns.len() implies !occurs_at(key, m, j) by {
        if occurs_at(key, m, j) {
            let d = ns.len() - j;
            if d >= m.len() {
                assert(ns.subrange(j, j + m.len()) =~= key.subrange(j, j + m.len()));
                assert(occurs_at(ns, m, j));
            } else {
                let w = key.subrange(j, j + m.len());
                assert(w == m);
                assert(w[d] == key[j + d]);
                assert(key[ns.len() as int] == m[0]);
                assert(m[d] == m[0]);
                assert(d == 21);
                assert(w[d + 1] == key[j + d + 1]);
                assert(key[ns.len() as int + 1] == m[1]);
                assert(m[22] == m[1]);
            }
        }
    }
}

/// A text whose characters are all different from `c` does not contain `c`.
proof fn lemma_literals_have_no_slash()
    ensures
        !"versions"@.contains('/'),
        !"files"@.contains('/'),
{
    reveal_strlit("versions");
    reveal_strlit("files");
}

/// A payload name holds no path separator.
proof fn lemma_payload_has_no_slash(dir: Seq<char>, name: Seq<char>)
    requires
        payload_fits(dir, name),
    ensures
        !name.contains('/'),
{
    reveal_strlit(".zip");
    reveal_strlit(".bin");
    let ext = if streamline_dir(dir) {
        ".zip"@
    } else {
        ".bin"@
    };
    let stem = name.take(name.len() - ext.len());
    assert(before_suffix(name, ext) == Some(stem));
    let parts = split_spec(stem, '_');
    let rest = lemma_split_first(stem, '_');
    let none = lemma_split_first(rest, '_');
    assert(split_spec(rest, '_')[0] == parts[1]);
    assert(stem == parts[0] + seq!['_'] + parts[1]);
    assert(name =~= stem + ext);
    assert forall|i: int| 0 <= i < name.len() implies name[i] != '/' by {
        if i < parts[0].len() {
            assert(name[i] == parts[0][i]);
        } else if i < stem.len() && i > parts[0].len() {
            assert(name[i] == parts[1][i - parts[0].len() - 1]);
        } else if i >= stem.len() {
            assert(name[i] == ext[i - stem.len()]);
        }
    }
}

/// A key made of a namespace without the marker, a supported feature
/// directory, a version id, written in any way that is a number, and a payload
/// file name, with `.sha256` behind it or not, is parsed into just these.
pub proof fn law_parse_key(
    ns: Seq<char>,
    dir: Seq<char>,
    version: Seq<char>,
    payload: Seq<char>,
    is_sidecar: bool,
    size: u64,
)
    requires
        !contains_text(ns, MODELS_MARKER@),
        supported_dir(dir),
        !dir.contains('/'),
        number_spec(version, u32::MAX as nat) is Some,
        payload_fits(dir, payload),
    ensures
        parse_key_spec(
            object_key(
                ns,
                dir,
                version,
                if is_sidecar {
                    payload + ".sha256"@
                } else {
                    payload
                },
            ),
            size,
        ) == Some(
            EntryModel {
                ns,
                dir,
                version_id: number_spec(version, u32::MAX as nat)->0 as u32,
                payload,
                is_sidecar,
                size,
            },
        ),
{
    let v = version;
    let name = if is_sidecar {
        payload + ".sha256"@
    } else {
        payload
    };
    let tail4 = "files"@ + seq!['/'] + name;
    let tail3 = v + seq!['/'] + tail4;
    let tail2 = "versions"@ + seq!['/'] + tail3;
    let path = dir + seq!['/'] + tail2;
    let key = object_key(ns, dir, v, name);
    lemma_marker_first(ns, path);
    lemma_find_is(key, MODELS_MARKER@, ns.len() as int);
    assert(key.take(ns.len() as int) =~= ns);
    assert(key.skip(ns.len() as int + MODELS_MARKER@.len()) =~= path);
    lemma_literals_have_no_slash();
    law_no_number(v, u32::MAX as nat);
    assert(!v.contains('/')) by {
        assert forall|i: int| 0 <= i < v.len() implies v[i] != '/' by {
            if i > 0 {
                assert('0' <= v[i] <= '9');
            }
        }
    }
    lemma_payload_has_no_slash(dir, payload);
    reveal_strlit(".sha256");
    assert(!name.contains('/')) by {
        assert forall|i: int| 0 <= i < name.len() implies name[i] != '/' by {
            if i < payload.len() {
                assert(payload.contains(payload[i]));
            }
        }
    }
    lemma_split_cons(dir, '/', tail2);
    lemma_split_cons("versions"@, '/', tail3);
    lemma_split_cons(v, '/', tail4);
    lemma_split_cons("files"@, '/', name);
    lemma_split_none(name, '/');
    assert(split_spec(path, '/') =~= seq![dir, "versions"@, v, "files"@, name]);
    if is_sidecar {
        assert(name.take(name.len() - ".sha256"@.len()) =~= payload);
        assert(name.subrange(name.len() - ".sha256"@.len(), name.len() as int) =~= ".sha256"@);
        assert(".sha256"@.is_suffix_of(name));
    } else {
        reveal_strlit(".zip");
        reveal_strlit(".bin");
        assert(name.last() != '6') by {
            let ext = if streamline_dir(dir) {
                ".zip"@
            } else {
                ".bin"@
            };
            assert(ext.is_suffix_of(name));
            assert(name.subrange(name.len() - 4, name.len() as int)[3] == name.last());
        }
        if ".sha256"@.is_suffix_of(name) {
            assert(name.subrange(name.len() - 7, name.len() as int)[6] == name.last());
        }
    }
}

/// A key made of a namespace without the marker, a supported feature
/// directory, a version id in decimal and a payload file name, with `.sha256`
/// behind it or not, is parsed into just these.
pub proof fn law_parse_undoes_key(
    ns: Seq<char>,
    dir: Seq<char>,
    version_id: u32,
    payload: Seq<char>,
    is_sidecar: bool,
    size: u64,
)
    requires
        !contains_text(ns, MODELS_MARKER@),
        supported_dir(dir),
        !dir.contains('/'),
        payload_fits(dir, payload),
    ensures
        parse_key_spec(
            object_key(
                ns,
                dir,
                decimal(version_id as nat),
                if is_sidecar {
                    payload + ".sha256"@
                } else {
                    payload
                },
            ),
            size,
        ) == Some(EntryModel { ns, dir, version_id, payload, is_sidecar, size }),
{
    lemma_number_of_decimal(version_id as nat, u32::MAX as nat);
    law_parse_key(ns, dir, decimal(version_id as nat), payload, is_sidecar, size);
}

/// Before the first occurrence there is none.
proof fn lemma_first_alone(key: Seq<char>, m: Seq<char>, pos: int)
    requires
        first_occurrence(key, m, pos),
        m.len() > 0,
    ensures
        !contains_text(key.take(pos), m),
{
    let front = key.take(pos);
    if contains_text(front, m) {
        let j = choose|j: int| occurs_at(front, m, j);
        assert(key.subrange(j, j + m.len()) =~= front.subrange(j, j + m.len()));
        assert(occurs_at(key, m, j));
    }
}

/// A key that is parsed is made of the namespace, the marker, the feature
/// directory, a text of the version id and the payload file name, with
/// `.sha256` behind it for a sidecar; and the feature is supported.
pub proof fn law_parsed_key_shape(key: Seq<char>, size: u64) -> (version: Seq<char>)
    ensures
        parse_key_spec(key, size) matches Some(e) ==> {
            &&& !contains_text(e.ns, MODELS_MARKER@)
            &&& !e.dir.contains('/')
            &&& supported_dir(e.dir)
            &&& payload_fits(e.dir, e.payload)
            &&& e.size == size
            &&& number_spec(version, u32::MAX as nat) == Some(e.version_id as nat)
            &&& key == object_key(
                e.ns,
                e.dir,
                version,
                if e.is_sidecar {
                    e.payload + ".sha256"@
                } else {
                    e.payload
                },
            )
        },
{
    match find_spec(key, MODELS_MARKER@) {
        Some(pos) => {
            let m = MODELS_MARKER@;
            reveal_strlit("org/nvidia/team/ngx/models/");
            let i = choose|i: int| occurs_at(key, m, i);
            lemma_find_some(key, m, i);
            let path = key.skip(pos + m.len());
            let parts = split_spec(path, '/');
            let r1 = lemma_split_first(path, '/');
            let r2 = lemma_split_first(r1, '/');
            let r3 = lemma_split_first(r2, '/');
            let r4 = lemma_split_first(r3, '/');
            let r5 = lemma_split_first(r4, '/');
            if parts.len() == 5 {
                assert(split_spec(r1, '/') =~= parts.skip(1));
                assert(split_spec(r2, '/') =~= parts.skip(2));
                assert(split_spec(r3, '/') =~= parts.skip(3));
                assert(split_spec(r4, '/') =~= parts.skip(4));
                let e = parse_key_spec(key, size);
                if e is Some {
                    assert(key =~= key.take(pos) + m + path);
                    assert(!contains_text(key.take(pos), m)) by {
                        lemma_first_alone(key, m, pos);
                    }
                    law_split(path, '/');
                    assert(!parts[0].contains('/'));
                    let raw = parts[4];
                    if ".sha256"@.is_suffix_of(raw) {
                        assert(raw =~= raw.take(raw.len() - ".sha256"@.len()) + ".sha256"@);
                    }
                }
            }
            parts[2]
        },
        None => seq![],
    }
}

/// The payload names of a feature: of the Streamline family they end in
/// `.zip`, of the DLSS family in `.bin`.
pub proof fn law_payload_fits(dir: Seq<char>, a: Seq<char>, b: Seq<char>, name: Seq<char>)
    ensures
        a.len() > 0 && b.len() > 0 && hexadecimal(a) && hexadecimal(b) ==> {
            &&& "sl_sdk"@.is_prefix_of(dir) ==> payload_fits(dir, a + seq!['_'] + b + ".zip"@)
            &&& !"sl_sdk"@.is_prefix_of(dir) ==> payload_fits(dir, a + seq!['_'] + b + ".bin"@)
        },
        payload_fits(dir, name) ==> exists|x: Seq<char>, y: Seq<char>|
            x.len() > 0 && y.len() > 0 && #[trigger] hexadecimal(x) && #[trigger] hexadecimal(y)
                && name == x + seq!['_'] + y + (if "sl_sdk"@.is_prefix_of(dir) {
                ".zip"@
            } else {
                ".bin"@
            }),
{
    law_payload_name(a, b, name, ".zip"@);
    law_payload_name(a, b, name, ".bin"@);
}

/// What is reported of an object that is no payload: the directory behind the
/// marker, wherever the object lies in it. Nothing is reported of directory
/// markers, of configuration, or without the marker.
pub proof fn law_other_dir(ns: Seq<char>, dir: Seq<char>, rest: Seq<char>, key: Seq<char>)
    requires
        !contains_text(ns, MODELS_MARKER@),
        !dir.contains('/'),
    ensures
        ({
            let inside = ns + MODELS_MARKER@ + (dir + seq!['/'] + rest);
            &&& rest.len() > 0 && rest.last() != '/' ==> other_dir_spec(inside) == (if dir.len() == 0
                || dir == "config"@ {
                None
            } else {
                Some(dir)
            })
        }),
        dir.len() > 0 ==> other_dir_spec(ns + MODELS_MARKER@ + dir) == (if dir == "config"@ {
            None
        } else {
            Some(dir)
        }),
        key.len() > 0 && key.last() == '/' ==> other_dir_spec(key) is None,
        !contains_text(key, MODELS_MARKER@) ==> other_dir_spec(key) is None,
{
    reveal_strlit("/");
    assert("/"@.len() == 1 && "/"@[0] == '/');
    let path = dir + seq!['/'] + rest;
    let inside = ns + MODELS_MARKER@ + path;
    if rest.len() > 0 && rest.last() != '/' {
        assert(inside.last() == rest.last());
        if "/"@.is_suffix_of(inside) {
            assert(inside.subrange(inside.len() - 1, inside.len() as int)[0] == inside.last());
        }
        lemma_marker_first(ns, path);
        lemma_find_is(inside, MODELS_MARKER@, ns.len() as int);
        assert(inside.skip(ns.len() as int + MODELS_MARKER@.len()) =~= path);
        lemma_split_cons(dir, '/', rest);
    }
    if dir.len() > 0 {
        let whole = ns + MODELS_MARKER@ + dir;
        assert(whole.last() == dir.last());
        assert(dir.contains(dir.last()));
        if "/"@.is_suffix_of(whole) {
            assert(whole.subrange(whole.len() - 1, whole.len() as int)[0] == whole.last());
        }
        lemma_marker_first(ns, dir);
        lemma_find_is(whole, MODELS_MARKER@, ns.len() as int);
        assert(whole.skip(ns.len() as int + MODELS_MARKER@.len()) =~= dir);
        lemma_split_none(dir, '/');
    }
    if key.len() > 0 && key.last() == '/' {
        assert(key.subrange(key.len() - 1, key.len() as int) =~= "/"@);
        assert("/"@.is_suffix_of(key));
    }
}

} // verus!
