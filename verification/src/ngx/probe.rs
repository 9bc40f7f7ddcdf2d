//! Objects that the listing may not show, asked for by name.
//!
//! The listing is capped, so the newest objects can be cut off. Two sources
//! name what to ask for: the version pins of the server configuration, and
//! the version ids that the next builds would have.

use crate::arrange::{lemma_arrange_contains, lemma_arrange_ordered};
use crate::ngx::config::{pin_models, ConfigPin, PinModel};
use crate::ngx::feature::{canonical_app_of, canonical_payload_of, law_canonical_payload};
use crate::ngx::feature::{rank_lt, Feature};
use crate::ngx::grouping::{by_rank, dirs_of, feature_dirs, features_of, features_spec};
use crate::ngx::grouping::lemma_by_rank_strict;
use crate::ngx::key::{models, EntryModel, RawEntry};
use crate::ngx::listing::{law_read_size, read_size, size_spec};
use crate::ngx::urls::{payload_url, payload_url_spec, sidecar_url, sidecar_url_spec};
use crate::ngx::version::{lemma_parts_by_bits, major_of, minor_of, pack, pack_semver};
use crate::ngx::version::{pack_semver_spec, patch_of};
use crate::number::{decimal, number_spec};
use crate::text::{copy_text, same_text, views};
use vstd::prelude::*;

verus! {

/// What is asked for.
pub struct ProbeModel {
    pub ns: Seq<char>,
    pub dir: Seq<char>,
    pub version_id: u32,
}

/// The universal payload of a version, asked for by name.
#[derive(Debug)]
pub struct Probe {
    pub ns: String,
    pub feature: Feature,
    pub version_id: u32,
}

impl View for Probe {
    type V = ProbeModel;

    open spec fn view(&self) -> ProbeModel {
        ProbeModel { ns: self.ns@, dir: self.feature@, version_id: self.version_id }
    }
}

/// What a list of probes asks for.
pub open spec fn probe_models(v: Seq<Probe>) -> Seq<ProbeModel> {
    v.map_values(|p: Probe| p@)
}

/// The address of what is asked for.
pub open spec fn probe_url_spec(p: ProbeModel) -> Seq<char> {
    payload_url_spec(p.ns, p.dir, p.version_id, canonical_payload_of(p.dir))
}

/// The address of what is asked for: the payload, or its sidecar.
pub open spec fn probe_address(p: ProbeModel, sidecar: bool) -> Seq<char> {
    if sidecar {
        sidecar_url_spec(probe_url_spec(p))
    } else {
        probe_url_spec(p)
    }
}

/// The entry that a probe stands for: the payload, or its sidecar.
pub open spec fn probe_entry(p: ProbeModel, is_sidecar: bool, size: u64) -> EntryModel {
    EntryModel {
        ns: p.ns,
        dir: p.dir,
        version_id: p.version_id,
        payload: canonical_payload_of(p.dir),
        is_sidecar,
        size,
    }
}

/// The entries that a probe finds, where the payload is there.
pub open spec fn probe_entries_spec(p: ProbeModel, size: u64, sidecar: bool) -> Seq<EntryModel> {
    if sidecar {
        seq![probe_entry(p, false, size), probe_entry(p, true, 0)]
    } else {
        seq![probe_entry(p, false, size)]
    }
}

impl Probe {
    /// The address of the payload, or of its sidecar.
    pub fn address(&self, sidecar: bool) -> (r: String)
        ensures
            r@ == probe_address(self@, sidecar),
    {
        let payload = self.feature.canonical_payload();
        let url = payload_url(
            self.ns.as_str(),
            self.feature.dir(),
            self.version_id,
            payload.as_str(),
        );
        if sidecar {
            sidecar_url(url.as_str())
        } else {
            url
        }
    }

    /// The entry of the payload, or of its sidecar.
    fn entry(&self, is_sidecar: bool, size: u64) -> (r: RawEntry)
        ensures
            r@ == probe_entry(self@, is_sidecar, size),
    {
        RawEntry {
            ns: copy_text(self.ns.as_str()),
            feature: self.feature.clone(),
            version_id: self.version_id,
            payload: self.feature.canonical_payload(),
            is_sidecar,
            size,
        }
    }

    /// The entries that a probe finds: the payload, which has this size, and
    /// its sidecar, if there is one.
    pub fn probe_entries(&self, size: u64, sidecar: bool) -> (r: Vec<RawEntry>)
        ensures
            models(r@) == probe_entries_spec(self@, size, sidecar),
    {
        let mut out: Vec<RawEntry> = Vec::new();
        out.push(self.entry(false, size));
        if sidecar {
            out.push(self.entry(true, 0));
        }
        assert(models(out@) =~= probe_entries_spec(self@, size, sidecar));
        out
    }
}

/// What the answer to a HEAD request says of an object: its size, if it is there.
pub open spec fn head_size_spec(status: u16, content_length: Option<Seq<char>>) -> Option<u64> {
    if status == 200 {
        Some(size_spec(content_length))
    } else {
        None
    }
}

/// The size of an object by the answer to a HEAD request, if it is there:
/// the content length, or zero where none is given.
pub fn head_size(status: u16, content_length: Option<&str>) -> (r: Option<u64>)
    ensures
        r == head_size_spec(
            status,
            match content_length {
                Some(t) => Some(t@),
                None => None,
            },
        ),
{
    if status != 200 {
        return None;
    }
    Some(read_size(content_length))
}

// ---------------------------------------------------------------------------
// Version pins
// ---------------------------------------------------------------------------

/// What a pin names in a namespace: the pinned version, where the pin is for
/// the universal file and the version is one.
pub open spec fn pin_probe(ns: Seq<char>, pin: PinModel) -> Option<ProbeModel> {
    if pin.app_id == canonical_app_of(pin.dir) {
        match pack_semver_spec(pin.version) {
            Some(id) => Some(ProbeModel { ns, dir: pin.dir, version_id: id }),
            None => None,
        }
    } else {
        None
    }
}

/// What the pins of a namespace name, in order.
pub open spec fn pin_probes_spec(ns: Seq<char>, pins: Seq<PinModel>) -> Seq<ProbeModel>
    decreases pins.len(),
{
    if pins.len() == 0 {
        seq![]
    } else {
        match pin_probe(ns, pins.last()) {
            Some(p) => pin_probes_spec(ns, pins.drop_last()).push(p),
            None => pin_probes_spec(ns, pins.drop_last()),
        }
    }
}

/// What the pins of a namespace name.
pub fn pin_probes(ns: &str, pins: &Vec<ConfigPin>) -> (r: Vec<Probe>)
    ensures
        probe_models(r@) == pin_probes_spec(ns@, pin_models(pins@)),
{
    let ghost all = pin_models(pins@);
    let mut out: Vec<Probe> = Vec::new();
    let mut i: usize = 0;
    assert(probe_models(out@) =~= pin_probes_spec(ns@, all.take(0)));
    while i < pins.len()
        invariant
            i <= pins@.len(),
            all == pin_models(pins@),
            probe_models(out@) == pin_probes_spec(ns@, all.take(i as int)),
        decreases pins@.len() - i,
    {
        let ghost before = probe_models(out@);
        assert(all.take(i + 1).drop_last() =~= all.take(i as int));
        assert(all.take(i + 1).last() == pins@[i as int]@);
        let pin = &pins[i];
        if same_text(pin.app_id.as_str(), pin.feature.canonical_app_id()) {
            match pack_semver(pin.version.as_str()) {
                Some(id) => {
                    let p = Probe {
                        ns: copy_text(ns),
                        feature: pin.feature.clone(),
                        version_id: id,
                    };
                    let ghost probe = p@;
                    out.push(p);
                    assert(probe_models(out@) =~= before.push(probe));
                },
                None => {},
            }
        }
        i = i + 1;
    }
    assert(all.take(all.len() as int) =~= all);
    out
}

// ---------------------------------------------------------------------------
// Staged builds
// ---------------------------------------------------------------------------

/// The newest version of a feature among the entries.
pub open spec fn latest_spec(es: Seq<EntryModel>, dir: Seq<char>) -> Option<u32>
    decreases es.len(),
{
    if es.len() == 0 {
        None
    } else {
        let before = latest_spec(es.drop_last(), dir);
        let e = es.last();
        if e.dir != dir || (before matches Some(v) && v >= e.version_id) {
            before
        } else {
            Some(e.version_id)
        }
    }
}

/// The newest version of a feature among the entries.
fn latest(raw: &Vec<RawEntry>, feature: &Feature) -> (r: Option<u32>)
    ensures
        r == latest_spec(models(raw@), feature@),
{
    let ghost all = models(raw@);
    let mut best: Option<u32> = None;
    let mut i: usize = 0;
    assert(all.take(0) =~= seq![]);
    while i < raw.len()
        invariant
            i <= raw@.len(),
            all == models(raw@),
            best == latest_spec(all.take(i as int), feature@),
        decreases raw@.len() - i,
    {
        assert(all.take(i + 1).drop_last() =~= all.take(i as int));
        assert(all.take(i + 1).last() == raw@[i as int]@);
        if raw[i].feature.same(feature) {
            match best {
                Some(v) => {
                    if v < raw[i].version_id {
                        best = Some(raw[i].version_id);
                    }
                },
                None => {
                    best = Some(raw[i].version_id);
                },
            }
        }
        i = i + 1;
    }
    assert(all.take(all.len() as int) =~= all);
    best
}

/// The ids of the builds 0 and 128 of the minor versions from `minor` to `top`.
pub open spec fn build_ids(major: u32, minor: int, top: int) -> Seq<u32>
    decreases top + 1 - minor,
{
    if minor > top {
        seq![]
    } else {
        seq![pack(major, minor as u32, 0), pack(major, minor as u32, 128)] + build_ids(
            major,
            minor + 1,
            top,
        )
    }
}

/// The last minor version that is asked for: the third behind the newest,
/// but none above 255.
pub open spec fn top_minor(minor: int) -> int {
    if minor + 3 < 255 {
        minor + 3
    } else {
        255
    }
}

/// The ids that the builds behind the newest version would have: of its
/// major version, the builds 0 and 128 of the next three minor versions.
pub open spec fn staged_ids_spec(latest: u32) -> Seq<u32> {
    let minor = minor_of(latest) as int;
    build_ids(major_of(latest), minor + 1, top_minor(minor))
}

/// The ids that the builds behind the newest version would have.
pub fn staged_ids(latest: u32) -> (r: Vec<u32>)
    ensures
        r@ == staged_ids_spec(latest),
{
    proof {
        lemma_parts_by_bits(latest);
    }
    let major: u32 = latest >> 16;
    let minor: u32 = (latest >> 8) & 0xFF;
    let top: u32 = if minor + 3 < 255 {
        minor + 3
    } else {
        255
    };
    let ghost all = staged_ids_spec(latest);
    let mut out: Vec<u32> = Vec::new();
    let mut m: u32 = minor + 1;
    assert(out@ + build_ids(major, m as int, top as int) =~= all);
    while m <= top
        invariant
            m <= 256,
            top <= 255,
            out@ + build_ids(major, m as int, top as int) == all,
        decreases top + 1 - m,
    {
        let ghost before = out@;
        out.push((major << 16) | (m << 8) | 0);
        out.push((major << 16) | (m << 8) | 128);
        assert(out@ =~= before + seq![pack(major, m, 0), pack(major, m, 128)]);
        assert(out@ + build_ids(major, m + 1, top as int) =~= before + build_ids(
            major,
            m as int,
            top as int,
        ));
        m = m + 1;
    }
    assert(out@ =~= all);
    out
}

/// The payload of the version is among the entries.
pub open spec fn known_spec(es: Seq<EntryModel>, dir: Seq<char>, id: u32) -> bool {
    exists|i: int|
        0 <= i < es.len() && (#[trigger] es[i]).dir == dir && es[i].version_id == id
            && !es[i].is_sidecar
}

/// Whether the payload of the version is among the entries.
fn known(raw: &Vec<RawEntry>, feature: &Feature, id: u32) -> (r: bool)
    ensures
        r == known_spec(models(raw@), feature@, id),
{
    let ghost all = models(raw@);
    let mut i: usize = 0;
    while i < raw.len()
        invariant
            i <= raw@.len(),
            all == models(raw@),
            forall|j: int|
                0 <= j < i ==> !((#[trigger] all[j]).dir == feature@ && all[j].version_id == id
                    && !all[j].is_sidecar),
        decreases raw@.len() - i,
    {
        assert(all[i as int] == raw@[i as int]@);
        if raw[i].version_id == id && !raw[i].is_sidecar && raw[i].feature.same(feature) {
            return true;
        }
        i = i + 1;
    }
    false
}

/// A version in each of the namespaces.
pub open spec fn everywhere(namespaces: Seq<Seq<char>>, dir: Seq<char>, id: u32) -> Seq<
    ProbeModel,
> {
    namespaces.map_values(|ns: Seq<char>| ProbeModel { ns, dir, version_id: id })
}

/// Those of the versions whose payload is not among the entries, each in every namespace.
pub open spec fn unknown_everywhere(
    es: Seq<EntryModel>,
    namespaces: Seq<Seq<char>>,
    dir: Seq<char>,
    ids: Seq<u32>,
) -> Seq<ProbeModel>
    decreases ids.len(),
{
    if ids.len() == 0 {
        seq![]
    } else {
        let before = unknown_everywhere(es, namespaces, dir, ids.drop_last());
        if known_spec(es, dir, ids.last()) {
            before
        } else {
            before + everywhere(namespaces, dir, ids.last())
        }
    }
}

/// The staged builds of a feature to ask for.
pub open spec fn staged_of(
    es: Seq<EntryModel>,
    namespaces: Seq<Seq<char>>,
    dir: Seq<char>,
) -> Seq<ProbeModel> {
    match latest_spec(es, dir) {
        Some(v) => unknown_everywhere(es, namespaces, dir, staged_ids_spec(v)),
        None => seq![],
    }
}

/// The staged builds of the features to ask for, one feature after another.
pub open spec fn staged_of_all(
    es: Seq<EntryModel>,
    namespaces: Seq<Seq<char>>,
    dirs: Seq<Seq<char>>,
) -> Seq<ProbeModel>
    decreases dirs.len(),
{
    if dirs.len() == 0 {
        seq![]
    } else {
        staged_of_all(es, namespaces, dirs.drop_last()) + staged_of(es, namespaces, dirs.last())
    }
}

/// The staged builds to ask for: of each feature of the entries, in listing
/// order, those behind its newest version that are not among the entries.
pub open spec fn staged_spec(es: Seq<EntryModel>, namespaces: Seq<Seq<char>>) -> Seq<ProbeModel> {
    staged_of_all(es, namespaces, features_spec(es))
}

/// Adds a version in each of the namespaces.
fn push_everywhere(out: &mut Vec<Probe>, namespaces: &Vec<String>, feature: &Feature, id: u32)
    ensures
        probe_models(final(out)@) == probe_models(old(out)@) + everywhere(
            views(namespaces@),
            feature@,
            id,
        ),
{
    let ghost before = probe_models(out@);
    let ghost all = everywhere(views(namespaces@), feature@, id);
    let mut i: usize = 0;
    assert(before + all.take(0) =~= before);
    while i < namespaces.len()
        invariant
            i <= namespaces@.len(),
            all == everywhere(views(namespaces@), feature@, id),
            probe_models(out@) == before + all.take(i as int),
        decreases namespaces@.len() - i,
    {
        let ghost now = probe_models(out@);
        let p = Probe {
            ns: copy_text(namespaces[i].as_str()),
            feature: feature.clone(),
            version_id: id,
        };
        let ghost probe = p@;
        out.push(p);
        assert(probe_models(out@) =~= now.push(probe));
        assert(all[i as int] == probe);
        assert(all.take(i + 1) =~= all.take(i as int).push(probe));
        i = i + 1;
        assert(probe_models(out@) =~= before + all.take(i as int));
    }
    assert(all.take(all.len() as int) =~= all);
}

/// Adds the staged builds of a feature.
fn push_staged(
    out: &mut Vec<Probe>,
    raw: &Vec<RawEntry>,
    namespaces: &Vec<String>,
    feature: &Feature,
)
    ensures
        probe_models(final(out)@) == probe_models(old(out)@) + staged_of(
            models(raw@),
            views(namespaces@),
            feature@,
        ),
{
    let ghost before = probe_models(out@);
    let ghost es = models(raw@);
    let ghost nss = views(namespaces@);
    match latest(raw, feature) {
        Some(v) => {
            let ids = staged_ids(v);
            let mut i: usize = 0;
            assert(ids@.take(0) =~= seq![]);
            assert(before + unknown_everywhere(es, nss, feature@, ids@.take(0)) =~= before);
            while i < ids.len()
                invariant
                    i <= ids@.len(),
                    es == models(raw@),
                    nss == views(namespaces@),
                    probe_models(out@) == before + unknown_everywhere(
                        es,
                        nss,
                        feature@,
                        ids@.take(i as int),
                    ),
                decreases ids@.len() - i,
            {
                assert(ids@.take(i + 1).drop_last() =~= ids@.take(i as int));
                assert(ids@.take(i + 1).last() == ids@[i as int]);
                if !known(raw, feature, ids[i]) {
                    push_everywhere(out, namespaces, feature, ids[i]);
                }
                i = i + 1;
                assert(probe_models(out@) =~= before + unknown_everywhere(
                    es,
                    nss,
                    feature@,
                    ids@.take(i as int),
                ));
            }
            assert(ids@.take(ids@.len() as int) =~= ids@);
        },
        None => {
            assert(probe_models(out@) =~= before + seq![]);
        },
    }
}

/// The staged builds to ask for.
pub fn staged_probes(raw: &Vec<RawEntry>, namespaces: &Vec<String>) -> (r: Vec<Probe>)
    ensures
        probe_models(r@) == staged_spec(models(raw@), views(namespaces@)),
{
    let ghost es = models(raw@);
    let ghost nss = views(namespaces@);
    let features = features_of(raw);
    let ghost dirs = feature_dirs(features@);
    let mut out: Vec<Probe> = Vec::new();
    let mut i: usize = 0;
    assert(dirs.take(0) =~= seq![]);
    assert(probe_models(out@) =~= staged_of_all(es, nss, dirs.take(0)));
    while i < features.len()
        invariant
            i <= features@.len(),
            es == models(raw@),
            nss == views(namespaces@),
            dirs == feature_dirs(features@),
            probe_models(out@) == staged_of_all(es, nss, dirs.take(i as int)),
        decreases features@.len() - i,
    {
        assert(dirs.take(i + 1).drop_last() =~= dirs.take(i as int));
        assert(dirs.take(i + 1).last() == features@[i as int]@);
        push_staged(&mut out, raw, namespaces, &features[i]);
        i = i + 1;
    }
    assert(dirs.take(dirs.len() as int) =~= dirs);
    out
}

// ---------------------------------------------------------------------------
// Laws
// ---------------------------------------------------------------------------

/// The parts of a packed id are what it was packed from.
proof fn lemma_packed_parts(major: u32, minor: u32, patch: u32)
    requires
        major < 65536,
        minor < 256,
        patch < 256,
    ensures
        major_of(pack(major, minor, patch)) == major,
        minor_of(pack(major, minor, patch)) == minor,
        patch_of(pack(major, minor, patch)) == patch,
{
    let id = (major << 16) | (minor << 8) | patch;
    assert(id / 65536 == major && (id / 256) % 256 == minor && id % 256 == patch)
        by (bit_vector)
        requires
            major < 65536,
            minor < 256,
            patch < 256,
            id == (major << 16) | (minor << 8) | patch,
    ;
}

/// Of the same major version, the greater minor version has the greater id.
proof fn lemma_minor_orders(a: u32, b: u32)
    requires
        major_of(a) == major_of(b),
        minor_of(a) < minor_of(b),
    ensures
        a < b,
{
    assert(a < b) by (bit_vector)
        requires
            a / 65536 == b / 65536,
            (a / 256) % 256 < (b / 256) % 256,
    ;
}

/// What the ids of builds are.
proof fn lemma_build_ids(major: u32, minor: int, top: int)
    requires
        major < 65536,
        0 <= minor,
        top <= 255,
    ensures
        forall|i: int|
            0 <= i < build_ids(major, minor, top).len() ==> {
                let id = #[trigger] build_ids(major, minor, top)[i];
                &&& major_of(id) == major
                &&& minor <= minor_of(id) <= top
                &&& patch_of(id) == 0 || patch_of(id) == 128
            },
    decreases top + 1 - minor,
{
    if minor <= top {
        lemma_build_ids(major, minor + 1, top);
        lemma_packed_parts(major, minor as u32, 0);
        lemma_packed_parts(major, minor as u32, 128);
        let rest = build_ids(major, minor + 1, top);
        let ids = build_ids(major, minor, top);
        assert forall|i: int| 0 <= i < ids.len() implies {
            let id = #[trigger] ids[i];
            &&& major_of(id) == major
            &&& minor <= minor_of(id) <= top
            &&& patch_of(id) == 0 || patch_of(id) == 128
        } by {
            if i >= 2 {
                assert(ids[i] == rest[i - 2]);
            }
        }
    }
}

/// What is asked for of a feature is one of the versions, unknown, in one of
/// the namespaces.
proof fn lemma_unknown(
    es: Seq<EntryModel>,
    namespaces: Seq<Seq<char>>,
    dir: Seq<char>,
    ids: Seq<u32>,
    p: ProbeModel,
)
    ensures
        unknown_everywhere(es, namespaces, dir, ids).contains(p) <==> p.dir == dir
            && namespaces.contains(p.ns) && ids.contains(p.version_id) && !known_spec(
            es,
            dir,
            p.version_id,
        ),
    decreases ids.len(),
{
    let all = unknown_everywhere(es, namespaces, dir, ids);
    if ids.len() > 0 {
        let front = ids.drop_last();
        let before = unknown_everywhere(es, namespaces, dir, front);
        let more = everywhere(namespaces, dir, ids.last());
        lemma_unknown(es, namespaces, dir, front, p);
        if all.contains(p) {
            let k = choose|k: int| 0 <= k < all.len() && all[k] == p;
            if k < before.len() {
                assert(before[k] == p);
                let j = choose|j: int| 0 <= j < front.len() && front[j] == p.version_id;
                assert(ids[j] == p.version_id);
            } else {
                assert(more[k - before.len()] == p);
                assert(namespaces[k - before.len()] == p.ns);
                assert(ids[ids.len() - 1] == p.version_id);
            }
        }
        if p.dir == dir && namespaces.contains(p.ns) && ids.contains(p.version_id) && !known_spec(
            es,
            dir,
            p.version_id,
        ) {
            let j = choose|j: int| 0 <= j < ids.len() && ids[j] == p.version_id;
            if j < front.len() {
                assert(front[j] == p.version_id);
                let k = choose|k: int| 0 <= k < before.len() && before[k] == p;
                assert(all[k] == p);
            } else {
                let k = choose|k: int| 0 <= k < namespaces.len() && namespaces[k] == p.ns;
                assert(more[k] == p);
                assert(all[before.len() + k] == p);
            }
        }
    }
}

/// What is asked for of all features is what is asked for of one of them.
proof fn lemma_staged_of_all(
    es: Seq<EntryModel>,
    namespaces: Seq<Seq<char>>,
    dirs: Seq<Seq<char>>,
    p: ProbeModel,
)
    requires
        staged_of_all(es, namespaces, dirs).contains(p),
    ensures
        exists|i: int|
            0 <= i < dirs.len() && staged_of(es, namespaces, #[trigger] dirs[i]).contains(p),
    decreases dirs.len(),
{
    let all = staged_of_all(es, namespaces, dirs);
    let k = choose|k: int| 0 <= k < all.len() && all[k] == p;
    let front = dirs.drop_last();
    let before = staged_of_all(es, namespaces, front);
    if k < before.len() {
        assert(before[k] == p);
        lemma_staged_of_all(es, namespaces, front, p);
        let i = choose|i: int|
            0 <= i < front.len() && staged_of(es, namespaces, #[trigger] front[i]).contains(p);
        assert(dirs[i] == front[i]);
    } else {
        assert(staged_of(es, namespaces, dirs.last())[k - before.len()] == p);
        assert(dirs[dirs.len() - 1] == dirs.last());
    }
}

/// Every version that a namespace pins for the universal file of a feature is
/// asked for in that namespace, and nothing else is on account of pins.
pub proof fn law_pinned_versions(ns: Seq<char>, pins: Seq<PinModel>, p: ProbeModel)
    ensures
        pin_probes_spec(ns, pins).contains(p) <==> exists|i: int|
            0 <= i < pins.len() && pin_probe(ns, #[trigger] pins[i]) == Some(p),
    decreases pins.len(),
{
    if pins.len() > 0 {
        let front = pins.drop_last();
        let before = pin_probes_spec(ns, front);
        let all = pin_probes_spec(ns, pins);
        law_pinned_versions(ns, front, p);
        if all.contains(p) {
            let k = choose|k: int| 0 <= k < all.len() && all[k] == p;
            if k < before.len() {
                assert(before[k] == p);
                let i = choose|i: int|
                    0 <= i < front.len() && pin_probe(ns, #[trigger] front[i]) == Some(p);
                assert(pins[i] == front[i]);
            } else {
                assert(pin_probe(ns, pins[pins.len() - 1]) == Some(p));
            }
        }
        if exists|i: int| 0 <= i < pins.len() && pin_probe(ns, #[trigger] pins[i]) == Some(p) {
            let i = choose|i: int|
                0 <= i < pins.len() && pin_probe(ns, #[trigger] pins[i]) == Some(p);
            if i < front.len() {
                assert(front[i] == pins[i]);
                let k = choose|k: int| 0 <= k < before.len() && before[k] == p;
                assert(all[k] == p);
            } else {
                assert(all[all.len() - 1] == p);
            }
        }
    }
}

/// The newest version of a feature is that of one of its entries, and no entry
/// of the feature has a greater one. Where there is none, no entry is of the feature.
pub proof fn law_latest_is_greatest(es: Seq<EntryModel>, dir: Seq<char>)
    ensures
        match latest_spec(es, dir) {
            Some(v) => {
                &&& exists|i: int|
                    0 <= i < es.len() && (#[trigger] es[i]).dir == dir && es[i].version_id == v
                &&& forall|i: int|
                    0 <= i < es.len() && (#[trigger] es[i]).dir == dir ==> es[i].version_id <= v
            },
            None => forall|i: int| 0 <= i < es.len() ==> (#[trigger] es[i]).dir != dir,
        },
    decreases es.len(),
{
    if es.len() > 0 {
        let front = es.drop_last();
        let n = es.len() - 1;
        law_latest_is_greatest(front, dir);
        assert(es[n] == es.last());
        assert forall|i: int| 0 <= i < n implies (#[trigger] es[i]) == front[i] by {}
        let before = latest_spec(front, dir);
        if before is Some && latest_spec(es, dir) == before {
            let v = before->0;
            let i = choose|i: int|
                0 <= i < front.len() && (#[trigger] front[i]).dir == dir && front[i].version_id
                    == v;
            assert(es[i] == front[i]);
        }
    }
}

/// A staged build that is asked for is newer than the newest version of its
/// feature: of the same major version, one to three minor versions on, build 0
/// or 128. Its payload is not among the entries, and it is asked for in one
/// of the namespaces.
pub proof fn law_staged_builds(
    es: Seq<EntryModel>,
    namespaces: Seq<Seq<char>>,
    p: ProbeModel,
)
    requires
        staged_spec(es, namespaces).contains(p),
    ensures
        latest_spec(es, p.dir) is Some,
        ({
            let v = latest_spec(es, p.dir)->0;
            &&& p.version_id > v
            &&& major_of(p.version_id) == major_of(v)
            &&& minor_of(v) < minor_of(p.version_id) <= minor_of(v) + 3
            &&& patch_of(p.version_id) == 0 || patch_of(p.version_id) == 128
        }),
        namespaces.contains(p.ns),
        !known_spec(es, p.dir, p.version_id),
{
    let dirs = features_spec(es);
    lemma_staged_of_all(es, namespaces, dirs, p);
    let i = choose|i: int|
        0 <= i < dirs.len() && staged_of(es, namespaces, #[trigger] dirs[i]).contains(p);
    let dir = dirs[i];
    let v = latest_spec(es, dir)->0;
    let ids = staged_ids_spec(v);
    lemma_unknown(es, namespaces, dir, ids, p);
    lemma_build_ids(major_of(v), minor_of(v) + 1, top_minor(minor_of(v) as int));
    let k = choose|k: int| 0 <= k < ids.len() && ids[k] == p.version_id;
    assert(ids[k] == p.version_id);
    lemma_minor_orders(v, p.version_id);
}

/// What is asked for of one of the features is asked for.
proof fn lemma_staged_of_one(
    es: Seq<EntryModel>,
    namespaces: Seq<Seq<char>>,
    dirs: Seq<Seq<char>>,
    i: int,
    p: ProbeModel,
)
    requires
        0 <= i < dirs.len(),
        staged_of(es, namespaces, dirs[i]).contains(p),
    ensures
        staged_of_all(es, namespaces, dirs).contains(p),
    decreases dirs.len(),
{
    let all = staged_of_all(es, namespaces, dirs);
    let before = staged_of_all(es, namespaces, dirs.drop_last());
    let last = staged_of(es, namespaces, dirs.last());
    if i < dirs.len() - 1 {
        lemma_staged_of_one(es, namespaces, dirs.drop_last(), i, p);
        let k = choose|k: int| 0 <= k < before.len() && before[k] == p;
        assert(all[k] == p);
    } else {
        let k = choose|k: int| 0 <= k < last.len() && last[k] == p;
        assert(all[before.len() + k] == p);
    }
}

/// Of every feature of the entries, every build that may be staged behind its
/// newest version is asked for in every namespace, unless its payload is
/// among the entries.
pub proof fn law_staged_builds_complete(
    es: Seq<EntryModel>,
    namespaces: Seq<Seq<char>>,
    p: ProbeModel,
)
    requires
        dirs_of(es).contains(p.dir),
        latest_spec(es, p.dir) matches Some(v) && staged_ids_spec(v).contains(p.version_id),
        namespaces.contains(p.ns),
        !known_spec(es, p.dir, p.version_id),
    ensures
        staged_spec(es, namespaces).contains(p),
{
    let dirs = features_spec(es);
    lemma_arrange_contains(dirs_of(es), by_rank(), p.dir);
    let i = choose|i: int| 0 <= i < dirs.len() && dirs[i] == p.dir;
    lemma_unknown(es, namespaces, p.dir, staged_ids_spec(latest_spec(es, p.dir)->0), p);
    lemma_staged_of_one(es, namespaces, dirs, i, p);
}

/// An id is packed from its parts.
proof fn lemma_packed_from_parts(id: u32)
    ensures
        pack(major_of(id), minor_of(id), patch_of(id)) == id,
{
    assert(((id / 65536) << 16) | (((id / 256) % 256) << 8) | (id % 256) == id) by (bit_vector);
}

/// The ids of builds are all there.
proof fn lemma_build_ids_complete(major: u32, minor: int, top: int, id: u32)
    requires
        major_of(id) == major,
        minor <= minor_of(id) <= top,
        patch_of(id) == 0 || patch_of(id) == 128,
    ensures
        build_ids(major, minor, top).contains(id),
    decreases top + 1 - minor,
{
    lemma_packed_from_parts(id);
    let ids = build_ids(major, minor, top);
    if minor_of(id) == minor {
        if patch_of(id) == 0 {
            assert(ids[0] == id);
        } else {
            assert(ids[1] == id);
        }
    } else {
        let rest = build_ids(major, minor + 1, top);
        lemma_build_ids_complete(major, minor + 1, top, id);
        let k = choose|k: int| 0 <= k < rest.len() && rest[k] == id;
        assert(ids[k + 2] == id);
    }
}

/// The greatest version that an entry of the feature has.
pub open spec fn greatest_version(es: Seq<EntryModel>, dir: Seq<char>, v: u32) -> bool {
    &&& exists|i: int|
        0 <= i < es.len() && (#[trigger] es[i]).dir == dir && es[i].version_id == v
    &&& forall|i: int|
        0 <= i < es.len() && (#[trigger] es[i]).dir == dir ==> es[i].version_id <= v
}

/// Which staged builds are asked for. Of a feature whose greatest version is
/// `v`: in every namespace the builds 0 and 128 of the next three minor
/// versions of the same major version, unless an entry of that feature and
/// that version, which is no sidecar, is there. An entry of another feature
/// makes no difference.
pub proof fn law_staged_asked(
    es: Seq<EntryModel>,
    namespaces: Seq<Seq<char>>,
    p: ProbeModel,
    v: u32,
)
    requires
        greatest_version(es, p.dir, v),
    ensures
        staged_spec(es, namespaces).contains(p) <==> {
            &&& namespaces.contains(p.ns)
            &&& p.version_id / 65536 == v / 65536
            &&& (v / 256) % 256 < (p.version_id / 256) % 256 <= (v / 256) % 256 + 3
            &&& p.version_id % 256 == 0 || p.version_id % 256 == 128
            &&& forall|i: int|
                0 <= i < es.len() && (#[trigger] es[i]).dir == p.dir && es[i].version_id
                    == p.version_id ==> es[i].is_sidecar
        },
{
    law_latest_is_greatest(es, p.dir);
    let i = choose|i: int|
        0 <= i < es.len() && (#[trigger] es[i]).dir == p.dir && es[i].version_id == v;
    assert(latest_spec(es, p.dir) == Some(v));
    let minor = minor_of(v) as int;
    if staged_spec(es, namespaces).contains(p) {
        law_staged_builds(es, namespaces, p);
        assert forall|i: int|
            0 <= i < es.len() && (#[trigger] es[i]).dir == p.dir && es[i].version_id
                == p.version_id implies es[i].is_sidecar by {
            assert(!known_spec(es, p.dir, p.version_id));
        }
    }
    if namespaces.contains(p.ns) && p.version_id / 65536 == v / 65536 && (v / 256) % 256 < (
    p.version_id / 256) % 256 <= (v / 256) % 256 + 3 && (p.version_id % 256 == 0 || p.version_id
        % 256 == 128) && (forall|i: int|
        0 <= i < es.len() && (#[trigger] es[i]).dir == p.dir && es[i].version_id == p.version_id
            ==> es[i].is_sidecar) {
        lemma_build_ids_complete(major_of(v), minor + 1, top_minor(minor), p.version_id);
        assert(dirs_of(es)[i] == p.dir);
        assert(!known_spec(es, p.dir, p.version_id));
        law_staged_builds_complete(es, namespaces, p);
    }
}

/// Of a feature of which there is no entry, nothing is asked for.
pub proof fn law_no_staged_without_entry(
    es: Seq<EntryModel>,
    namespaces: Seq<Seq<char>>,
    p: ProbeModel,
)
    requires
        forall|i: int| 0 <= i < es.len() ==> (#[trigger] es[i]).dir != p.dir,
    ensures
        !staged_spec(es, namespaces).contains(p),
{
    law_latest_is_greatest(es, p.dir);
    if staged_spec(es, namespaces).contains(p) {
        law_staged_builds(es, namespaces, p);
    }
}

/// Which pinned versions are asked for: those pinned for the app id of the
/// universal file of their feature, where the version is one, in the namespace
/// of the configuration.
pub proof fn law_pins_asked(ns: Seq<char>, pins: Seq<PinModel>, p: ProbeModel)
    ensures
        pin_probes_spec(ns, pins).contains(p) <==> p.ns == ns && exists|i: int|
            0 <= i < pins.len() && (#[trigger] pins[i]).dir == p.dir && pins[i].app_id == (
            if "sl_sdk"@.is_prefix_of(p.dir) {
                "E658703"@
            } else {
                "E658700"@
            }) && pack_semver_spec(pins[i].version) == Some(p.version_id),
{
    law_pinned_versions(ns, pins, p);
    if pin_probes_spec(ns, pins).contains(p) {
        let i = choose|i: int| 0 <= i < pins.len() && pin_probe(ns, #[trigger] pins[i]) == Some(p);
        assert(pins[i].dir == p.dir);
    }
    if p.ns == ns && exists|i: int|
        0 <= i < pins.len() && (#[trigger] pins[i]).dir == p.dir && pins[i].app_id == (
        if "sl_sdk"@.is_prefix_of(p.dir) {
            "E658703"@
        } else {
            "E658700"@
        }) && pack_semver_spec(pins[i].version) == Some(p.version_id) {
        let i = choose|i: int|
            0 <= i < pins.len() && (#[trigger] pins[i]).dir == p.dir && pins[i].app_id == (
            if "sl_sdk"@.is_prefix_of(p.dir) {
                "E658703"@
            } else {
                "E658700"@
            }) && pack_semver_spec(pins[i].version) == Some(p.version_id);
        assert(pin_probe(ns, pins[i]) == Some(p));
    }
}

/// Pins are asked for in the order in which they stand.
pub proof fn law_pins_in_turn(ns: Seq<char>, a: Seq<PinModel>, b: Seq<PinModel>)
    ensures
        pin_probes_spec(ns, a + b) == pin_probes_spec(ns, a) + pin_probes_spec(ns, b),
    decreases b.len(),
{
    if b.len() > 0 {
        law_pins_in_turn(ns, a, b.drop_last());
        assert((a + b).drop_last() =~= a + b.drop_last());
        assert((a + b).last() == b.last());
        assert(pin_probes_spec(ns, a + b) =~= pin_probes_spec(ns, a) + pin_probes_spec(ns, b));
    } else {
        assert(a + b =~= a);
        assert(pin_probes_spec(ns, a + b) =~= pin_probes_spec(ns, a) + pin_probes_spec(ns, b));
    }
}

/// A probe asks for the universal payload of the version in the namespace, and
/// for its sidecar; what it finds are the entries of these two.
pub proof fn law_probe(p: ProbeModel, size: u64)
    ensures
        ({
            let payload = if "sl_sdk"@.is_prefix_of(p.dir) {
                "160_E658703.zip"@
            } else {
                "160_E658700.bin"@
            };
            let found = EntryModel {
                ns: p.ns,
                dir: p.dir,
                version_id: p.version_id,
                payload,
                is_sidecar: false,
                size,
            };
            let sidecar = EntryModel { is_sidecar: true, size: 0, ..found };
            &&& probe_address(p, false) == payload_url_spec(p.ns, p.dir, p.version_id, payload)
            &&& probe_address(p, true) == payload_url_spec(p.ns, p.dir, p.version_id, payload)
                + ".sha256"@
            &&& probe_entries_spec(p, size, false) == seq![found]
            &&& probe_entries_spec(p, size, true) == seq![found, sidecar]
        }),
{
    law_canonical_payload(p.dir);
}

/// An object is there if and only if the answer is 200; its size is the
/// content length, where that is a number, and else zero.
pub proof fn law_head(status: u16, length: Seq<char>, n: u64)
    ensures
        head_size_spec(200, Some(decimal(n as nat))) == Some(n),
        head_size_spec(200, None) == Some(0u64),
        number_spec(length, u64::MAX as nat) is None ==> head_size_spec(200, Some(length)) == Some(
            0u64,
        ),
        status != 200 ==> head_size_spec(status, Some(length)) is None && head_size_spec(
            status,
            None,
        ) is None,
{
    law_read_size(n);
}

/// One staged build is asked for before another: by the rank of its feature,
/// by its version, and by its namespace.
pub open spec fn sooner(namespaces: Seq<Seq<char>>, a: ProbeModel, b: ProbeModel) -> bool {
    ||| rank_lt(a.dir, b.dir)
    ||| a.dir == b.dir && a.version_id < b.version_id
    ||| a.dir == b.dir && a.version_id == b.version_id && exists|x: int, y: int|
        0 <= x < y < namespaces.len() && #[trigger] namespaces[x] == a.ns
            && #[trigger] namespaces[y] == b.ns
}

/// The ids of builds grow.
proof fn lemma_build_ids_grow(major: u32, minor: int, top: int)
    requires
        major < 65536,
        0 <= minor,
        top <= 255,
    ensures
        forall|i: int, j: int|
            0 <= i < j < build_ids(major, minor, top).len() ==> #[trigger] build_ids(
                major,
                minor,
                top,
            )[i] < #[trigger] build_ids(major, minor, top)[j],
    decreases top + 1 - minor,
{
    if minor <= top {
        lemma_build_ids_grow(major, minor + 1, top);
        lemma_build_ids(major, minor + 1, top);
        lemma_packed_parts(major, minor as u32, 0);
        lemma_packed_parts(major, minor as u32, 128);
        let rest = build_ids(major, minor + 1, top);
        let ids = build_ids(major, minor, top);
        assert forall|i: int, j: int| 0 <= i < j < ids.len() implies #[trigger] ids[i]
            < #[trigger] ids[j] by {
            if i >= 2 {
                assert(ids[i] == rest[i - 2] && ids[j] == rest[j - 2]);
            } else if j >= 2 {
                assert(ids[j] == rest[j - 2]);
                lemma_minor_orders(ids[i], ids[j]);
            } else {
                let a = ids[0];
                let b = ids[1];
                assert(a < b) by (bit_vector)
                    requires
                        a / 65536 == b / 65536,
                        (a / 256) % 256 == (b / 256) % 256,
                        a % 256 == 0,
                        b % 256 == 128,
                ;
            }
        }
    }
}

/// The versions of a feature are asked for one after another, each in one
/// namespace after another.
proof fn lemma_unknown_in_order(
    es: Seq<EntryModel>,
    namespaces: Seq<Seq<char>>,
    dir: Seq<char>,
    ids: Seq<u32>,
)
    requires
        forall|i: int, j: int| 0 <= i < j < ids.len() ==> #[trigger] ids[i] < #[trigger] ids[j],
    ensures
        ({
            let ps = unknown_everywhere(es, namespaces, dir, ids);
            &&& forall|i: int|
                0 <= i < ps.len() ==> (#[trigger] ps[i]).dir == dir && ids.contains(
                    ps[i].version_id,
                )
            &&& forall|i: int, j: int|
                0 <= i < j < ps.len() ==> sooner(namespaces, #[trigger] ps[i], #[trigger] ps[j])
        }),
    decreases ids.len(),
{
    if ids.len() > 0 {
        let front = ids.drop_last();
        let id = ids.last();
        lemma_unknown_in_order(es, namespaces, dir, front);
        let before = unknown_everywhere(es, namespaces, dir, front);
        let more = everywhere(namespaces, dir, id);
        let ps = unknown_everywhere(es, namespaces, dir, ids);
        assert forall|i: int| 0 <= i < ps.len() implies (#[trigger] ps[i]).dir == dir
            && ids.contains(ps[i].version_id) by {
            if i < before.len() {
                assert(ps[i] == before[i]);
                let k = choose|k: int| 0 <= k < front.len() && front[k] == ps[i].version_id;
                assert(ids[k] == ps[i].version_id);
            } else {
                assert(ps[i] == more[i - before.len()]);
                assert(ids[ids.len() - 1] == id);
            }
        }
        assert forall|i: int, j: int| 0 <= i < j < ps.len() implies sooner(
            namespaces,
            #[trigger] ps[i],
            #[trigger] ps[j],
        ) by {
            if j < before.len() {
                assert(ps[i] == before[i] && ps[j] == before[j]);
            } else if i < before.len() {
                assert(ps[i] == before[i] && ps[j] == more[j - before.len()]);
                let k = choose|k: int| 0 <= k < front.len() && front[k] == ps[i].version_id;
                assert(ids[k] < ids[ids.len() - 1]);
            } else {
                let x = i - before.len();
                let y = j - before.len();
                assert(ps[i] == more[x] && ps[j] == more[y]);
                assert(namespaces[x] == ps[i].ns && namespaces[y] == ps[j].ns);
            }
        }
    }
}

/// The features are asked for one after another.
proof fn lemma_staged_in_order(
    es: Seq<EntryModel>,
    namespaces: Seq<Seq<char>>,
    dirs: Seq<Seq<char>>,
)
    requires
        forall|i: int, j: int|
            0 <= i < j < dirs.len() ==> rank_lt(#[trigger] dirs[i], #[trigger] dirs[j]),
    ensures
        ({
            let ps = staged_of_all(es, namespaces, dirs);
            &&& forall|i: int| 0 <= i < ps.len() ==> dirs.contains((#[trigger] ps[i]).dir)
            &&& forall|i: int, j: int|
                0 <= i < j < ps.len() ==> sooner(namespaces, #[trigger] ps[i], #[trigger] ps[j])
        }),
    decreases dirs.len(),
{
    if dirs.len() > 0 {
        let front = dirs.drop_last();
        let dir = dirs.last();
        lemma_staged_in_order(es, namespaces, front);
        let before = staged_of_all(es, namespaces, front);
        let more = staged_of(es, namespaces, dir);
        let ps = staged_of_all(es, namespaces, dirs);
        if let Some(v) = latest_spec(es, dir) {
            let minor = minor_of(v) as int;
            lemma_build_ids_grow(major_of(v), minor + 1, top_minor(minor));
            lemma_unknown_in_order(es, namespaces, dir, staged_ids_spec(v));
        }
        assert forall|i: int| 0 <= i < ps.len() implies dirs.contains((#[trigger] ps[i]).dir) by {
            if i < before.len() {
                assert(ps[i] == before[i]);
                let k = choose|k: int| 0 <= k < front.len() && front[k] == ps[i].dir;
                assert(dirs[k] == ps[i].dir);
            } else {
                assert(ps[i] == more[i - before.len()]);
                assert(dirs[dirs.len() - 1] == dir);
            }
        }
        assert forall|i: int, j: int| 0 <= i < j < ps.len() implies sooner(
            namespaces,
            #[trigger] ps[i],
            #[trigger] ps[j],
        ) by {
            if j < before.len() {
                assert(ps[i] == before[i] && ps[j] == before[j]);
            } else if i < before.len() {
                assert(ps[i] == before[i] && ps[j] == more[j - before.len()]);
                let k = choose|k: int| 0 <= k < front.len() && front[k] == ps[i].dir;
                assert(rank_lt(dirs[k], dirs[dirs.len() - 1]));
            } else {
                assert(ps[i] == more[i - before.len()] && ps[j] == more[j - before.len()]);
            }
        }
    }
}

/// Staged builds are asked for in order: one feature after another by rank,
/// of a feature the lower version first, and of a version in the order of the
/// namespaces. So where no namespace occurs twice, nothing is asked for twice.
pub proof fn law_staged_in_order(es: Seq<EntryModel>, namespaces: Seq<Seq<char>>)
    ensures
        forall|i: int, j: int|
            0 <= i < j < staged_spec(es, namespaces).len() ==> sooner(
                namespaces,
                #[trigger] staged_spec(es, namespaces)[i],
                #[trigger] staged_spec(es, namespaces)[j],
            ),
{
    let dirs = features_spec(es);
    let lt = by_rank();
    lemma_by_rank_strict();
    lemma_arrange_ordered(dirs_of(es), lt);
    assert forall|i: int, j: int| 0 <= i < j < dirs.len() implies rank_lt(
        #[trigger] dirs[i],
        #[trigger] dirs[j],
    ) by {
        assert(lt(dirs[i], dirs[j]));
    }
    lemma_staged_in_order(es, namespaces, dirs);
}

} // verus!
