//! Server features.

use crate::order::{lemma_text_lt_irreflexive, lemma_text_lt_total, lemma_text_lt_transitive};
use crate::order::{text_before, text_lt};
use crate::text::{chars_of, contains_text, copy_text, find, same_text, starts_with};
use vstd::prelude::*;

verus! {

/// A directory of the Streamline family (`sl_sdk*`).
pub open spec fn streamline_dir(dir: Seq<char>) -> bool {
    "sl_sdk"@.is_prefix_of(dir)
}

/// A directory that holds a supported feature: the DLSS family (`dlss*`,
/// without the `override` bundles) and Streamline (`sl_sdk*`).
pub open spec fn supported_dir(dir: Seq<char>) -> bool {
    ||| streamline_dir(dir)
    ||| "dlss"@.is_prefix_of(dir) && !contains_text(dir, "override"@)
}

/// The human readable title of a feature directory.
pub open spec fn title_of(dir: Seq<char>) -> Seq<char> {
    if dir == "dlss"@ {
        "DLSS Super Resolution"@
    } else if dir == "dlssd"@ {
        "DLSS Ray Reconstruction"@
    } else if dir == "dlssg"@ {
        "DLSS Frame Generation"@
    } else if dir == "sl_sdk_0"@ {
        "Streamline SDK"@
    } else {
        dir
    }
}

/// The consumer file name of a feature directory, where the payload itself is the DLL.
pub open spec fn consumer_name_of(dir: Seq<char>) -> Option<Seq<char>> {
    if streamline_dir(dir) {
        None
    } else {
        Some("nvngx_"@ + dir + ".dll"@)
    }
}

/// The app id of the universal file of a feature directory.
pub open spec fn canonical_app_of(dir: Seq<char>) -> Seq<char> {
    if streamline_dir(dir) {
        "E658703"@
    } else {
        "E658700"@
    }
}

/// The payload file extension of a feature directory.
pub open spec fn payload_ext_of(dir: Seq<char>) -> Seq<char> {
    if streamline_dir(dir) {
        "zip"@
    } else {
        "bin"@
    }
}

/// The universal payload file of a feature directory.
pub open spec fn canonical_payload_of(dir: Seq<char>) -> Seq<char> {
    "160_"@ + canonical_app_of(dir) + "."@ + payload_ext_of(dir)
}

/// The place of a well-known feature directory, and 4 for any other.
pub open spec fn rank_no(dir: Seq<char>) -> u8 {
    if dir == "dlss"@ {
        0
    } else if dir == "dlssd"@ {
        1
    } else if dir == "dlssg"@ {
        2
    } else if dir == "sl_sdk_0"@ {
        3
    } else {
        4
    }
}

/// What orders the feature directories that are not well known.
pub open spec fn rank_tail(dir: Seq<char>) -> Seq<char> {
    if rank_no(dir) < 4 {
        seq![]
    } else {
        dir
    }
}

/// Feature directory `a` is listed before `b`: the well-known ones first, in
/// their order, then the others by name.
pub open spec fn rank_lt(a: Seq<char>, b: Seq<char>) -> bool {
    rank_no(a) < rank_no(b) || (rank_no(a) == rank_no(b) && text_lt(rank_tail(a), rank_tail(b)))
}

/// No directory is listed before itself.
pub proof fn lemma_rank_irreflexive(a: Seq<char>)
    ensures
        !rank_lt(a, a),
{
    lemma_text_lt_irreflexive(rank_tail(a));
}

/// The listing order is transitive.
pub proof fn lemma_rank_transitive(a: Seq<char>, b: Seq<char>, c: Seq<char>)
    requires
        rank_lt(a, b),
        rank_lt(b, c),
    ensures
        rank_lt(a, c),
{
    if rank_no(a) == rank_no(b) && rank_no(b) == rank_no(c) {
        lemma_text_lt_transitive(rank_tail(a), rank_tail(b), rank_tail(c));
    }
}

/// Of two different directories one is listed before the other.
pub proof fn lemma_rank_total(a: Seq<char>, b: Seq<char>)
    ensures
        a == b || rank_lt(a, b) || rank_lt(b, a),
{
    if rank_no(a) == rank_no(b) && rank_no(a) == 4 {
        lemma_text_lt_total(a, b);
    }
}

/// A server feature, identified by its directory under `.../ngx/models/`.
///
/// Deliberately dynamic: any NVIDIA `dlss*` feature that shows up on the OTA
/// servers in the future (e.g. `dlssnr` for Neural Rendering) is picked up
/// automatically: the consumer file name follows the existing
/// `nvngx_<dir>.dll` convention.
#[derive(PartialEq, Eq, PartialOrd, Ord, Hash, Debug)]
pub struct Feature {
    dir: String,
}

impl View for Feature {
    type V = Seq<char>;

    closed spec fn view(&self) -> Seq<char> {
        self.dir@
    }
}

impl Clone for Feature {
    fn clone(&self) -> (r: Feature)
        ensures
            r@ == self@,
    {
        proof {
            use_type_invariant(self);
        }
        Feature { dir: copy_text(self.dir.as_str()) }
    }
}

impl Feature {
    /// Every feature has a supported directory.
    #[verifier::type_invariant]
    closed spec fn well_formed(self) -> bool {
        supported_dir(self.dir@)
    }

    /// Validate a server feature dir. Supported: the DLSS family (`dlss*`,
    /// excluding the `dlss_override` zip bundles) and Streamline (`sl_sdk*`).
    pub fn from_dir(dir: &str) -> (r: Option<Feature>)
        ensures
            match r {
                Some(f) => supported_dir(dir@) && f@ == dir@,
                None => !supported_dir(dir@),
            },
    {
        let d = chars_of(dir);
        let sl = chars_of("sl_sdk");
        let dlss = chars_of("dlss");
        let over = chars_of("override");
        let ok = starts_with(d.as_slice(), sl.as_slice()) || (starts_with(
            d.as_slice(),
            dlss.as_slice(),
        ) && find(d.as_slice(), over.as_slice()).is_none());
        if ok {
            Some(Feature { dir: copy_text(dir) })
        } else {
            None
        }
    }

    /// Directory on the NGX server.
    pub fn dir(&self) -> (r: &str)
        ensures
            r@ == self@,
            supported_dir(r@),
    {
        proof {
            use_type_invariant(self);
        }
        self.dir.as_str()
    }

    /// Whether this is the Streamline SDK.
    pub fn is_streamline(&self) -> (r: bool)
        ensures
            r == streamline_dir(self@),
    {
        let d = chars_of(self.dir.as_str());
        let sl = chars_of("sl_sdk");
        starts_with(d.as_slice(), sl.as_slice())
    }

    /// Human readable title (used in the GUI).
    pub fn title(&self) -> (r: String)
        ensures
            r@ == title_of(self@),
    {
        let d = self.dir.as_str();
        if same_text(d, "dlss") {
            copy_text("DLSS Super Resolution")
        } else if same_text(d, "dlssd") {
            copy_text("DLSS Ray Reconstruction")
        } else if same_text(d, "dlssg") {
            copy_text("DLSS Frame Generation")
        } else if same_text(d, "sl_sdk_0") {
            copy_text("Streamline SDK")
        } else {
            copy_text(d)
        }
    }

    /// Name the payload must get on the consumer side (`None` for zips that
    /// already contain properly named DLLs).
    pub fn consumer_name(&self) -> (r: Option<String>)
        ensures
            match r {
                Some(name) => consumer_name_of(self@) == Some(name@),
                None => consumer_name_of(self@) is None,
            },
    {
        if self.is_streamline() {
            None
        } else {
            let mut name = copy_text("nvngx_");
            name.append(self.dir.as_str());
            name.append(".dll");
            Some(name)
        }
    }

    /// The NGX app id NVIDIA currently ships one universal file for.
    pub fn canonical_app_id(&self) -> (r: &'static str)
        ensures
            r@ == canonical_app_of(self@),
    {
        if self.is_streamline() {
            "E658703"
        } else {
            "E658700"
        }
    }

    /// The extension of the payload file.
    pub fn payload_ext(&self) -> (r: &'static str)
        ensures
            r@ == payload_ext_of(self@),
    {
        if self.is_streamline() {
            "zip"
        } else {
            "bin"
        }
    }

    /// The universal payload file.
    pub fn canonical_payload(&self) -> (r: String)
        ensures
            r@ == canonical_payload_of(self@),
    {
        let mut name = copy_text("160_");
        name.append(self.canonical_app_id());
        name.append(".");
        name.append(self.payload_ext());
        name
    }

    /// Sort order in the UI: the well-known features first, then new ones.
    pub fn rank(&self) -> (r: (u8, String))
        ensures
            r.0 == rank_no(self@),
            r.1@ == rank_tail(self@),
    {
        let d = self.dir.as_str();
        if same_text(d, "dlss") {
            (0, String::new())
        } else if same_text(d, "dlssd") {
            (1, String::new())
        } else if same_text(d, "dlssg") {
            (2, String::new())
        } else if same_text(d, "sl_sdk_0") {
            (3, String::new())
        } else {
            (4, copy_text(d))
        }
    }

    /// Whether this feature is listed before `other`.
    pub fn ranks_before(&self, other: &Feature) -> (r: bool)
        ensures
            r == rank_lt(self@, other@),
    {
        let a = self.rank();
        let b = other.rank();
        a.0 < b.0 || (a.0 == b.0 && text_before(a.1.as_str(), b.1.as_str()))
    }

    /// Whether the two features have the same directory.
    pub fn same(&self, other: &Feature) -> (r: bool)
        ensures
            r == (self@ == other@),
    {
        same_text(self.dir.as_str(), other.dir.as_str())
    }
}

// ---------------------------------------------------------------------------
// Laws
// ---------------------------------------------------------------------------


/// The universal payload of a feature.
pub proof fn law_canonical_payload(dir: Seq<char>)
    ensures
        "sl_sdk"@.is_prefix_of(dir) ==> canonical_payload_of(dir) == "160_E658703.zip"@,
        !"sl_sdk"@.is_prefix_of(dir) ==> canonical_payload_of(dir) == "160_E658700.bin"@,
{
    reveal_strlit("160_E658703.zip");
    reveal_strlit("160_E658700.bin");
    reveal_strlit("160_");
    reveal_strlit("E658703");
    reveal_strlit("E658700");
    reveal_strlit(".");
    reveal_strlit("zip");
    reveal_strlit("bin");
    assert("160_E658703.zip"@ =~= "160_"@ + "E658703"@ + "."@ + "zip"@);
    assert("160_E658700.bin"@ =~= "160_"@ + "E658700"@ + "."@ + "bin"@);
}

/// Every directory of the Streamline family is supported, and every one of the
/// DLSS family in whose name `override` does not stand; no other is.
pub proof fn law_supported(tail: Seq<char>, dir: Seq<char>)
    ensures
        supported_dir("sl_sdk"@ + tail),
        streamline_dir("sl_sdk"@ + tail),
        !contains_text("dlss"@ + tail, "override"@) ==> supported_dir("dlss"@ + tail)
            && !streamline_dir("dlss"@ + tail),
        contains_text("dlss"@ + tail, "override"@) ==> !supported_dir("dlss"@ + tail),
        !"sl_sdk"@.is_prefix_of(dir) && !"dlss"@.is_prefix_of(dir) ==> !supported_dir(dir),
{
    reveal_strlit("sl_sdk");
    reveal_strlit("dlss");
    let s = "sl_sdk"@ + tail;
    let d = "dlss"@ + tail;
    assert(s.take(6) =~= "sl_sdk"@);
    assert(d.take(4) =~= "dlss"@);
    assert("sl_sdk"@.is_prefix_of(s));
    assert("dlss"@.is_prefix_of(d));
    if "sl_sdk"@.is_prefix_of(d) {
        assert(d.take(6)[0] == 'd');
        assert("sl_sdk"@[0] == 's');
    }
}

/// The consumer name of a DLSS payload is made of its directory; an archive of
/// the Streamline family has none.
pub proof fn law_consumer_names(dir: Seq<char>)
    ensures
        "sl_sdk"@.is_prefix_of(dir) <==> consumer_name_of(dir) is None,
        !"sl_sdk"@.is_prefix_of(dir) ==> consumer_name_of(dir) == Some("nvngx_"@ + dir + ".dll"@),
{
}

/// The well-known features have titles; any other is called by its directory.
pub proof fn law_titles(dir: Seq<char>)
    ensures
        title_of("dlss"@) == "DLSS Super Resolution"@,
        title_of("dlssd"@) == "DLSS Ray Reconstruction"@,
        title_of("dlssg"@) == "DLSS Frame Generation"@,
        title_of("sl_sdk_0"@) == "Streamline SDK"@,
        dir != "dlss"@ && dir != "dlssd"@ && dir != "dlssg"@ && dir != "sl_sdk_0"@ ==> title_of(dir)
            == dir,
{
    lemma_well_known();
}

/// The directories of the well-known features are different.
proof fn lemma_well_known()
    ensures
        "dlss"@ != "dlssd"@,
        "dlss"@ != "dlssg"@,
        "dlss"@ != "sl_sdk_0"@,
        "dlssd"@ != "dlssg"@,
        "dlssd"@ != "sl_sdk_0"@,
        "dlssg"@ != "sl_sdk_0"@,
{
    reveal_strlit("dlss");
    reveal_strlit("dlssd");
    reveal_strlit("dlssg");
    reveal_strlit("sl_sdk_0");
    assert("dlss"@.len() == 4 && "dlssd"@.len() == 5 && "dlssg"@.len() == 5 && "sl_sdk_0"@.len()
        == 8);
    assert("dlssd"@[4] != "dlssg"@[4]);
}

/// The features are listed with the well-known ones first, in their order, and
/// behind them the others by name.
pub proof fn law_rank(a: Seq<char>, b: Seq<char>)
    ensures
        a != "dlss"@ ==> rank_lt("dlss"@, a),
        a != "dlss"@ && a != "dlssd"@ ==> rank_lt("dlssd"@, a),
        a != "dlss"@ && a != "dlssd"@ && a != "dlssg"@ ==> rank_lt("dlssg"@, a),
        a != "dlss"@ && a != "dlssd"@ && a != "dlssg"@ && a != "sl_sdk_0"@ ==> rank_lt(
            "sl_sdk_0"@,
            a,
        ),
        ({
            let other = |d: Seq<char>|
                d != "dlss"@ && d != "dlssd"@ && d != "dlssg"@ && d != "sl_sdk_0"@;
            other(a) && other(b) ==> rank_lt(a, b) == text_lt(a, b)
        }),
        rank_lt(a, b) ==> !rank_lt(b, a),
{
    lemma_well_known();
    if rank_lt(a, b) && rank_lt(b, a) {
        lemma_rank_transitive(a, b, a);
        lemma_rank_irreflexive(a);
    }
}

/// The app id and the extension of the universal file of a feature, and its
/// place in the listing: the four known ones first, and the others behind them
/// by name.
pub proof fn law_app_and_place(dir: Seq<char>)
    ensures
        "sl_sdk"@.is_prefix_of(dir) ==> canonical_app_of(dir) == "E658703"@ && payload_ext_of(dir)
            == "zip"@,
        !"sl_sdk"@.is_prefix_of(dir) ==> canonical_app_of(dir) == "E658700"@ && payload_ext_of(dir)
            == "bin"@,
        rank_no("dlss"@) == 0 && rank_no("dlssd"@) == 1 && rank_no("dlssg"@) == 2,
        rank_no("sl_sdk_0"@) == 3,
        rank_tail("dlss"@).len() == 0 && rank_tail("dlssd"@).len() == 0,
        rank_tail("dlssg"@).len() == 0 && rank_tail("sl_sdk_0"@).len() == 0,
        dir != "dlss"@ && dir != "dlssd"@ && dir != "dlssg"@ && dir != "sl_sdk_0"@ ==> rank_no(dir)
            == 4 && rank_tail(dir) == dir,
{
    reveal_strlit("dlss");
    reveal_strlit("dlssd");
    reveal_strlit("dlssg");
    reveal_strlit("sl_sdk_0");
    assert("dlss"@.len() == 4 && "dlssd"@.len() == 5 && "dlssg"@.len() == 5);
    assert("sl_sdk_0"@.len() == 8);
    assert("dlssd"@[4] == 'd' && "dlssg"@[4] == 'g');
}

} // verus!
