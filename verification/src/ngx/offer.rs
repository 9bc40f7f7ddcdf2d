//! Model of what the server offers.

use crate::ngx::feature::Feature;
use crate::ngx::payload::{canonical_app_payload, same_name, split_payload};
use crate::ngx::payload::{law_split_payload, split_payload_spec, standard_prefix};
use crate::text::{chars_of, copy_text, join, join_spec, lower_spec, to_upper, upper_spec, views};
use vstd::prelude::*;

verus! {

/// What a mirror is.
pub struct CandidateModel {
    pub url: Seq<char>,
    pub sha256_url: Option<Seq<char>>,
}

/// What an offer is.
pub struct OfferModel {
    pub dir: Seq<char>,
    pub version_id: u32,
    pub version: Seq<char>,
    pub payload: Seq<char>,
    pub size: u64,
    pub candidates: Seq<CandidateModel>,
}

/// What a group of offers is.
pub struct GroupModel {
    pub dir: Seq<char>,
    pub offers: Seq<OfferModel>,
}

/// The text in an option.
pub open spec fn text_in(o: Option<String>) -> Option<Seq<char>> {
    match o {
        Some(s) => Some(s@),
        None => None,
    }
}

/// A mirror of a payload.
#[derive(Debug)]
pub struct Candidate {
    pub url: String,
    pub sha256_url: Option<String>,
}

/// A version of a feature that can be downloaded.
#[derive(Debug)]
pub struct Offer {
    pub feature: Feature,
    pub version_id: u32,
    /// Decoded human version, e.g. "310.7.128".
    pub version: String,
    /// Exact payload file name, e.g. "160_E658700.bin" or "1B0_E658703.zip".
    pub payload: String,
    /// Payload size in bytes.
    pub size: u64,
    /// Mirrors (different bucket namespaces), tried in order. Candidates with a
    /// sha256 sidecar come first.
    pub candidates: Vec<Candidate>,
}

/// The offers of a feature.
#[derive(Debug)]
pub struct Group {
    pub feature: Feature,
    /// Sorted by version id, newest first.
    pub offers: Vec<Offer>,
}

/// What a list of mirrors is.
pub open spec fn candidate_models(v: Seq<Candidate>) -> Seq<CandidateModel> {
    v.map_values(|c: Candidate| c@)
}

/// What a list of offers is.
pub open spec fn offer_models(v: Seq<Offer>) -> Seq<OfferModel> {
    v.map_values(|o: Offer| o@)
}

/// What a list of groups is.
pub open spec fn group_models(v: Seq<Group>) -> Seq<GroupModel> {
    v.map_values(|g: Group| g@)
}

impl View for Candidate {
    type V = CandidateModel;

    open spec fn view(&self) -> CandidateModel {
        CandidateModel { url: self.url@, sha256_url: text_in(self.sha256_url) }
    }
}

impl View for Offer {
    type V = OfferModel;

    open spec fn view(&self) -> OfferModel {
        OfferModel {
            dir: self.feature@,
            version_id: self.version_id,
            version: self.version@,
            payload: self.payload@,
            size: self.size,
            candidates: candidate_models(self.candidates@),
        }
    }
}

impl View for Group {
    type V = GroupModel;

    open spec fn view(&self) -> GroupModel {
        GroupModel { dir: self.feature@, offers: offer_models(self.offers@) }
    }
}

impl Clone for Candidate {
    fn clone(&self) -> (r: Candidate)
        ensures
            r@ == self@,
    {
        let sha256_url = match &self.sha256_url {
            Some(url) => Some(copy_text(url.as_str())),
            None => None,
        };
        Candidate { url: copy_text(self.url.as_str()), sha256_url }
    }
}

impl Clone for Offer {
    fn clone(&self) -> (r: Offer)
        ensures
            r@ == self@,
    {
        let mut candidates: Vec<Candidate> = Vec::new();
        let mut i: usize = 0;
        while i < self.candidates.len()
            invariant
                i <= self.candidates@.len(),
                candidates@.len() == i,
                forall|j: int| 0 <= j < i ==> (#[trigger] candidates@[j])@ == self.candidates@[j]@,
            decreases self.candidates@.len() - i,
        {
            candidates.push(self.candidates[i].clone());
            i = i + 1;
        }
        assert(candidate_models(candidates@) =~= candidate_models(self.candidates@));
        Offer {
            feature: self.feature.clone(),
            version_id: self.version_id,
            version: copy_text(self.version.as_str()),
            payload: copy_text(self.payload.as_str()),
            size: self.size,
            candidates,
        }
    }
}

impl Clone for Group {
    fn clone(&self) -> (r: Group)
        ensures
            r@ == self@,
    {
        let mut offers: Vec<Offer> = Vec::new();
        let mut i: usize = 0;
        while i < self.offers.len()
            invariant
                i <= self.offers@.len(),
                offers@.len() == i,
                forall|j: int| 0 <= j < i ==> (#[trigger] offers@[j])@ == self.offers@[j]@,
            decreases self.offers@.len() - i,
        {
            offers.push(self.offers[i].clone());
            i = i + 1;
        }
        assert(offer_models(offers@) =~= offer_models(self.offers@));
        Group { feature: self.feature.clone(), offers }
    }
}

/// What is out of the ordinary about a payload: a prefix other than the
/// standard one, and an app id other than the universal one.
pub open spec fn payload_tags(payload: Seq<char>, dir: Seq<char>) -> Seq<Seq<char>> {
    let (prefix, app) = split_payload_spec(payload);
    let a = if standard_prefix(payload) {
        seq![]
    } else {
        seq![upper_spec(prefix)]
    };
    let b = if canonical_app_payload(payload, dir) {
        seq![]
    } else {
        seq!["app_"@ + upper_spec(app)]
    };
    a + b
}

/// The tag of a payload: empty for an ordinary one.
pub open spec fn tag_spec(payload: Seq<char>, dir: Seq<char>) -> Seq<char> {
    let tags = payload_tags(payload, dir);
    if tags.len() == 0 {
        seq![]
    } else {
        " ["@ + join_spec(tags, "/"@) + "]"@
    }
}

impl Offer {
    /// Tag for non-standard payloads, e.g. " [1B0]" (new arch prefix) or
    /// " [app_865EFBC]" (legacy per-game DLSS 2.x snippet).
    pub fn tag(&self) -> (r: String)
        ensures
            r@ == tag_spec(self.payload@, self.feature@),
    {
        let (prefix, app) = split_payload(self.payload.as_str());
        let mut tags: Vec<String> = Vec::new();
        if !same_name(prefix.as_str(), "160") {
            let cs = chars_of(prefix.as_str());
            tags.push(to_upper(cs.as_slice()));
        }
        if !same_name(app.as_str(), self.feature.canonical_app_id()) {
            let cs = chars_of(app.as_str());
            let mut tag = copy_text("app_");
            tag.append(to_upper(cs.as_slice()).as_str());
            tags.push(tag);
        }
        assert(views(tags@) =~= payload_tags(self.payload@, self.feature@));
        if tags.len() == 0 {
            String::new()
        } else {
            let mut out = copy_text(" [");
            out.append(join(&tags, "/").as_str());
            out.append("]");
            out
        }
    }
}

// ---------------------------------------------------------------------------
// Laws
// ---------------------------------------------------------------------------


/// The tag of a payload names its prefix where that is not `160`, and its app id
/// where that is not the one of the universal file, both in capital letters.
pub proof fn law_tag(a: Seq<char>, b: Seq<char>, dir: Seq<char>)
    requires
        !a.contains('_'),
    ensures
        ({
            let app = if "sl_sdk"@.is_prefix_of(dir) {
                "E658703"@
            } else {
                "E658700"@
            };
            let plain = lower_spec(a) == lower_spec("160"@);
            let universal = lower_spec(b) == lower_spec(app);
            let tag = tag_spec(a + seq!['_'] + b + ".bin"@, dir);
            &&& plain && universal ==> tag.len() == 0
            &&& !plain && universal ==> tag == " ["@ + upper_spec(a) + "]"@
            &&& plain && !universal ==> tag == " ["@ + ("app_"@ + upper_spec(b)) + "]"@
            &&& !plain && !universal ==> tag == " ["@ + (upper_spec(a) + "/"@ + ("app_"@
                + upper_spec(b))) + "]"@
            &&& tag_spec(a + seq!['_'] + b + ".zip"@, dir) == tag
        }),
{
    law_split_payload(a, b);
    let p = a + seq!['_'] + b + ".bin"@;
    let q = a + seq!['_'] + b + ".zip"@;
    let tags = payload_tags(p, dir);
    assert(tags == payload_tags(q, dir));
    let first = upper_spec(a);
    let second = "app_"@ + upper_spec(b);
    if tags.len() == 2 {
        assert(tags =~= seq![first, second]);
        assert(tags.drop_last() =~= seq![first]);
        assert(join_spec(seq![first], "/"@) == first);
    }
}

/// The tag of any payload, by the two parts of its name.
pub proof fn law_tag_of_parts(payload: Seq<char>, dir: Seq<char>)
    ensures
        ({
            let (a, b) = split_payload_spec(payload);
            let app = if "sl_sdk"@.is_prefix_of(dir) {
                "E658703"@
            } else {
                "E658700"@
            };
            let plain = lower_spec(a) == lower_spec("160"@);
            let universal = lower_spec(b) == lower_spec(app);
            let tag = tag_spec(payload, dir);
            &&& plain && universal ==> tag.len() == 0
            &&& !plain && universal ==> tag == " ["@ + upper_spec(a) + "]"@
            &&& plain && !universal ==> tag == " ["@ + ("app_"@ + upper_spec(b)) + "]"@
            &&& !plain && !universal ==> tag == " ["@ + (upper_spec(a) + "/"@ + ("app_"@
                + upper_spec(b))) + "]"@
        }),
{
    let (a, b) = split_payload_spec(payload);
    let tags = payload_tags(payload, dir);
    let first = upper_spec(a);
    let second = "app_"@ + upper_spec(b);
    if tags.len() == 2 {
        assert(tags =~= seq![first, second]);
        assert(tags.drop_last() =~= seq![first]);
        assert(join_spec(seq![first], "/"@) == first);
    }
}

} // verus!
