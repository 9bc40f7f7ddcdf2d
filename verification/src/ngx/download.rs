//! Downloading an offer: from which mirror, and whether what came is what was offered.
//!
//! A download is a sequence of actions. `Download` says which action comes
//! next, and takes what came of it. The caller performs the actions: it
//! receives the payload into a part file, fetches the sidecar, and installs
//! what was received.

use crate::ngx::archive::{archive_line, archive_line_spec};
use crate::ngx::digest::{check_digest, digest_check, parse_sidecar, sha256, sha256_hex};
use crate::ngx::digest::sidecar_digest;
use crate::ngx::error::{DownloadError, DownloadErrorModel};
use crate::ngx::feature::consumer_name_of;
use crate::ngx::offer::{candidate_models, Offer, OfferModel};
use crate::number::hex_text;
use crate::text::{copy_text, join_spec, views};
use vstd::prelude::*;

verus! {

/// What came of something: what it gave, or what went wrong.
pub open spec fn names_model(r: Result<Vec<String>, DownloadError>) -> Result<
    Seq<Seq<char>>,
    DownloadErrorModel,
> {
    match r {
        Ok(names) => Ok(views(names@)),
        Err(e) => Err(e@),
    }
}

// ---------------------------------------------------------------------------
// Whether what came is what was offered
// ---------------------------------------------------------------------------

/// What is wrong with `done` received bytes of a payload that has no sidecar:
/// nothing, unless a size is known and it is another.
pub open spec fn size_check(size: u64, done: u64) -> Option<DownloadErrorModel> {
    if size > 0 && done != size {
        Some(DownloadErrorModel::Truncated(done, size))
    } else {
        None
    }
}

/// What is wrong with what was received: nothing, if the sidecar could be
/// had, gives a digest, and the digest is that of what was received.
pub open spec fn sidecar_check(
    body: Result<Seq<char>, DownloadErrorModel>,
    part: Result<Seq<u8>, Seq<char>>,
) -> Option<DownloadErrorModel> {
    match body {
        Ok(text) => match sidecar_digest(text) {
            Some(expect) => match part {
                Ok(data) => digest_check(expect, hex_text(sha256(data))),
                Err(e) => Some(DownloadErrorModel::Other(e)),
            },
            None => Some(DownloadErrorModel::SidecarFormat),
        },
        Err(e) => Some(e),
    }
}

/// Checks what was received against its sidecar.
pub fn check_part(body: Result<String, DownloadError>, part: Result<Vec<u8>, String>) -> (r: Result<
    (),
    DownloadError,
>)
    ensures
        ({
            let b = match body {
                Ok(text) => Ok(text@),
                Err(e) => Err(e@),
            };
            let p = match part {
                Ok(data) => Ok(data@),
                Err(e) => Err(e@),
            };
            match r {
                Ok(_) => sidecar_check(b, p) is None,
                Err(e) => sidecar_check(b, p) == Some(e@),
            }
        }),
{
    match body {
        Ok(text) => match parse_sidecar(text.as_str()) {
            Ok(expect) => match part {
                Ok(data) => {
                    let actual = sha256_hex(data.as_slice());
                    check_digest(expect.as_str(), actual.as_str())
                },
                Err(e) => Err(DownloadError::Other(e)),
            },
            Err(e) => Err(e),
        },
        Err(e) => Err(e),
    }
}

// ---------------------------------------------------------------------------
// States
// ---------------------------------------------------------------------------

/// How far a download is.
pub enum StageModel {
    /// The payload is to be received from the mirror.
    Payload,
    /// The sidecar of the mirror is to be fetched.
    Sidecar,
    /// What was received is to be installed.
    Install,
    /// The download is over.
    Done(Result<Seq<Seq<char>>, DownloadErrorModel>),
}

/// The state of a download.
pub struct DownloadModel {
    pub offer: OfferModel,
    /// The mirror that is tried.
    pub at: int,
    pub stage: StageModel,
    /// The report so far.
    pub log: Seq<Seq<char>>,
}

/// A state that a download can be in.
pub open spec fn download_wf(m: DownloadModel) -> bool {
    match m.stage {
        StageModel::Done(r) => true,
        StageModel::Sidecar => 0 <= m.at < m.offer.candidates.len()
            && m.offer.candidates[m.at].sha256_url is Some,
        _ => 0 <= m.at < m.offer.candidates.len(),
    }
}

/// How far a download is.
#[derive(Debug)]
enum Stage {
    Payload,
    Sidecar,
    Install,
    Done(Result<Vec<String>, DownloadError>),
}

impl View for Stage {
    type V = StageModel;

    closed spec fn view(&self) -> StageModel {
        match self {
            Stage::Payload => StageModel::Payload,
            Stage::Sidecar => StageModel::Sidecar,
            Stage::Install => StageModel::Install,
            Stage::Done(r) => StageModel::Done(names_model(*r)),
        }
    }
}

/// A download of an offer.
#[derive(Debug)]
pub struct Download {
    offer: Offer,
    at: usize,
    stage: Stage,
    log: Vec<String>,
}

impl View for Download {
    type V = DownloadModel;

    closed spec fn view(&self) -> DownloadModel {
        DownloadModel {
            offer: self.offer@,
            at: self.at as int,
            stage: self.stage@,
            log: views(self.log@),
        }
    }
}

// ---------------------------------------------------------------------------
// Actions
// ---------------------------------------------------------------------------

/// What is to be done next.
pub enum ActionModel {
    Receive(Seq<char>),
    FetchSidecar(Seq<char>),
    Rename(Seq<char>),
    Unpack,
    Nothing,
}

/// What is to be done next.
#[derive(Debug)]
pub enum Action {
    /// Receive the payload at this address.
    Receive(String),
    /// Fetch the sidecar at this address.
    FetchSidecar(String),
    /// What was received is the DLL: give it this name.
    Rename(String),
    /// What was received is an archive: unpack it.
    Unpack,
    /// The download is over.
    Nothing,
}

impl View for Action {
    type V = ActionModel;

    open spec fn view(&self) -> ActionModel {
        match self {
            Action::Receive(url) => ActionModel::Receive(url@),
            Action::FetchSidecar(url) => ActionModel::FetchSidecar(url@),
            Action::Rename(name) => ActionModel::Rename(name@),
            Action::Unpack => ActionModel::Unpack,
            Action::Nothing => ActionModel::Nothing,
        }
    }
}

/// The action that a state calls for.
pub open spec fn action_spec(m: DownloadModel) -> ActionModel {
    match m.stage {
        StageModel::Payload => ActionModel::Receive(m.offer.candidates[m.at].url),
        StageModel::Sidecar => ActionModel::FetchSidecar(m.offer.candidates[m.at].sha256_url->0),
        StageModel::Install => match consumer_name_of(m.offer.dir) {
            Some(name) => ActionModel::Rename(name),
            None => ActionModel::Unpack,
        },
        StageModel::Done(r) => ActionModel::Nothing,
    }
}

// ---------------------------------------------------------------------------
// Steps
// ---------------------------------------------------------------------------

/// The state in which a download begins.
pub open spec fn download_start(offer: OfferModel) -> DownloadModel {
    DownloadModel {
        offer,
        at: 0,
        stage: if offer.candidates.len() == 0 {
            StageModel::Done(Err(DownloadErrorModel::NoMirrors))
        } else {
            StageModel::Payload
        },
        log: seq![],
    }
}

/// What follows where a mirror fails: the next one, or the end.
pub open spec fn mirror_failed(m: DownloadModel, e: DownloadErrorModel) -> DownloadModel {
    if m.at + 1 < m.offer.candidates.len() {
        DownloadModel {
            at: m.at + 1,
            stage: StageModel::Payload,
            log: m.log.push("trying next mirror..."@),
            ..m
        }
    } else {
        DownloadModel { stage: StageModel::Done(Err(e)), ..m }
    }
}

/// What follows a check of what was received.
pub open spec fn checked(m: DownloadModel, wrong: Option<DownloadErrorModel>) -> DownloadModel {
    match wrong {
        Some(e) => mirror_failed(m, e),
        None => DownloadModel { stage: StageModel::Install, ..m },
    }
}

/// What follows the receiving of a payload: how many bytes came, or what went wrong.
pub open spec fn payload_step(
    m: DownloadModel,
    reply: Result<u64, DownloadErrorModel>,
) -> DownloadModel {
    if m.stage is Payload {
        match reply {
            Ok(done) => if m.offer.candidates[m.at].sha256_url is Some {
                DownloadModel { stage: StageModel::Sidecar, ..m }
            } else {
                checked(m, size_check(m.offer.size, done))
            },
            Err(e) => mirror_failed(m, e),
        }
    } else {
        m
    }
}

/// What follows the check of what was received against its sidecar.
pub open spec fn verdict_step(m: DownloadModel, wrong: Option<DownloadErrorModel>) -> DownloadModel {
    if m.stage is Sidecar {
        checked(m, wrong)
    } else {
        m
    }
}

/// What follows the installing of what was received: the names of the files,
/// or what went wrong. The content of an archive is reported.
pub open spec fn install_step(
    m: DownloadModel,
    reply: Result<Seq<Seq<char>>, DownloadErrorModel>,
) -> DownloadModel {
    if m.stage is Install {
        match reply {
            Ok(names) => DownloadModel {
                stage: StageModel::Done(Ok(names)),
                log: if consumer_name_of(m.offer.dir) is Some {
                    m.log
                } else {
                    m.log.push(archive_line_spec(names))
                },
                ..m
            },
            Err(e) => mirror_failed(m, e),
        }
    } else {
        m
    }
}

/// What follows the renaming of what was received: the one file has the
/// consumer name.
pub open spec fn rename_step(m: DownloadModel, reply: Result<(), Seq<char>>) -> DownloadModel {
    match consumer_name_of(m.offer.dir) {
        Some(name) => install_step(
            m,
            match reply {
                Ok(_) => Ok(seq![name]),
                Err(e) => Err(DownloadErrorModel::Other(e)),
            },
        ),
        None => m,
    }
}

/// Begins the download of an offer, from its first mirror.
pub fn download_offer(offer: &Offer) -> (r: Download)
    ensures
        r@ == download_start(offer@),
        download_wf(r@),
{
    let copy = offer.clone();
    let log: Vec<String> = Vec::new();
    assert(views(log@) =~= seq![]);
    assert(copy@.candidates.len() == copy.candidates@.len());
    let stage = if copy.candidates.len() == 0 {
        Stage::Done(Err(DownloadError::NoMirrors))
    } else {
        Stage::Payload
    };
    Download { offer: copy, at: 0, stage, log }
}

impl Download {
    #[verifier::type_invariant]
    spec fn wf(self) -> bool {
        download_wf(self@)
    }

    /// What is to be done next.
    pub fn action(&self) -> (r: Action)
        ensures
            r@ == action_spec(self@),
    {
        proof {
            use_type_invariant(self);
        }
        let ghost all = candidate_models(self.offer.candidates@);
        match &self.stage {
            Stage::Payload => {
                assert(all[self.at as int] == self.offer.candidates@[self.at as int]@);
                Action::Receive(copy_text(self.offer.candidates[self.at].url.as_str()))
            },
            Stage::Sidecar => {
                assert(all[self.at as int] == self.offer.candidates@[self.at as int]@);
                match &self.offer.candidates[self.at].sha256_url {
                    Some(url) => Action::FetchSidecar(copy_text(url.as_str())),
                    None => Action::Nothing,
                }
            },
            Stage::Install => match self.offer.feature.consumer_name() {
                Some(name) => Action::Rename(name),
                None => Action::Unpack,
            },
            Stage::Done(r) => Action::Nothing,
        }
    }

    /// Goes on where the mirror fails.
    fn fail(self, e: DownloadError) -> (r: Download)
        requires
            0 <= self@.at < self@.offer.candidates.len(),
        ensures
            r@ == mirror_failed(self@, e@),
            download_wf(r@),
    {
        proof {
            use_type_invariant(&self);
        }
        assert(self@.offer.candidates.len() == self.offer.candidates@.len());
        if self.at < self.offer.candidates.len() - 1 {
            let ghost before = self@;
            let mut log = self.log;
            let line = copy_text("trying next mirror...");
            log.push(line);
            assert(views(log@) =~= before.log.push("trying next mirror..."@));
            Download { offer: self.offer, at: self.at + 1, stage: Stage::Payload, log }
        } else {
            Download { stage: Stage::Done(Err(e)), ..self }
        }
    }

    /// Goes on behind a check of what was received.
    fn check(self, verdict: Result<(), DownloadError>) -> (r: Download)
        requires
            0 <= self@.at < self@.offer.candidates.len(),
        ensures
            r@ == checked(
                self@,
                match verdict {
                    Ok(_) => None,
                    Err(e) => Some(e@),
                },
            ),
            download_wf(r@),
    {
        match verdict {
            Ok(_) => Download { stage: Stage::Install, ..self },
            Err(e) => self.fail(e),
        }
    }

    /// Takes how many bytes of the payload were received, or what went wrong.
    pub fn on_payload(self, reply: Result<u64, DownloadError>) -> (r: Download)
        ensures
            r@ == payload_step(
                self@,
                match reply {
                    Ok(done) => Ok(done),
                    Err(e) => Err(e@),
                },
            ),
            download_wf(r@),
    {
        proof {
            use_type_invariant(&self);
        }
        match &self.stage {
            Stage::Payload => {},
            _ => {
                return self;
            },
        }
        let ghost all = candidate_models(self.offer.candidates@);
        assert(all[self.at as int] == self.offer.candidates@[self.at as int]@);
        match reply {
            Ok(done) => if self.offer.candidates[self.at].sha256_url.is_some() {
                Download { stage: Stage::Sidecar, ..self }
            } else {
                let size: u64 = self.offer.size;
                if size > 0 && done != size {
                    self.check(Err(DownloadError::Truncated(done, size)))
                } else {
                    self.check(Ok(()))
                }
            },
            Err(e) => self.fail(e),
        }
    }

    /// Takes the verdict on what was received.
    pub fn on_verdict(self, verdict: Result<(), DownloadError>) -> (r: Download)
        ensures
            r@ == verdict_step(
                self@,
                match verdict {
                    Ok(_) => None,
                    Err(e) => Some(e@),
                },
            ),
            download_wf(r@),
    {
        proof {
            use_type_invariant(&self);
        }
        match &self.stage {
            Stage::Sidecar => {},
            _ => {
                return self;
            },
        }
        self.check(verdict)
    }

    /// Takes the sidecar, or what went wrong with it, and what was received,
    /// or why it cannot be read.
    pub fn on_sidecar(
        self,
        body: Result<String, DownloadError>,
        part: Result<Vec<u8>, String>,
    ) -> (r: Download)
        ensures
            ({
                let b = match body {
                    Ok(text) => Ok(text@),
                    Err(e) => Err(e@),
                };
                let p = match part {
                    Ok(data) => Ok(data@),
                    Err(e) => Err(e@),
                };
                r@ == verdict_step(self@, sidecar_check(b, p))
            }),
            download_wf(r@),
    {
        let verdict = check_part(body, part);
        self.on_verdict(verdict)
    }

    /// Takes the names of the files that were installed, or what went wrong.
    pub fn on_installed(self, reply: Result<Vec<String>, DownloadError>) -> (r: Download)
        ensures
            r@ == install_step(self@, names_model(reply)),
            download_wf(r@),
    {
        proof {
            use_type_invariant(&self);
        }
        match &self.stage {
            Stage::Install => {},
            _ => {
                return self;
            },
        }
        match reply {
            Ok(names) => {
                let ghost before = self@;
                let mut log = self.log;
                if self.offer.feature.is_streamline() {
                    let line = archive_line(&names);
                    log.push(line);
                    assert(views(log@) =~= before.log.push(archive_line_spec(views(names@))));
                }
                Download { offer: self.offer, at: self.at, stage: Stage::Done(Ok(names)), log }
            },
            Err(e) => self.fail(e),
        }
    }

    /// Takes what came of renaming what was received.
    pub fn on_renamed(self, reply: Result<(), String>) -> (r: Download)
        ensures
            r@ == rename_step(
                self@,
                match reply {
                    Ok(_) => Ok(()),
                    Err(e) => Err(e@),
                },
            ),
            download_wf(r@),
    {
        proof {
            use_type_invariant(&self);
        }
        match self.offer.feature.consumer_name() {
            Some(name) => match reply {
                Ok(_) => {
                    let ghost text = name@;
                    let mut names: Vec<String> = Vec::new();
                    names.push(name);
                    assert(views(names@) =~= seq![text]);
                    self.on_installed(Ok(names))
                },
                Err(e) => self.on_installed(Err(DownloadError::Other(e))),
            },
            None => self,
        }
    }

    /// The report so far.
    pub fn log(&self) -> (r: &Vec<String>)
        ensures
            views(r@) == self@.log,
    {
        &self.log
    }

    /// What the download came to, if it is over.
    pub fn outcome(self) -> (r: Option<Result<Vec<String>, DownloadError>>)
        ensures
            match r {
                Some(result) => self@.stage == StageModel::Done(names_model(result)),
                None => !(self@.stage is Done),
            },
    {
        match self.stage {
            Stage::Done(r) => Some(r),
            _ => None,
        }
    }
}

// ---------------------------------------------------------------------------
// Laws
// ---------------------------------------------------------------------------

/// Nothing is installed unchecked: where the mirror has a sidecar, what was
/// received has the digest that the sidecar gives; where it has none, the
/// number of bytes is the size of the offer, if that is known.
pub proof fn law_only_checked_is_installed(
    m: DownloadModel,
    done: Result<u64, DownloadErrorModel>,
    body: Result<Seq<char>, DownloadErrorModel>,
    part: Result<Seq<u8>, Seq<char>>,
)
    requires
        download_wf(m),
        !(m.stage is Install),
    ensures
        payload_step(m, done).stage is Install ==> {
            &&& m.offer.candidates[m.at].sha256_url is None
            &&& done is Ok
            &&& m.offer.size == 0 || done->Ok_0 == m.offer.size
        },
        verdict_step(m, sidecar_check(body, part)).stage is Install ==> {
            &&& body is Ok
            &&& part is Ok
            &&& sidecar_digest(body->Ok_0) == Some(hex_text(sha256(part->Ok_0)))
        },
{
}

/// What is left to do: mirrors, and actions of a mirror.
pub open spec fn actions_left(m: DownloadModel) -> int {
    match m.stage {
        StageModel::Payload => 3 * (m.offer.candidates.len() - m.at),
        StageModel::Sidecar => 3 * (m.offer.candidates.len() - m.at) - 1,
        StageModel::Install => 3 * (m.offer.candidates.len() - m.at) - 2,
        StageModel::Done(r) => 0,
    }
}

/// Whatever comes of the actions that are called for, a download takes at
/// most three for each mirror.
pub proof fn law_download_ends(
    m: DownloadModel,
    done: Result<u64, DownloadErrorModel>,
    wrong: Option<DownloadErrorModel>,
    names: Result<Seq<Seq<char>>, DownloadErrorModel>,
    renamed: Result<(), Seq<char>>,
)
    requires
        download_wf(m),
    ensures
        0 <= actions_left(m),
        actions_left(download_start(m.offer)) == 3 * m.offer.candidates.len(),
        match action_spec(m) {
            ActionModel::Receive(url) => actions_left(payload_step(m, done)) < actions_left(m),
            ActionModel::FetchSidecar(url) => actions_left(verdict_step(m, wrong)) < actions_left(
                m,
            ),
            ActionModel::Rename(name) => actions_left(rename_step(m, renamed)) < actions_left(m),
            ActionModel::Unpack => actions_left(install_step(m, names)) < actions_left(m),
            ActionModel::Nothing => m.stage is Done,
        },
{
}

/// `n` follows where the mirror of `m` fails with `e`: the next mirror is
/// tried from the beginning, or the download ends with `e`. The offer is the
/// same, and nothing leaves the report.
pub open spec fn passes_on(m: DownloadModel, n: DownloadModel, e: DownloadErrorModel) -> bool {
    &&& n.offer == m.offer
    &&& m.at + 1 < m.offer.candidates.len() ==> {
        &&& n.at == m.at + 1
        &&& n.stage is Payload
        &&& action_spec(n) == ActionModel::Receive(m.offer.candidates[m.at + 1].url)
        &&& n.log == m.log.push("trying next mirror..."@)
    }
    &&& m.at + 1 >= m.offer.candidates.len() ==> {
        &&& n.at == m.at
        &&& n.stage == StageModel::Done(Err::<Seq<Seq<char>>, DownloadErrorModel>(e))
        &&& n.log == m.log
    }
}

/// A mirror that fails is followed by the next, and the last one by the end,
/// with its error, wherever it fails: while the payload is received, by the
/// number of bytes, by the sidecar, or when what came is installed.
pub proof fn law_mirrors_in_turn(
    m: DownloadModel,
    e: DownloadErrorModel,
    done: u64,
    text: Seq<char>,
)
    requires
        download_wf(m),
    ensures
        m.stage is Payload ==> passes_on(m, payload_step(m, Err(e)), e),
        m.stage is Payload && m.offer.candidates[m.at].sha256_url is None && size_check(
            m.offer.size,
            done,
        ) is Some ==> passes_on(
            m,
            payload_step(m, Ok(done)),
            DownloadErrorModel::Truncated(done, m.offer.size),
        ),
        m.stage is Sidecar ==> passes_on(m, verdict_step(m, Some(e)), e),
        m.stage is Install ==> passes_on(m, install_step(m, Err(e)), e),
        m.stage is Install && consumer_name_of(m.offer.dir) is Some ==> passes_on(
            m,
            rename_step(m, Err(text)),
            DownloadErrorModel::Other(text),
        ),
{
}

/// A payload that is the DLL itself ends up under its consumer name, alone.
pub proof fn law_consumer_name(m: DownloadModel)
    requires
        download_wf(m),
        m.stage is Install,
        consumer_name_of(m.offer.dir) is Some,
    ensures
        action_spec(m) == ActionModel::Rename("nvngx_"@ + m.offer.dir + ".dll"@),
        rename_step(m, Ok(())).stage == StageModel::Done(
            Ok::<Seq<Seq<char>>, DownloadErrorModel>(
                seq!["nvngx_"@ + m.offer.dir + ".dll"@],
            ),
        ),
{
}

/// A download begins with the first mirror, where there is one.
pub proof fn law_download_begins(offer: OfferModel)
    ensures
        download_start(offer).offer == offer,
        download_start(offer).log.len() == 0,
        offer.candidates.len() > 0 ==> action_spec(download_start(offer)) == ActionModel::Receive(
            offer.candidates[0].url,
        ),
        offer.candidates.len() == 0 ==> download_start(offer).stage == StageModel::Done(
            Err::<Seq<Seq<char>>, DownloadErrorModel>(DownloadErrorModel::NoMirrors),
        ),
{
}

/// A payload that was received goes on to its sidecar, where the mirror has
/// one; without one it is installed if no size is known or it has that size,
/// and is refused as truncated else.
pub proof fn law_received(m: DownloadModel, done: u64)
    requires
        download_wf(m),
        m.stage is Payload,
    ensures
        ({
            let n = payload_step(m, Ok(done));
            let sidecar = m.offer.candidates[m.at].sha256_url;
            &&& sidecar is Some ==> n == (DownloadModel { stage: StageModel::Sidecar, ..m })
                && action_spec(n) == ActionModel::FetchSidecar(sidecar->0)
            &&& sidecar is None && (m.offer.size == 0 || done == m.offer.size) ==> n == (
            DownloadModel { stage: StageModel::Install, ..m })
            &&& sidecar is None && m.offer.size != 0 && done != m.offer.size ==> passes_on(
                m,
                n,
                DownloadErrorModel::Truncated(done, m.offer.size),
            )
        }),
{
}

/// What was received is right by its sidecar if and only if the sidecar could
/// be had, gives a digest, and what was received has it. Else the first thing
/// that is wrong is the error.
pub proof fn law_sidecar_verdict(
    m: DownloadModel,
    body: Seq<char>,
    data: Seq<u8>,
    e: DownloadErrorModel,
    text: Seq<char>,
    part: Result<Seq<u8>, Seq<char>>,
)
    requires
        download_wf(m),
        m.stage is Sidecar,
    ensures
        ({
            let digest = hex_text(sha256(data));
            let wrong = sidecar_check(Ok(body), Ok(data));
            &&& sidecar_digest(body) == Some(digest) ==> verdict_step(m, wrong) == (DownloadModel {
                stage: StageModel::Install,
                ..m
            })
            &&& sidecar_digest(body) is Some && sidecar_digest(body) != Some(digest) ==> passes_on(
                m,
                verdict_step(m, wrong),
                DownloadErrorModel::Mismatch(sidecar_digest(body)->0, digest),
            )
            &&& sidecar_digest(body) is None ==> passes_on(
                m,
                verdict_step(m, sidecar_check(Ok(body), part)),
                DownloadErrorModel::SidecarFormat,
            )
            &&& sidecar_digest(body) is Some ==> passes_on(
                m,
                verdict_step(m, sidecar_check(Ok(body), Err(text))),
                DownloadErrorModel::Other(text),
            )
            &&& passes_on(m, verdict_step(m, sidecar_check(Err(e), part)), e)
        }),
{
}

/// What is right is installed, as its feature asks for, and the download ends
/// with the names of the files. The content of an archive is reported.
pub proof fn law_installing(m: DownloadModel, names: Seq<Seq<char>>)
    requires
        download_wf(m),
        m.stage is Install,
    ensures
        "sl_sdk"@.is_prefix_of(m.offer.dir) ==> {
            &&& action_spec(m) == ActionModel::Unpack
            &&& install_step(m, Ok(names)) == (DownloadModel {
                stage: StageModel::Done(Ok(names)),
                log: m.log.push("  archive contained: "@ + join_spec(names, ", "@)),
                ..m
            })
        },
        !"sl_sdk"@.is_prefix_of(m.offer.dir) ==> {
            let name = "nvngx_"@ + m.offer.dir + ".dll"@;
            &&& action_spec(m) == ActionModel::Rename(name)
            &&& rename_step(m, Ok(())) == (DownloadModel {
                stage: StageModel::Done(Ok(seq![name])),
                ..m
            })
        },
{
}

/// What comes out of turn changes nothing.
pub proof fn law_out_of_turn(
    m: DownloadModel,
    done: Result<u64, DownloadErrorModel>,
    wrong: Option<DownloadErrorModel>,
    names: Result<Seq<Seq<char>>, DownloadErrorModel>,
)
    ensures
        !(m.stage is Payload) ==> payload_step(m, done) == m,
        !(m.stage is Sidecar) ==> verdict_step(m, wrong) == m,
        !(m.stage is Install) ==> install_step(m, names) == m,
        m.stage is Done <==> action_spec(m) is Nothing,
        !(m.stage is Install) || "sl_sdk"@.is_prefix_of(m.offer.dir) ==> rename_step(m, Ok(()))
            == m && rename_step(m, Err(Seq::<char>::empty())) == m,
{
}

} // verus!
