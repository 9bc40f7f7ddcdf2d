//! What can go wrong.

use crate::number::{decimal, push_decimal};
use crate::text::copy_text;
use vstd::prelude::*;

verus! {

/// What went wrong with a download.
pub enum DownloadErrorModel {
    Http(u16),
    SidecarFetch(Seq<char>),
    SidecarRead(Seq<char>),
    SidecarFormat,
    Mismatch(Seq<char>, Seq<char>),
    Truncated(u64, u64),
    BadArchive(Seq<char>),
    BadMember(Seq<char>),
    NoDll,
    NoMirrors,
    Other(Seq<char>),
}

/// A download that failed.
#[derive(Debug)]
pub enum DownloadError {
    /// The server answered with this status.
    Http(u16),
    SidecarFetch(String),
    SidecarRead(String),
    SidecarFormat,
    /// The digest that the sidecar gives, and that of what was received.
    Mismatch(String, String),
    /// How many bytes were received, and how many there should be.
    Truncated(u64, u64),
    BadArchive(String),
    BadMember(String),
    NoDll,
    NoMirrors,
    /// What failed outside.
    Other(String),
}

impl View for DownloadError {
    type V = DownloadErrorModel;

    open spec fn view(&self) -> DownloadErrorModel {
        match self {
            DownloadError::Http(code) => DownloadErrorModel::Http(*code),
            DownloadError::SidecarFetch(e) => DownloadErrorModel::SidecarFetch(e@),
            DownloadError::SidecarRead(e) => DownloadErrorModel::SidecarRead(e@),
            DownloadError::SidecarFormat => DownloadErrorModel::SidecarFormat,
            DownloadError::Mismatch(a, b) => DownloadErrorModel::Mismatch(a@, b@),
            DownloadError::Truncated(a, b) => DownloadErrorModel::Truncated(*a, *b),
            DownloadError::BadArchive(e) => DownloadErrorModel::BadArchive(e@),
            DownloadError::BadMember(e) => DownloadErrorModel::BadMember(e@),
            DownloadError::NoDll => DownloadErrorModel::NoDll,
            DownloadError::NoMirrors => DownloadErrorModel::NoMirrors,
            DownloadError::Other(e) => DownloadErrorModel::Other(e@),
        }
    }
}

/// The message for a failed download.
pub open spec fn download_message(e: DownloadErrorModel) -> Seq<char> {
    match e {
        DownloadErrorModel::Http(code) => "HTTP "@ + decimal(code as nat),
        DownloadErrorModel::SidecarFetch(e) => "sha256 sidecar fetch failed: "@ + e,
        DownloadErrorModel::SidecarRead(e) => "sha256 sidecar read failed: "@ + e,
        DownloadErrorModel::SidecarFormat => "sha256 sidecar has unexpected format"@,
        DownloadErrorModel::Mismatch(expect, actual) => "sha256 mismatch (expected "@ + expect
            + ", got "@ + actual + ")"@,
        DownloadErrorModel::Truncated(done, size) => "truncated download ("@ + decimal(done as nat)
            + "/"@ + decimal(size as nat) + " bytes, no sidecar to verify)"@,
        DownloadErrorModel::BadArchive(e) => "parsing Streamline zip archive: "@ + e,
        DownloadErrorModel::BadMember(e) => "reading zip member: "@ + e,
        DownloadErrorModel::NoDll => "no .dll members found in Streamline archive"@,
        DownloadErrorModel::NoMirrors => "no mirrors available"@,
        DownloadErrorModel::Other(e) => e,
    }
}

impl DownloadError {
    /// The message for a failed download.
    pub fn message(&self) -> (r: String)
        ensures
            r@ == download_message(self@),
    {
        match self {
            DownloadError::Http(code) => {
                let mut out = copy_text("HTTP ");
                push_decimal(&mut out, *code as u64);
                out
            },
            DownloadError::SidecarFetch(e) => after("sha256 sidecar fetch failed: ", e.as_str()),
            DownloadError::SidecarRead(e) => after("sha256 sidecar read failed: ", e.as_str()),
            DownloadError::SidecarFormat => copy_text("sha256 sidecar has unexpected format"),
            DownloadError::Mismatch(expect, actual) => {
                let mut out = copy_text("sha256 mismatch (expected ");
                out.append(expect.as_str());
                out.append(", got ");
                out.append(actual.as_str());
                out.append(")");
                out
            },
            DownloadError::Truncated(done, size) => {
                let mut out = copy_text("truncated download (");
                push_decimal(&mut out, *done);
                out.append("/");
                push_decimal(&mut out, *size);
                out.append(" bytes, no sidecar to verify)");
                out
            },
            DownloadError::BadArchive(e) => after("parsing Streamline zip archive: ", e.as_str()),
            DownloadError::BadMember(e) => after("reading zip member: ", e.as_str()),
            DownloadError::NoDll => copy_text("no .dll members found in Streamline archive"),
            DownloadError::NoMirrors => copy_text("no mirrors available"),
            DownloadError::Other(e) => copy_text(e.as_str()),
        }
    }
}

/// `text` behind `intro`.
fn after(intro: &str, text: &str) -> (r: String)
    ensures
        r@ == intro@ + text@,
{
    let mut out = copy_text(intro);
    out.append(text);
    out
}

/// What went wrong with a check of the server.
pub enum FetchErrorModel {
    Request(Seq<char>),
    Read(Seq<char>),
    Parse(Seq<char>),
    TooManyPages,
    NothingFound,
}

/// A check of the server that failed.
#[derive(Debug)]
pub enum FetchError {
    Request(String),
    Read(String),
    Parse(String),
    TooManyPages,
    NothingFound,
}

impl View for FetchError {
    type V = FetchErrorModel;

    open spec fn view(&self) -> FetchErrorModel {
        match self {
            FetchError::Request(e) => FetchErrorModel::Request(e@),
            FetchError::Read(e) => FetchErrorModel::Read(e@),
            FetchError::Parse(e) => FetchErrorModel::Parse(e@),
            FetchError::TooManyPages => FetchErrorModel::TooManyPages,
            FetchError::NothingFound => FetchErrorModel::NothingFound,
        }
    }
}

/// The message for a failed check of the server.
pub open spec fn fetch_message(e: FetchErrorModel) -> Seq<char> {
    match e {
        FetchErrorModel::Request(e) => "listing request failed: "@ + e,
        FetchErrorModel::Read(e) => "reading listing failed: "@ + e,
        FetchErrorModel::Parse(e) => "parsing S3 listing XML: "@ + e,
        FetchErrorModel::TooManyPages => "too many listing pages"@,
        FetchErrorModel::NothingFound =>
            "server answered but no DLSS/Streamline objects were found - the layout may have changed"@,
    }
}

impl FetchError {
    /// The message for a failed check of the server.
    pub fn message(&self) -> (r: String)
        ensures
            r@ == fetch_message(self@),
    {
        match self {
            FetchError::Request(e) => after("listing request failed: ", e.as_str()),
            FetchError::Read(e) => after("reading listing failed: ", e.as_str()),
            FetchError::Parse(e) => after("parsing S3 listing XML: ", e.as_str()),
            FetchError::TooManyPages => copy_text("too many listing pages"),
            FetchError::NothingFound => copy_text(
                "server answered but no DLSS/Streamline objects were found - the layout may have changed",
            ),
        }
    }
}

// ---------------------------------------------------------------------------
// Laws
// ---------------------------------------------------------------------------


/// The messages for failed downloads and checks.
pub proof fn law_messages(a: Seq<char>, b: Seq<char>, code: u16, done: u64, size: u64)
    ensures
        download_message(DownloadErrorModel::Http(code)) == "HTTP "@ + decimal(code as nat),
        download_message(DownloadErrorModel::SidecarFetch(a)) == "sha256 sidecar fetch failed: "@
            + a,
        download_message(DownloadErrorModel::SidecarRead(a)) == "sha256 sidecar read failed: "@ + a,
        download_message(DownloadErrorModel::SidecarFormat)
            == "sha256 sidecar has unexpected format"@,
        download_message(DownloadErrorModel::Mismatch(a, b)) == "sha256 mismatch (expected "@ + a
            + ", got "@ + b + ")"@,
        download_message(DownloadErrorModel::Truncated(done, size)) == "truncated download ("@
            + decimal(done as nat) + "/"@ + decimal(size as nat)
            + " bytes, no sidecar to verify)"@,
        download_message(DownloadErrorModel::BadArchive(a)) == "parsing Streamline zip archive: "@
            + a,
        download_message(DownloadErrorModel::BadMember(a)) == "reading zip member: "@ + a,
        download_message(DownloadErrorModel::NoDll)
            == "no .dll members found in Streamline archive"@,
        download_message(DownloadErrorModel::NoMirrors) == "no mirrors available"@,
        download_message(DownloadErrorModel::Other(a)) == a,
        fetch_message(FetchErrorModel::Request(a)) == "listing request failed: "@ + a,
        fetch_message(FetchErrorModel::Read(a)) == "reading listing failed: "@ + a,
        fetch_message(FetchErrorModel::Parse(a)) == "parsing S3 listing XML: "@ + a,
        fetch_message(FetchErrorModel::TooManyPages) == "too many listing pages"@,
{
}

} // verus!
