//! Deciding how a resource is to be fetched from its URL. The fetching
//! itself, from disk or over the network, is left to the caller.

use vstd::prelude::*;
use crate::element::str_eq;
use crate::text::bytes_start_with;
use crate::text::has_prefix;
use crate::text::utf8;

verus! {

/// `url::ParseError`, taken as it is.
#[verifier::external_type_specification]
#[verifier::external_body]
pub struct ExUrlParseError(url::ParseError);

/// `ureq::Error`, taken as it is.
#[verifier::external_type_specification]
#[verifier::external_body]
pub struct ExTransportError(ureq::Error);

/// `std::io::Error`, taken as it is.
#[verifier::external_type_specification]
#[verifier::external_body]
pub struct ExIoError(std::io::Error);

/// What identifies the client to a server.
pub const USER_AGENT: &'static str = "Mozilla/5.0 (X11; Linux x86_64; rv:60.0) Gecko/20100101 Firefox/81.0";

/// The most bytes that are read of one response. What comes after them
/// is cut off, not refused.
pub const FILE_SIZE_LIMIT: u64 = 1_000_000_000;

/// The parts of a URL that decide how it is fetched.
#[derive(Debug)]
pub struct UrlParts {
    pub scheme: String,
    pub path: String,
}

/// How a resource is to be fetched.
#[derive(Debug)]
pub enum FetchPlan {
    /// The URL held the bytes itself.
    Inline(Vec<u8>),
    /// The file at this path is to be read.
    File(String),
    /// The URL is to be requested over the network.
    Remote,
}

/// Why a resource could not be fetched. The first two come when the plan
/// is made; the other two are for whoever carries the plan out.
#[derive(Debug)]
pub enum FetchErr {
    /// The URL starts like a `data:` URL but is none.
    DataUrl,
    /// The URL could not be parsed.
    UrlParse(url::ParseError),
    /// The request over the network failed.
    Ureq(Box<ureq::Error>),
    /// The file could not be read.
    FileIo(std::io::Error),
}

/// The kinds of failure.
#[derive(Clone, Copy, Debug, PartialEq, Eq, Structural)]
pub enum FetchFailure {
    DataUrl,
    UrlParse,
    Transport,
    FileIo,
}

impl FetchErr {
    /// The kind of the failure.
    pub open spec fn kind(self) -> FetchFailure {
        match self {
            FetchErr::DataUrl => FetchFailure::DataUrl,
            FetchErr::UrlParse(_) => FetchFailure::UrlParse,
            FetchErr::Ureq(_) => FetchFailure::Transport,
            FetchErr::FileIo(_) => FetchFailure::FileIo,
        }
    }
}

/// What a plan, or a failure to make one, says.
pub open spec fn outcome(r: Result<FetchPlan, FetchErr>) -> Result<PlanView, FetchFailure> {
    match r {
        Ok(plan) => Ok(plan@),
        Err(e) => Err(e.kind()),
    }
}

/// What a [`FetchPlan`] says.
pub enum PlanView {
    Inline(Seq<u8>),
    File(Seq<char>),
    Remote,
}

impl View for FetchPlan {
    type V = PlanView;

    open spec fn view(&self) -> PlanView {
        match self {
            FetchPlan::Inline(body) => PlanView::Inline(body@),
            FetchPlan::File(path) => PlanView::File(path@),
            FetchPlan::Remote => PlanView::Remote,
        }
    }
}

/// The bytes that the `data:` URL `url` holds, as `data_url` decodes
/// them; nothing where `url` is no `data:` URL or its body cannot be
/// decoded.
pub uninterp spec fn data_url_body(url: Seq<char>) -> Option<Seq<u8>>;

/// The scheme and the path of `url`, as `url::Url::parse` finds them;
/// nothing where it rejects `url`.
pub uninterp spec fn url_parts(url: Seq<char>) -> Option<(Seq<char>, Seq<char>)>;

/// The bytes `data:`.
pub open spec fn data_prefix() -> Seq<u8> {
    seq![0x64u8, 0x61, 0x74, 0x61, 0x3a]
}

/// What some bytes say, if there are any.
pub open spec fn body_view(body: Option<Vec<u8>>) -> Option<Seq<u8>> {
    match body {
        Some(b) => Some(b@),
        None => None,
    }
}

/// What the parts of a URL say, if it was parsed.
pub open spec fn parts_view(parts: Result<UrlParts, url::ParseError>) -> Option<(Seq<char>, Seq<char>)> {
    match parts {
        Ok(p) => Some((p.scheme@, p.path@)),
        Err(_) => None,
    }
}

/// The plan for a URL with the given parts: a `file` URL is read from
/// its path, every other is requested.
pub open spec fn plan_of_parts(scheme: Seq<char>, path: Seq<char>) -> PlanView {
    if scheme == "file"@ {
        PlanView::File(path)
    } else {
        PlanView::Remote
    }
}

/// The plan for `url`, or the kind of failure: a URL that starts with
/// `data:` holds its bytes itself, and fails if they cannot be decoded;
/// every other URL is parsed, and fails if it cannot be.
pub open spec fn plan_of(url: Seq<char>) -> Result<PlanView, FetchFailure> {
    if has_prefix(utf8(url), data_prefix()) {
        plan_of_body(data_url_body(url))
    } else {
        plan_of_parsed(url_parts(url))
    }
}

/// The plan for a `data:` URL, given the bytes it was decoded to.
pub open spec fn plan_of_body(body: Option<Seq<u8>>) -> Result<PlanView, FetchFailure> {
    match body {
        Some(b) => Ok(PlanView::Inline(b)),
        None => Err(FetchFailure::DataUrl),
    }
}

/// The plan for any other URL, given the parts it was parsed to.
pub open spec fn plan_of_parsed(parts: Option<(Seq<char>, Seq<char>)>) -> Result<PlanView, FetchFailure> {
    match parts {
        Some((scheme, path)) => Ok(plan_of_parts(scheme, path)),
        None => Err(FetchFailure::UrlParse),
    }
}

/// `data_url::DataUrl::process` and then `DataUrl::decode_to_vec`: the
/// bytes that a `data:` URL holds. The fragment, if any, is dropped.
#[verifier::external_body]
pub(crate) fn decode_data_url(url: &str) -> (r: Option<Vec<u8>>)
    ensures
        body_view(r) == data_url_body(url@),
{
    match data_url::DataUrl::process(url) {
        Ok(data) => match data.decode_to_vec() {
            Ok((body, _)) => Some(body),
            Err(_) => None,
        },
        Err(_) => None,
    }
}

/// `url::Url::parse`, with `Url::scheme` and `Url::path` of what it
/// returns.
#[verifier::external_body]
pub(crate) fn parse_url(url: &str) -> (r: Result<UrlParts, url::ParseError>)
    ensures
        parts_view(r) == url_parts(url@),
{
    match url::Url::parse(url) {
        Ok(parsed) => Ok(UrlParts { scheme: parsed.scheme().to_string(), path: parsed.path().to_string() }),
        Err(e) => Err(e),
    }
}

/// The plan for a URL that is no `data:` URL and has the given parts.
pub fn plan_for_parts(parts: UrlParts) -> (r: FetchPlan)
    ensures
        r@ == plan_of_parts(parts.scheme@, parts.path@),
{
    if str_eq(parts.scheme.as_str(), "file") {
        FetchPlan::File(parts.path)
    } else {
        FetchPlan::Remote
    }
}

/// The plan for a `data:` URL, given what decoding it gave: the bytes, or
/// a failure where there are none.
pub fn plan_for_data(body: Option<Vec<u8>>) -> (r: Result<FetchPlan, FetchErr>)
    ensures
        outcome(r) == plan_of_body(body_view(body)),
{
    match body {
        Some(b) => Ok(FetchPlan::Inline(b)),
        None => Err(FetchErr::DataUrl),
    }
}

/// The plan for a URL that is no `data:` URL, given what parsing it
/// gave: the plan for its parts, or the parser's error.
pub fn plan_for_url(parts: Result<UrlParts, url::ParseError>) -> (r: Result<FetchPlan, FetchErr>)
    ensures
        outcome(r) == plan_of_parsed(parts_view(parts)),
        parts matches Err(e) ==> r == Err::<FetchPlan, FetchErr>(FetchErr::UrlParse(e)),
{
    match parts {
        Ok(p) => Ok(plan_for_parts(p)),
        Err(e) => Err(FetchErr::UrlParse(e)),
    }
}

/// Decides how the resource at `url` is to be fetched: a URL that starts
/// with `data:` holds its bytes itself, a `file` URL is read from its
/// path, and every other URL is requested over the network.
pub fn fetch_plan(url: &str) -> (r: Result<FetchPlan, FetchErr>)
    ensures
        outcome(r) == plan_of(url@),
{
    let prefix: [u8; 5] = [0x64, 0x61, 0x74, 0x61, 0x3a];
    assert(prefix@ =~= data_prefix());
    if bytes_start_with(url.as_bytes(), prefix.as_slice()) {
        plan_for_data(decode_data_url(url))
    } else {
        plan_for_url(parse_url(url))
    }
}

} // verus!
