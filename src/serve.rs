use vstd::prelude::*;
use vstd::string::*;
use vstd::utf8::*;

use crate::locator::{
    decoded_path, is_backend_call, raw_path, resolution_of, resolve, Resolution, ResolutionView,
};
use crate::media::{classify, media_of_path, MediaType};
use crate::overlay::{rewrite, rewritten};

verus! {

/// A response to one resource request.
pub struct Response {
    /// The HTTP status code: 200, 404 or 500.
    pub status: u16,
    /// The `Content-Type` of the body, where one is sent.
    pub media: Option<MediaType>,
    pub body: Vec<u8>,
}

/// A response as a mathematical value.
pub struct ResponseView {
    pub status: u16,
    pub media: Option<MediaType>,
    pub body: Seq<u8>,
}

impl View for Response {
    type V = ResponseView;

    open spec fn view(&self) -> ResponseView {
        ResponseView { status: self.status, media: self.media, body: self.body@ }
    }
}

/// What reading a document from disk gave.
pub enum ReadOutcome {
    /// The document's bytes.
    Contents(Vec<u8>),
    /// There is no such file.
    Missing,
    /// Reading failed otherwise; the error's text.
    Failed(String),
}

/// What reading a document gave, as a mathematical value.
pub enum ReadOutcomeView {
    Contents(Seq<u8>),
    Missing,
    Failed(Seq<char>),
}

impl View for ReadOutcome {
    type V = ReadOutcomeView;

    open spec fn view(&self) -> ReadOutcomeView {
        match self {
            ReadOutcome::Contents(b) => ReadOutcomeView::Contents(b@),
            ReadOutcome::Missing => ReadOutcomeView::Missing,
            ReadOutcome::Failed(e) => ReadOutcomeView::Failed(e@),
        }
    }
}

/// What serving a locator takes first: either the response is already
/// known, or the document at a path below the root has to be read.
pub enum Step {
    Reply(Response),
    Read(String),
}

/// The first step of serving a locator, as a mathematical value.
pub enum StepView {
    Reply(ResponseView),
    Read(Seq<char>),
}

impl View for Step {
    type V = StepView;

    open spec fn view(&self) -> StepView {
        match self {
            Step::Reply(r) => StepView::Reply(r@),
            Step::Read(p) => StepView::Read(p@),
        }
    }
}

/// The body that answers a backend call.
pub open spec fn unavailable_body() -> Seq<u8> {
    encode_utf8("{\"error\":\"API endpoint not available in desktop app\"}"@)
}

/// The body that answers a path above the root; it does not repeat the path.
pub open spec fn outside_root_body() -> Seq<u8> {
    encode_utf8("文件不存在"@)
}

/// The body that answers a missing document; it names the path.
pub open spec fn missing_body(path: Seq<char>) -> Seq<u8> {
    encode_utf8("文件不存在: "@ + path)
}

/// The body that answers a failed read; it gives the error.
pub open spec fn failure_body(detail: Seq<char>) -> Seq<u8> {
    encode_utf8("读取文件失败: "@ + detail)
}

/// The first step of serving a locator that resolves as given.
pub open spec fn step_of(r: ResolutionView) -> StepView {
    match r {
        ResolutionView::Unavailable => StepView::Reply(
            ResponseView { status: 404, media: Some(MediaType::Json), body: unavailable_body() },
        ),
        ResolutionView::OutsideRoot => StepView::Reply(
            ResponseView { status: 404, media: None, body: outside_root_body() },
        ),
        ResolutionView::Document(p) => StepView::Read(p),
    }
}

/// The response for the document at `path` once reading it gave `outcome`.
pub open spec fn response_of(path: Seq<char>, outcome: ReadOutcomeView) -> ResponseView {
    match outcome {
        ReadOutcomeView::Contents(b) => ResponseView {
            status: 200,
            media: Some(media_of_path(path)),
            body: rewritten(b, media_of_path(path)),
        },
        ReadOutcomeView::Missing => ResponseView {
            status: 404,
            media: None,
            body: missing_body(path),
        },
        ReadOutcomeView::Failed(e) => ResponseView {
            status: 500,
            media: None,
            body: failure_body(e),
        },
    }
}

/// The UTF-8 bytes of a text that starts with a fixed prefix.
fn text_bytes(prefix: &str, rest: &str) -> (r: Vec<u8>)
    ensures
        r@ == encode_utf8(prefix@ + rest@),
{
    let mut s = String::from_str(prefix);
    s.append(rest);
    s.as_str().as_bytes_vec()
}

/// The first step of serving a locator: backend calls and paths above the
/// root are answered at once with 404, without touching the disk; any other
/// locator asks for its document to be read.
pub fn begin(uri: &str) -> (r: Step)
    ensures
        r@ == step_of(resolution_of(uri@)),
{
    match resolve(uri) {
        Resolution::Unavailable => Step::Reply(
            Response {
                status: 404,
                media: Some(MediaType::Json),
                body: "{\"error\":\"API endpoint not available in desktop app\"}".as_bytes_vec(),
            },
        ),
        Resolution::OutsideRoot => Step::Reply(
            Response { status: 404, media: None, body: "文件不存在".as_bytes_vec() },
        ),
        Resolution::Document(p) => Step::Read(p),
    }
}

/// The response for the document at `path` once reading it gave `outcome`:
/// 200 with the classified media type and the (rewritten) content, 404 for a
/// missing file, 500 with the error for any other failure.
pub fn finish(path: &str, outcome: ReadOutcome) -> (r: Response)
    ensures
        r@ == response_of(path@, outcome@),
{
    match outcome {
        ReadOutcome::Contents(b) => {
            let media = classify(path);
            Response { status: 200, media: Some(media), body: rewrite(b, media) }
        },
        ReadOutcome::Missing => Response {
            status: 404,
            media: None,
            body: text_bytes("文件不存在: ", path),
        },
        ReadOutcome::Failed(e) => Response {
            status: 500,
            media: None,
            body: text_bytes("读取文件失败: ", e.as_str()),
        },
    }
}

/// A locator whose decoded path looks like a backend call is answered with
/// the fixed 404 JSON body at once, whatever lies on disk: no read is asked
/// for.
pub proof fn lemma_backend_calls_unavailable(uri: Seq<char>)
    requires
        is_backend_call(decoded_path(raw_path(uri))),
    ensures
        step_of(resolution_of(uri)) == StepView::Reply(
            ResponseView { status: 404, media: Some(MediaType::Json), body: unavailable_body() },
        ),
{
}

} // verus!
