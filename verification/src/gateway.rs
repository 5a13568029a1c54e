//! The gateway orchestration layer: from the invocation outcome and the
//! captured response state to the HTTP response handed to the transport.
//!
//! Every failure before the response head is committed is recovered into a
//! generic `400` or `500` response; nothing here aborts the process. Once
//! the transport has started writing the head, errors can no longer change
//! the status line, so everything the gateway decides is decided here,
//! before any byte leaves.

use vstd::prelude::*;
use vstd::slice::slice_to_vec;
use vstd::string::StringSliceAdditionalSpecFns;
use crate::error::GatewayError;
use crate::request::{clone_bytes, header_views};
use crate::response::{parse_status_code, status_code_of, ResponseCollector};

verus! {

/// What invoking the application produced, as the runtime hosting it
/// reports it: the call raised; the returned value was not a chunk
/// sequence; or the finite sequence of raw byte chunks it returned.
pub enum AppOutcome {
    Raised,
    NotChunkSequence,
    Chunks(Vec<Vec<u8>>),
}

/// A complete HTTP response as handed to the transport collaborator: the
/// status line for the wire, the header pairs in the order they were
/// supplied, and the body bytes.
pub struct HttpResponse {
    pub status_line: Vec<u8>,
    pub headers: Vec<(Vec<u8>, Vec<u8>)>,
    pub body: Vec<u8>,
}

/// The body bytes of a chunk sequence: the chunks concatenated in order.
pub open spec fn concat_chunks(chunks: Seq<Seq<u8>>) -> Seq<u8>
    decreases chunks.len(),
{
    if chunks.len() == 0 {
        Seq::empty()
    } else {
        concat_chunks(chunks.drop_last()) + chunks.last()
    }
}

/// The fallback response for a failure caught before the head was
/// committed: `400 Bad Request` for a malformed request, the generic
/// `500 Internal Server Error` with its fixed plain-text body for every
/// failure of the invocation itself. Neither carries headers of its own.
pub fn error_response(e: GatewayError) -> (r: HttpResponse)
    ensures
        e == GatewayError::MalformedRequest ==> r.status_line@ == "400 Bad Request".spec_bytes()
            && r.body@ == "Bad Request\n".spec_bytes(),
        e != GatewayError::MalformedRequest ==> r.status_line@
            == "500 Internal Server Error".spec_bytes() && r.body@
            == "Internal Server Error\n".spec_bytes(),
        r.headers@ == Seq::<(Vec<u8>, Vec<u8>)>::empty(),
{
    match e {
        GatewayError::MalformedRequest => HttpResponse {
            status_line: slice_to_vec("400 Bad Request".as_bytes()),
            headers: Vec::new(),
            body: slice_to_vec("Bad Request\n".as_bytes()),
        },
        _ => HttpResponse {
            status_line: slice_to_vec("500 Internal Server Error".as_bytes()),
            headers: Vec::new(),
            body: slice_to_vec("Internal Server Error\n".as_bytes()),
        },
    }
}

/// The chunks concatenated into one body.
fn concat_body(chunks: &Vec<Vec<u8>>) -> (r: Vec<u8>)
    ensures
        r@ == concat_chunks(chunks.deep_view()),
{
    let ghost cv = chunks.deep_view();
    let mut body: Vec<u8> = Vec::new();
    let mut i: usize = 0;
    while i < chunks.len()
        invariant
            cv == chunks.deep_view(),
            cv.len() == chunks@.len(),
            0 <= i <= chunks@.len(),
            body@ == concat_chunks(cv.take(i as int)),
        decreases chunks@.len() - i,
    {
        let ghost before = body@;
        body.extend_from_slice(chunks[i].as_slice());
        proof {
            assert(cv[i as int] =~= chunks@[i as int]@);
            assert(body@ =~= before + cv[i as int]);
            assert(cv.take(i as int + 1).drop_last() =~= cv.take(i as int));
            assert(cv.take(i as int + 1).last() == cv[i as int]);
        }
        i = i + 1;
    }
    proof {
        assert(cv.take(chunks@.len() as int) =~= cv);
    }
    body
}

/// A copy of the captured header pairs, in order.
fn clone_headers(headers: &Vec<(Vec<u8>, Vec<u8>)>) -> (r: Vec<(Vec<u8>, Vec<u8>)>)
    ensures
        header_views(r@) == header_views(headers@),
{
    let mut out: Vec<(Vec<u8>, Vec<u8>)> = Vec::new();
    let mut i: usize = 0;
    while i < headers.len()
        invariant
            0 <= i <= headers@.len(),
            out@.len() == i,
            forall|j: int|
                #![trigger out@[j]]
                0 <= j < i ==> out@[j].0@ == headers@[j].0@ && out@[j].1@ == headers@[j].1@,
        decreases headers@.len() - i,
    {
        let name = clone_bytes(&headers[i].0);
        let value = clone_bytes(&headers[i].1);
        out.push((name, value));
        i = i + 1;
    }
    proof {
        assert(header_views(out@) =~= header_views(headers@));
    }
    out
}

/// Read the outcome of the invocation and the captured response state, and
/// either assemble the response to stream or name the failure to fall back
/// on. Succeeds exactly when the application returned a chunk sequence and
/// the captured status line carries a parsable status code; the response
/// then carries that status line, the captured headers in order, and the
/// chunks concatenated as its body.
pub fn complete_response(outcome: AppOutcome, collector: &ResponseCollector) -> (r: Result<
    HttpResponse,
    GatewayError,
>)
    ensures
        r is Ok <==> (outcome is Chunks && status_code_of(collector.status@) is Some),
        outcome is Raised ==> r == Result::<HttpResponse, GatewayError>::Err(
            GatewayError::ApplicationInvocation,
        ),
        outcome is NotChunkSequence ==> r == Result::<HttpResponse, GatewayError>::Err(
            GatewayError::ApplicationResult,
        ),
        outcome is Chunks && status_code_of(collector.status@) is None ==> r == Result::<
            HttpResponse,
            GatewayError,
        >::Err(GatewayError::StatusParse),
        outcome is Chunks && r is Ok ==> {
            &&& r->Ok_0.status_line@ == collector.status@
            &&& header_views(r->Ok_0.headers@) == header_views(collector.headers@)
            &&& r->Ok_0.body@ == concat_chunks(outcome->Chunks_0.deep_view())
        },
{
    match outcome {
        AppOutcome::Raised => Err(GatewayError::ApplicationInvocation),
        AppOutcome::NotChunkSequence => Err(GatewayError::ApplicationResult),
        AppOutcome::Chunks(chunks) => {
            match parse_status_code(&collector.status) {
                None => Err(GatewayError::StatusParse),
                Some(_code) => {
                    let body = concat_body(&chunks);
                    Ok(
                        HttpResponse {
                            status_line: clone_bytes(&collector.status),
                            headers: clone_headers(&collector.headers),
                            body,
                        },
                    )
                },
            }
        },
    }
}

/// One whole post-invocation step of the state machine: the response to
/// stream, and the failure it recovers from, if any. A failed or invalid
/// invocation yields the generic `500` response with its fixed body,
/// whatever the collector may have recorded; a valid one yields the
/// captured status line and headers over the concatenated chunks.
pub fn respond(outcome: AppOutcome, collector: &ResponseCollector) -> (r: (
    HttpResponse,
    Option<GatewayError>,
))
    ensures
        r.1 is None <==> (outcome is Chunks && status_code_of(collector.status@) is Some),
        outcome is Raised ==> r.1 == Option::Some(GatewayError::ApplicationInvocation),
        outcome is NotChunkSequence ==> r.1 == Option::Some(GatewayError::ApplicationResult),
        outcome is Chunks && status_code_of(collector.status@) is None ==> r.1 == Option::Some(
            GatewayError::StatusParse,
        ),
        r.1 is Some ==> r.0.status_line@ == "500 Internal Server Error".spec_bytes()
            && r.0.body@ == "Internal Server Error\n".spec_bytes() && r.0.headers@.len() == 0,
        outcome is Chunks && r.1 is None ==> {
            &&& r.0.status_line@ == collector.status@
            &&& header_views(r.0.headers@) == header_views(collector.headers@)
            &&& r.0.body@ == concat_chunks(outcome->Chunks_0.deep_view())
        },
{
    match complete_response(outcome, collector) {
        Ok(resp) => (resp, None),
        Err(e) => (error_response(e), Some(e)),
    }
}

} // verus!
