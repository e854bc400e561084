//! The crate's view of the storage protocol's response bodies. The XML
//! parsing itself is done by rusty_s3 behind trusted wrappers; what a body
//! parses to is named by uninterpreted spec functions of the body text,
//! and the verified functions here map the outcomes onto the crate's own
//! error type.

use vstd::prelude::*;

use crate::errors::CoreError;

verus! {

/// What rusty_s3 reads out of a create-multipart-session response body:
/// the server-assigned upload-session identifier, or nothing for a body it
/// rejects. A function of the body text alone.
pub uninterp spec fn upload_session_of(body: Seq<char>) -> Option<Seq<char>>;

/// Relies on rusty_s3's `CreateMultipartUpload::parse_response` and
/// `CreateMultipartUploadResponse::upload_id`: parses the XML response to
/// a create-multipart-session request and hands out its upload id.
#[verifier::external_body]
fn parse_create_session(body: &str) -> (r: Result<String, String>)
    ensures
        match r {
            Ok(id) => upload_session_of(body@) == Some(id@),
            Err(_) => upload_session_of(body@) is None,
        },
{
    match rusty_s3::actions::CreateMultipartUpload::parse_response(body) {
        Ok(resp) => Ok(resp.upload_id().to_string()),
        Err(e) => Err(format!("{e}")),
    }
}

/// Reads the upload-session identifier from a create-session response
/// body; a body the protocol parser rejects is a protocol error.
pub fn parse_upload_session(body: &str) -> (r: Result<String, CoreError>)
    ensures
        r is Ok <==> upload_session_of(body@) is Some,
        r is Ok ==> upload_session_of(body@) == Some(r->Ok_0@),
        r is Err ==> r->Err_0 is Protocol,
{
    match parse_create_session(body) {
        Ok(id) => Ok(id),
        Err(m) => Err(CoreError::Protocol(m)),
    }
}

/// What rusty_s3 reads out of one page of a bucket listing: the object
/// keys in listing order and the continuation token of the next page, or
/// nothing for a body it rejects. A function of the body text alone.
pub uninterp spec fn list_page_of(body: Seq<char>) -> Option<(Seq<Seq<char>>, Option<Seq<char>>)>;

/// Relies on rusty_s3's `ListObjectsV2::parse_response`: parses one XML
/// page of a bucket listing into its object keys (the `Key` of each
/// `Contents` entry, in order) and its `NextContinuationToken`.
#[verifier::external_body]
fn parse_list_objects(body: &str) -> (r: Result<(Vec<String>, Option<String>), String>)
    ensures
        match r {
            Ok(page) => list_page_of(body@) == Some((page.0.deep_view(), page.1.deep_view())),
            Err(_) => list_page_of(body@) is None,
        },
{
    match rusty_s3::actions::ListObjectsV2::parse_response(body) {
        Ok(resp) => Ok((
            resp.contents.into_iter().map(|c| c.key).collect(),
            resp.next_continuation_token,
        )),
        Err(e) => Err(format!("{e}")),
    }
}

/// Parses one page of a bucket listing; a body the protocol parser
/// rejects is a protocol error.
pub fn parse_listing_page(body: &str) -> (r: Result<(Vec<String>, Option<String>), CoreError>)
    ensures
        r is Ok <==> list_page_of(body@) is Some,
        r is Ok ==> list_page_of(body@) == Some(
            ((r->Ok_0).0.deep_view(), (r->Ok_0).1.deep_view()),
        ),
        r is Err ==> r->Err_0 is Protocol,
{
    match parse_list_objects(body) {
        Ok(page) => Ok(page),
        Err(m) => Err(CoreError::Protocol(m)),
    }
}

} // verus!
