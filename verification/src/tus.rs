//! The tus 1.0.0 protocol, Core and Creation: which request comes next, and what the
//! server's answer means for the upload.
//!
//! Nothing here sends anything by itself. [`new_upload`] and [`continue_upload`] drive an
//! upload through a transport that the caller hands them as a function from a request to
//! the server's answer. A caller whose transport cannot be called in that way takes the
//! steps of the protocol one by one: [`creation_request`] and [`creation_response`] to
//! create the upload resource, then [`next_patch`] and [`patch_response`] for each chunk.

use vstd::prelude::*;
use vstd::string::StringExecFns;
use crate::blob::Blob;
use crate::chunk::{chunk_bytes, chunk_start, lemma_chunk_in_range};
use crate::error::UploadError;
use crate::metadata::{
    all_keys_valid, all_values_fit, encode_metadata, join_tokens, metadata_view, valid_key,
};
use crate::text::{decimal, decimal_digits};
use crate::upload::{lemma_transfer_resumes, unsent_indices, ResumableUpload, UploadState};

verus! {

/// The status with which the server answers a creation request that it accepts.
pub const STATUS_CREATED: u16 = 201;

/// The status with which the server acknowledges a chunk.
pub const STATUS_NO_CONTENT: u16 = 204;

/// A header of a request.
#[derive(Debug, Clone, PartialEq, Eq)]
pub struct Header {
    pub name: String,
    pub value: String,
}

/// The request that creates an upload resource: a POST to `href` with `headers` and an
/// empty body.
#[derive(Debug, Clone, PartialEq, Eq)]
pub struct CreationRequest {
    pub href: String,
    pub headers: Vec<Header>,
}

/// The server's answer to a creation request: its status, the value of its `Location`
/// header if it has one, and its body as text, as far as it could be read.
#[derive(Debug, Clone, PartialEq, Eq)]
pub struct CreationReply {
    pub status: u16,
    pub location: Option<String>,
    pub body: String,
}

/// The request that transfers one chunk: a PATCH to `location` with `headers` and the
/// bytes of chunk `index` as its body.
#[derive(Debug, Clone, PartialEq, Eq)]
pub struct PatchRequest<'a> {
    pub location: String,
    pub index: usize,
    pub headers: Vec<Header>,
    pub body: &'a [u8],
}

/// The names and values of a sequence of headers.
pub open spec fn headers_view(headers: Seq<Header>) -> Seq<(Seq<char>, Seq<char>)> {
    Seq::new(headers.len(), |i: int| (headers[i].name@, headers[i].value@))
}

/// The headers of the creation request for a blob of `size` bytes with the given
/// metadata. Without metadata there is no `Upload-Metadata` header.
pub open spec fn creation_headers(size: nat, metadata: Seq<(Seq<char>, Seq<u8>)>) -> Seq<
    (Seq<char>, Seq<char>),
> {
    let fixed = seq![
        ("Content-Length"@, "0"@),
        ("Upload-Length"@, decimal_digits(size)),
        ("Tus-Resumable"@, "1.0.0"@),
        ("Content-Type"@, "application/offset+octet-stream"@),
    ];
    if metadata.len() > 0 {
        fixed.push(("Upload-Metadata"@, join_tokens(metadata)))
    } else {
        fixed
    }
}

/// The headers of the request that transfers `len` bytes that stand at `offset` in the
/// blob.
pub open spec fn patch_headers(len: nat, offset: nat) -> Seq<(Seq<char>, Seq<char>)> {
    seq![
        ("Content-Length"@, decimal_digits(len)),
        ("Upload-Offset"@, decimal_digits(offset)),
        ("Content-Type"@, "application/offset+octet-stream"@),
        ("Tus-Resumable"@, "1.0.0"@),
    ]
}

/// Whether `request` is the creation request to the server at `href` for a blob of `size`
/// bytes with the given metadata.
pub open spec fn is_creation_request(
    request: CreationRequest,
    href: Seq<char>,
    size: nat,
    metadata: Seq<(Seq<char>, Seq<u8>)>,
) -> bool {
    &&& request.href@ == href
    &&& headers_view(request.headers@) == creation_headers(size, metadata)
}

/// Whether `request` is the request that transfers chunk `index` of a blob of `bytes`, cut
/// into chunks of `chunk_sz` bytes, to the resource at `location`. Its offset is the index
/// times the chunk size.
pub open spec fn is_patch_request(
    request: PatchRequest,
    location: Seq<char>,
    bytes: Seq<u8>,
    chunk_sz: int,
    index: int,
) -> bool {
    &&& request.index == index
    &&& request.location@ == location
    &&& request.body@ == chunk_bytes(bytes, index as nat, chunk_sz as nat)
    &&& headers_view(request.headers@) == patch_headers(
        request.body@.len(),
        (index * chunk_sz) as nat,
    )
}

/// What the server's answer to the creation request means. With status 201 and a
/// `Location` header the upload resource exists, and its URL is the value of the header as
/// the server gave it. With status 201 and no `Location` header the answer breaks the
/// protocol. With any other status the server has rejected the creation: the error holds
/// the status and the body of the answer.
pub open spec fn creation_outcome(reply: CreationReply) -> Result<String, UploadError> {
    if reply.status == STATUS_CREATED {
        match reply.location {
            Some(url) => Ok(url),
            None => Err(UploadError::ProtocolError),
        }
    } else {
        Err(UploadError::CreationRejected { status: reply.status, body: reply.body })
    }
}

/// What the transport's answer to the creation request means: a failure of the transport
/// is a transport error, and an answer of the server means what [`creation_outcome`] says.
pub open spec fn creation_result(reply: Result<CreationReply, String>) -> Result<
    String,
    UploadError,
> {
    match reply {
        Ok(answer) => creation_outcome(answer),
        Err(message) => Err(UploadError::TransportError { message }),
    }
}

/// What the transport's answer to the request for chunk `index` means: a failure of the
/// transport is a transport error, status 204 acknowledges the chunk, and any other
/// status rejects it.
pub open spec fn patch_result(index: usize, reply: Result<u16, String>) -> Result<
    (),
    UploadError,
> {
    match reply {
        Ok(status) => if status == STATUS_NO_CONTENT {
            Ok(())
        } else {
            Err(UploadError::ChunkRejected { index, status })
        },
        Err(message) => Err(UploadError::TransportError { message }),
    }
}

/// Whether `reply` is what a call of `post` on the creation request may have returned.
pub open spec fn posted<F: FnOnce(CreationRequest) -> Result<CreationReply, String>>(
    post: F,
    href: Seq<char>,
    size: nat,
    metadata: Seq<(Seq<char>, Seq<u8>)>,
    reply: Result<CreationReply, String>,
) -> bool {
    exists|request: CreationRequest|
        is_creation_request(request, href, size, metadata) && #[trigger] call_ensures(
            post,
            (request,),
            reply,
        )
}

/// Whether `reply` is what a call of `patch` on the request for chunk `index` may have
/// returned.
pub open spec fn patched<'a, F: Fn(PatchRequest<'a>) -> Result<u16, String>>(
    patch: F,
    location: Seq<char>,
    bytes: Seq<u8>,
    chunk_sz: int,
    index: int,
    reply: Result<u16, String>,
) -> bool {
    exists|request: PatchRequest<'a>|
        is_patch_request(request, location, bytes, chunk_sz, index) && #[trigger] call_ensures(
            patch,
            (request,),
            reply,
        )
}

fn header(name: &str, value: String) -> (made: Header)
    ensures
        made.name@ == name@,
        made.value@ == value@,
{
    Header { name: String::from_str(name), value }
}

/// Prepares a new upload of `file` to the server at `href`: the upload, with no chunk
/// acknowledged, and the creation request to send.
///
/// A chunk size that is not positive is refused. With a positive chunk size the
/// metadata is refused as [`encode_metadata`] refuses it.
pub fn creation_request<'a>(
    file: &'a Blob,
    href: &str,
    chunk_sz: i32,
    metadata: &[(&str, &str)],
) -> (prepared: Result<(ResumableUpload<'a>, CreationRequest), UploadError>)
    ensures
        chunk_sz <= 0 ==> prepared == Err::<(ResumableUpload<'a>, CreationRequest), UploadError>(
            UploadError::InvalidArgument,
        ),
        chunk_sz > 0 ==> match prepared {
            Ok((upload, request)) => {
                &&& all_keys_valid(metadata_view(metadata@))
                &&& all_values_fit(metadata_view(metadata@))
                &&& upload.wf()
                &&& upload.blob() == file
                &&& upload@ == UploadState::fresh(file@, chunk_sz as int)
                &&& is_creation_request(request, href@, file@.len(), metadata_view(metadata@))
            },
            Err(UploadError::InvalidMetadataKey { index }) => {
                &&& index < metadata@.len()
                &&& !valid_key(metadata@[index as int].0@)
                &&& forall|j: int| 0 <= j < index ==> valid_key(#[trigger] metadata@[j].0@)
            },
            Err(UploadError::InvalidArgument) => {
                &&& all_keys_valid(metadata_view(metadata@))
                &&& !all_values_fit(metadata_view(metadata@))
            },
            Err(_) => false,
        },
{
    if chunk_sz <= 0 {
        return Err(UploadError::InvalidArgument);
    }
    let encoded = match encode_metadata(metadata) {
        Ok(text) => text,
        Err(e) => {
            return Err(e);
        },
    };
    let upload = match ResumableUpload::new(file, chunk_sz) {
        Ok(upload) => upload,
        Err(e) => {
            return Err(e);
        },
    };
    let mut headers: Vec<Header> = Vec::new();
    headers.push(header("Content-Length", String::from_str("0")));
    headers.push(header("Upload-Length", decimal(upload.size() as u64)));
    headers.push(header("Tus-Resumable", String::from_str("1.0.0")));
    headers.push(header("Content-Type", String::from_str("application/offset+octet-stream")));
    if metadata.len() > 0 {
        headers.push(header("Upload-Metadata", encoded));
    }
    let request = CreationRequest { href: String::from_str(href), headers };
    assert(headers_view(request.headers@) =~= creation_headers(
        file@.len(),
        metadata_view(metadata@),
    ));
    Ok((upload, request))
}

/// The URL of the upload resource that the server has created, or the error that its
/// answer to the creation request amounts to.
pub fn creation_response(reply: CreationReply) -> (resource: Result<String, UploadError>)
    ensures
        resource == creation_outcome(reply),
{
    if reply.status != STATUS_CREATED {
        return Err(UploadError::CreationRejected { status: reply.status, body: reply.body });
    }
    match reply.location {
        Some(url) => Ok(url),
        None => Err(UploadError::ProtocolError),
    }
}

/// The next request of the transfer of `upload` to the resource at `location`: the
/// request for the first chunk that is not acknowledged, or `None` when every chunk is
/// acknowledged and the transfer is complete.
///
/// The request tells the server the offset of the chunk in the blob, which is the index
/// of the chunk times the chunk size, and the length of its body.
pub fn next_patch<'a>(upload: &ResumableUpload<'a>, location: &str) -> (next: Option<
    PatchRequest<'a>,
>)
    requires
        upload.wf(),
    ensures
        match next {
            None => {
                &&& forall|i: int| 0 <= i < upload@.sent.len() ==> upload@.sent[i]
                &&& unsent_indices(upload@.sent).len() == 0
            },
            Some(request) => {
                &&& request.index < upload@.sent.len()
                &&& !upload@.sent[request.index as int]
                &&& forall|i: int| 0 <= i < request.index ==> upload@.sent[i]
                &&& unsent_indices(upload@.sent).len() > 0
                &&& request.index == unsent_indices(upload@.sent)[0]
                &&& is_patch_request(
                    request,
                    location@,
                    upload.blob()@,
                    upload@.chunk_sz,
                    request.index as int,
                )
            },
        },
{
    let unsent = upload.first_unsent();
    match unsent {
        None => None,
        Some(chunk) => {
            let chunk_sz = upload.chunk_size() as usize;
            proof {
                upload.blob().lemma_size_bounded();
                lemma_chunk_in_range(upload.blob()@.len(), chunk_sz as nat, chunk.index as nat);
                assert(chunk.index * chunk_sz == chunk_start(chunk.index as nat, chunk_sz as nat));
            }
            let offset = chunk.index * chunk_sz;
            let mut headers: Vec<Header> = Vec::new();
            headers.push(header("Content-Length", decimal(chunk.bytes.len() as u64)));
            headers.push(header("Upload-Offset", decimal(offset as u64)));
            headers.push(header("Content-Type", String::from_str("application/offset+octet-stream")));
            headers.push(header("Tus-Resumable", String::from_str("1.0.0")));
            let request = PatchRequest {
                location: String::from_str(location),
                index: chunk.index,
                headers,
                body: chunk.bytes,
            };
            assert(headers_view(request.headers@) =~= patch_headers(
                request.body@.len(),
                (request.index * upload@.chunk_sz) as nat,
            ));
            Some(request)
        },
    }
}

/// What the server's answer to the request for chunk `index` means. With status 204 the
/// chunk is acknowledged. With any other status the chunk is rejected and the upload
/// stays as it was, so that the transfer can be taken up again later.
pub fn patch_response(upload: &mut ResumableUpload, index: usize, status: u16) -> (outcome: Result<
    (),
    UploadError,
>)
    requires
        old(upload).wf(),
        index < old(upload)@.sent.len(),
    ensures
        final(upload).wf(),
        final(upload).blob() == old(upload).blob(),
        old(upload)@.progressed_to(final(upload)@),
        status == STATUS_NO_CONTENT ==> outcome == Ok::<(), UploadError>(()) && final(upload)@
            == old(upload)@.acknowledge(index as int),
        status != STATUS_NO_CONTENT ==> outcome == Err::<(), UploadError>(
            UploadError::ChunkRejected { index, status },
        ) && final(upload)@ == old(upload)@,
        outcome == patch_result(index, Ok(status)),
{
    if status != STATUS_NO_CONTENT {
        return Err(UploadError::ChunkRejected { index, status });
    }
    upload.sent_ok(index);
    Ok(())
}

/// Registers a new upload of `file` with the server at `href`, through the transport
/// `post`: the upload, with no chunk acknowledged, and the URL of the upload resource that
/// the server has created.
///
/// A chunk size that is not positive is refused, and then the metadata if
/// [`encode_metadata`] refuses it: in both cases nothing is sent. Otherwise the creation
/// request is sent once, and the outcome is what the answer amounts to.
pub fn new_upload<'a, F>(
    file: &'a Blob,
    href: &str,
    chunk_sz: i32,
    metadata: &[(&str, &str)],
    post: F,
) -> (created: Result<(ResumableUpload<'a>, String), UploadError>) where
    F: FnOnce(CreationRequest) -> Result<CreationReply, String>,

    requires
        forall|request: CreationRequest|
            is_creation_request(request, href@, file@.len(), metadata_view(metadata@))
                ==> call_requires(post, (request,)),
    ensures
        chunk_sz <= 0 ==> created == Err::<(ResumableUpload<'a>, String), UploadError>(
            UploadError::InvalidArgument,
        ),
        chunk_sz > 0 ==> match created {
            Ok((upload, location)) => {
                &&& all_keys_valid(metadata_view(metadata@))
                &&& all_values_fit(metadata_view(metadata@))
                &&& upload.wf()
                &&& upload.blob() == file
                &&& upload@ == UploadState::fresh(file@, chunk_sz as int)
                &&& exists|reply: Result<CreationReply, String>|
                    #[trigger] posted(
                        post,
                        href@,
                        file@.len(),
                        metadata_view(metadata@),
                        reply,
                    ) && creation_result(reply) == Ok::<String, UploadError>(location)
            },
            Err(UploadError::InvalidMetadataKey { index }) => {
                &&& index < metadata@.len()
                &&& !valid_key(metadata@[index as int].0@)
                &&& forall|j: int| 0 <= j < index ==> valid_key(#[trigger] metadata@[j].0@)
            },
            Err(UploadError::InvalidArgument) => {
                &&& all_keys_valid(metadata_view(metadata@))
                &&& !all_values_fit(metadata_view(metadata@))
            },
            Err(e) => {
                &&& all_keys_valid(metadata_view(metadata@))
                &&& all_values_fit(metadata_view(metadata@))
                &&& exists|reply: Result<CreationReply, String>|
                    #[trigger] posted(
                        post,
                        href@,
                        file@.len(),
                        metadata_view(metadata@),
                        reply,
                    ) && creation_result(reply) == Err::<String, UploadError>(e)
            },
        },
{
    let (upload, request) = match creation_request(file, href, chunk_sz, metadata) {
        Ok(prepared) => prepared,
        Err(e) => {
            return Err(e);
        },
    };
    let reply = post(request);
    assert(posted(post, href@, file@.len(), metadata_view(metadata@), reply));
    match reply {
        Ok(answer) => match creation_response(answer) {
            Ok(location) => Ok((upload, location)),
            Err(e) => Err(e),
        },
        Err(message) => Err(UploadError::TransportError { message }),
    }
}

/// Transfers to the resource at `location`, through the transport `patch`, the chunks of
/// `upload` that are not acknowledged, one after the other in increasing order of index.
/// A chunk that the server answers with status 204 is acknowledged, and the transfer goes
/// on with the next. With any other answer, or when the transport fails, the transfer
/// stops with the error that the answer amounts to: the chunks that were acknowledged stay
/// so, the chunk that failed and those after it are as they were, and a later call takes
/// the transfer up again at the chunk that failed.
pub fn continue_upload<'a, F>(upload: &mut ResumableUpload<'a>, location: &str, patch: F) -> (outcome:
    Result<(), UploadError>) where F: Fn(PatchRequest<'a>) -> Result<u16, String>
    requires
        old(upload).wf(),
        forall|request: PatchRequest<'a>, index: int|
            0 <= index < old(upload)@.sent.len() && is_patch_request(
                request,
                location@,
                old(upload).blob()@,
                old(upload)@.chunk_sz,
                index,
            ) ==> call_requires(patch, (request,)),
    ensures
        final(upload).wf(),
        final(upload).blob() == old(upload).blob(),
        old(upload)@.progressed_to(final(upload)@),
        forall|i: int|
            0 <= i < old(upload)@.sent.len() && !old(upload)@.sent[i] && final(upload)@.sent[i]
                ==> #[trigger] patched(
                patch,
                location@,
                old(upload).blob()@,
                old(upload)@.chunk_sz,
                i,
                Ok(STATUS_NO_CONTENT),
            ),
        match outcome {
            Ok(()) => forall|i: int| 0 <= i < final(upload)@.sent.len() ==> final(upload)@.sent[i],
            Err(e) => {
                &&& unsent_indices(final(upload)@.sent).len() > 0
                &&& forall|i: int|
                    unsent_indices(final(upload)@.sent)[0] <= i < final(upload)@.sent.len()
                        ==> final(upload)@.sent[i] == old(upload)@.sent[i]
                &&& exists|reply: Result<u16, String>|
                    #[trigger] patched(
                        patch,
                        location@,
                        old(upload).blob()@,
                        old(upload)@.chunk_sz,
                        unsent_indices(final(upload)@.sent)[0],
                        reply,
                    ) && patch_result(unsent_indices(final(upload)@.sent)[0] as usize, reply)
                        == Err::<(), UploadError>(e)
            },
        },
{
    loop
        invariant
            upload.wf(),
            upload.blob() == old(upload).blob(),
            old(upload)@.progressed_to(upload@),
            forall|request: PatchRequest<'a>, index: int|
                0 <= index < old(upload)@.sent.len() && is_patch_request(
                    request,
                    location@,
                    old(upload).blob()@,
                    old(upload)@.chunk_sz,
                    index,
                ) ==> call_requires(patch, (request,)),
            forall|i: int|
                0 <= i < old(upload)@.sent.len() && !old(upload)@.sent[i] && upload@.sent[i]
                    ==> #[trigger] patched(
                    patch,
                    location@,
                    old(upload).blob()@,
                    old(upload)@.chunk_sz,
                    i,
                    Ok(STATUS_NO_CONTENT),
                ),
            forall|i: int, j: int|
                0 <= j <= i < upload@.sent.len() && !upload@.sent[j] ==> upload@.sent[i] == old(
                    upload,
                )@.sent[i],
        decreases unsent_indices(upload@.sent).len(),
    {
        let ghost before = upload@;
        match next_patch(upload, location) {
            None => {
                return Ok(());
            },
            Some(request) => {
                let index = request.index;
                let reply = patch(request);
                assert(patched(
                    patch,
                    location@,
                    old(upload).blob()@,
                    old(upload)@.chunk_sz,
                    index as int,
                    reply,
                ));
                match reply {
                    Ok(status) => {
                        match patch_response(upload, index, status) {
                            Ok(()) => {
                                proof {
                                    lemma_transfer_resumes(before.sent);
                                }
                            },
                            Err(e) => {
                                return Err(e);
                            },
                        }
                    },
                    Err(message) => {
                        return Err(UploadError::TransportError { message });
                    },
                }
            },
        }
    }
}

} // verus!
