use std::cell::RefCell;

use resumable::blob::Blob;
use resumable::error::UploadError;
use resumable::tus::{
    continue_upload, creation_request, creation_response, new_upload, next_patch, patch_response,
    CreationReply, CreationRequest, Header, PatchRequest, STATUS_CREATED, STATUS_NO_CONTENT,
};
use resumable::upload::{ResumableUpload, ResumableUploadData};

const HREF: &str = "http://localhost:1080/files/";
const LOCATION: &str = "http://localhost:1080/files/24e533e02ec3bc40c387f1a0e460e216";

fn blah() -> Blob {
    Blob::new(Some("blah.txt".to_string()), "blah".repeat(5).into_bytes()).unwrap()
}

fn pairs(headers: &[Header]) -> Vec<(&str, &str)> {
    headers.iter().map(|h| (h.name.as_str(), h.value.as_str())).collect()
}

fn value<'a>(headers: &'a [Header], name: &str) -> Option<&'a str> {
    let found: Vec<&Header> = headers.iter().filter(|h| h.name == name).collect();
    assert!(found.len() <= 1);
    found.first().map(|h| h.value.as_str())
}

fn created(location: &str) -> Result<CreationReply, String> {
    Ok(CreationReply {
        status: 201,
        location: Some(location.to_string()),
        body: String::new(),
    })
}

/// What a server saw of a PATCH request.
#[derive(Debug, Clone, PartialEq, Eq)]
struct Seen {
    location: String,
    index: usize,
    offset: String,
    content_length: String,
    body: Vec<u8>,
}

fn record(seen: &RefCell<Vec<Seen>>, request: &PatchRequest) {
    assert_eq!(
        pairs(&request.headers),
        vec![
            ("Content-Length", request.body.len().to_string().as_str()),
            ("Upload-Offset", value(&request.headers, "Upload-Offset").unwrap()),
            ("Content-Type", "application/offset+octet-stream"),
            ("Tus-Resumable", "1.0.0"),
        ]
    );
    seen.borrow_mut().push(Seen {
        location: request.location.clone(),
        index: request.index,
        offset: value(&request.headers, "Upload-Offset").unwrap().to_string(),
        content_length: value(&request.headers, "Content-Length").unwrap().to_string(),
        body: request.body.to_vec(),
    });
}

#[test]
fn status_constants() {
    assert_eq!(STATUS_CREATED, 201);
    assert_eq!(STATUS_NO_CONTENT, 204);
}

#[test]
fn creation_request_has_the_protocol_headers_in_order() {
    let file = blah();
    let (upload, request) = creation_request(&file, HREF, 4, &[]).unwrap();
    assert_eq!(request.href, HREF);
    assert_eq!(
        pairs(&request.headers),
        vec![
            ("Content-Length", "0"),
            ("Upload-Length", "20"),
            ("Tus-Resumable", "1.0.0"),
            ("Content-Type", "application/offset+octet-stream"),
        ]
    );
    assert_eq!(upload.chunks(), 5);
    assert_eq!(upload.sent(), 0);
    assert_eq!(upload.chunk_size(), 4);
}

#[test]
fn creation_request_without_metadata_has_no_metadata_header() {
    let file = blah();
    let (_, request) = creation_request(&file, HREF, 4, &[]).unwrap();
    assert_eq!(value(&request.headers, "Upload-Metadata"), None);
    assert_eq!(request.headers.len(), 4);
}

#[test]
fn creation_request_with_metadata() {
    let file = blah();
    let metadata = [("filename", "blah.txt"), ("type", "text/plain")];
    let (_, request) = creation_request(&file, HREF, 4, &metadata).unwrap();
    assert_eq!(
        pairs(&request.headers),
        vec![
            ("Content-Length", "0"),
            ("Upload-Length", "20"),
            ("Tus-Resumable", "1.0.0"),
            ("Content-Type", "application/offset+octet-stream"),
            ("Upload-Metadata", "filename YmxhaC50eHQ=,type dGV4dC9wbGFpbg=="),
        ]
    );
}

#[test]
fn creation_request_refuses_a_chunk_size_that_is_not_positive() {
    let file = blah();
    for chunk_sz in [0, -1, i32::MIN] {
        assert_eq!(
            creation_request(&file, HREF, chunk_sz, &[]).unwrap_err(),
            UploadError::InvalidArgument
        );
        assert_eq!(
            creation_request(&file, HREF, chunk_sz, &[("bad key", "x")]).unwrap_err(),
            UploadError::InvalidArgument
        );
    }
}

#[test]
fn creation_request_refuses_an_invalid_metadata_key() {
    let file = blah();
    assert_eq!(
        creation_request(&file, HREF, 4, &[("filename", "a"), ("content type", "b")]).unwrap_err(),
        UploadError::InvalidMetadataKey { index: 1 }
    );
    assert_eq!(
        creation_request(&file, HREF, 4, &[("a,b", "c")]).unwrap_err(),
        UploadError::InvalidMetadataKey { index: 0 }
    );
}

#[test]
fn creation_response_with_201_gives_the_location_verbatim() {
    for location in [LOCATION, "/files/abc", "abc", "//host/files/abc?x=1#y", ""] {
        let reply = CreationReply {
            status: 201,
            location: Some(location.to_string()),
            body: "ignored".to_string(),
        };
        assert_eq!(creation_response(reply).unwrap(), location);
    }
}

#[test]
fn creation_response_with_201_and_no_location_breaks_the_protocol() {
    let reply = CreationReply { status: 201, location: None, body: String::new() };
    assert_eq!(creation_response(reply).unwrap_err(), UploadError::ProtocolError);
}

#[test]
fn creation_response_with_another_status_is_a_rejection() {
    for status in [200u16, 202, 204, 301, 400, 404, 412, 500, 0, u16::MAX] {
        let reply = CreationReply {
            status,
            location: Some(LOCATION.to_string()),
            body: "no room".to_string(),
        };
        assert_eq!(
            creation_response(reply).unwrap_err(),
            UploadError::CreationRejected { status, body: "no room".to_string() }
        );
        let bare = CreationReply { status, location: None, body: String::new() };
        assert_eq!(
            creation_response(bare).unwrap_err(),
            UploadError::CreationRejected { status, body: String::new() }
        );
    }
}

#[test]
fn new_upload_posts_once_and_returns_the_location() {
    let file = blah();
    let mut posted: Vec<CreationRequest> = Vec::new();
    let (upload, location) = new_upload(&file, HREF, 3, &[("filename", "blah.txt")], |request| {
        posted.push(request);
        created("/files/xyz")
    })
    .unwrap();
    assert_eq!(location, "/files/xyz");
    assert_eq!(upload.chunks(), 7);
    assert_eq!(upload.sent(), 0);
    assert_eq!(posted.len(), 1);
    assert_eq!(posted[0].href, HREF);
    assert_eq!(
        pairs(&posted[0].headers),
        vec![
            ("Content-Length", "0"),
            ("Upload-Length", "20"),
            ("Tus-Resumable", "1.0.0"),
            ("Content-Type", "application/offset+octet-stream"),
            ("Upload-Metadata", "filename YmxhaC50eHQ="),
        ]
    );
}

#[test]
fn new_upload_sends_nothing_when_its_arguments_are_refused() {
    let file = blah();
    let mut calls = 0;
    let refused = new_upload(&file, HREF, 0, &[], |_| {
        calls += 1;
        created(LOCATION)
    });
    assert_eq!(refused.unwrap_err(), UploadError::InvalidArgument);
    let refused = new_upload(&file, HREF, 4, &[("a b", "c")], |_| {
        calls += 1;
        created(LOCATION)
    });
    assert_eq!(refused.unwrap_err(), UploadError::InvalidMetadataKey { index: 0 });
    assert_eq!(calls, 0);
}

#[test]
fn new_upload_passes_on_what_the_answer_amounts_to() {
    let file = blah();
    let rejected = new_upload(&file, HREF, 4, &[], |_| {
        Ok(CreationReply { status: 413, location: None, body: "too large".to_string() })
    });
    assert_eq!(
        rejected.unwrap_err(),
        UploadError::CreationRejected { status: 413, body: "too large".to_string() }
    );
    let broken = new_upload(&file, HREF, 4, &[], |_| {
        Ok(CreationReply { status: 201, location: None, body: String::new() })
    });
    assert_eq!(broken.unwrap_err(), UploadError::ProtocolError);
    let failed = new_upload(&file, HREF, 4, &[], |_| Err("connection refused".to_string()));
    assert_eq!(
        failed.unwrap_err(),
        UploadError::TransportError { message: "connection refused".to_string() }
    );
}

#[test]
fn transfer_in_chunks_of_four() {
    let file = blah();
    let mut upload = ResumableUpload::new(&file, 4).unwrap();
    let seen = RefCell::new(Vec::new());
    let outcome = continue_upload(&mut upload, LOCATION, |request| {
        record(&seen, &request);
        Ok(204)
    });
    assert_eq!(outcome, Ok(()));
    let seen = seen.into_inner();
    assert_eq!(seen.len(), 5);
    let offsets: Vec<&str> = seen.iter().map(|s| s.offset.as_str()).collect();
    assert_eq!(offsets, vec!["0", "4", "8", "12", "16"]);
    for (i, request) in seen.iter().enumerate() {
        assert_eq!(request.index, i);
        assert_eq!(request.body, b"blah");
        assert_eq!(request.content_length, "4");
        assert_eq!(request.location, LOCATION);
    }
    assert_eq!(upload.sent(), 5);
}

#[test]
fn transfer_in_chunks_of_three() {
    let file = blah();
    let mut upload = ResumableUpload::new(&file, 3).unwrap();
    let seen = RefCell::new(Vec::new());
    let outcome = continue_upload(&mut upload, LOCATION, |request| {
        record(&seen, &request);
        Ok(204)
    });
    assert_eq!(outcome, Ok(()));
    let seen = seen.into_inner();
    assert_eq!(seen.len(), 7);
    let offsets: Vec<&str> = seen.iter().map(|s| s.offset.as_str()).collect();
    assert_eq!(offsets, vec!["0", "3", "6", "9", "12", "15", "18"]);
    let lengths: Vec<usize> = seen.iter().map(|s| s.body.len()).collect();
    assert_eq!(lengths, vec![3, 3, 3, 3, 3, 3, 2]);
    let announced: Vec<&str> = seen.iter().map(|s| s.content_length.as_str()).collect();
    assert_eq!(announced, vec!["3", "3", "3", "3", "3", "3", "2"]);
    let sent: Vec<u8> = seen.iter().flat_map(|s| s.body.clone()).collect();
    assert_eq!(sent, file.bytes());
    assert_eq!(upload.sent(), 7);
}

#[test]
fn transfer_stops_at_a_rejected_chunk_and_resumes_there() {
    let file = blah();
    let mut upload = ResumableUpload::new(&file, 4).unwrap();
    let seen = RefCell::new(Vec::new());
    let outcome = continue_upload(&mut upload, LOCATION, |request| {
        record(&seen, &request);
        if request.index == 2 {
            Ok(500)
        } else {
            Ok(204)
        }
    });
    assert_eq!(outcome, Err(UploadError::ChunkRejected { index: 2, status: 500 }));
    assert_eq!(upload.as_data().sent(), &[true, true, false, false, false][..]);
    let first_pass: Vec<usize> = seen.borrow().iter().map(|s| s.index).collect();
    assert_eq!(first_pass, vec![0, 1, 2]);

    let seen = RefCell::new(Vec::new());
    let outcome = continue_upload(&mut upload, LOCATION, |request| {
        record(&seen, &request);
        Ok(204)
    });
    assert_eq!(outcome, Ok(()));
    let seen = seen.into_inner();
    let indices: Vec<usize> = seen.iter().map(|s| s.index).collect();
    assert_eq!(indices, vec![2, 3, 4]);
    let offsets: Vec<&str> = seen.iter().map(|s| s.offset.as_str()).collect();
    assert_eq!(offsets, vec!["8", "12", "16"]);
    assert_eq!(upload.sent(), 5);
}

#[test]
fn transfer_issues_only_the_remaining_chunks_after_an_interruption() {
    let file = Blob::new(None, (0u8..=99).collect()).unwrap();
    for chunk_sz in [1, 7, 10, 33, 99, 100] {
        for failing in 0..(100 + chunk_sz as usize - 1) / chunk_sz as usize {
            let mut upload = ResumableUpload::new(&file, chunk_sz).unwrap();
            let n = upload.nchunks();
            let outcome = continue_upload(&mut upload, LOCATION, |request| {
                Ok(if request.index == failing { 503 } else { 204 })
            });
            assert_eq!(outcome, Err(UploadError::ChunkRejected { index: failing, status: 503 }));
            let m = upload.sent() as usize;
            assert_eq!(m, failing);
            let seen = RefCell::new(Vec::new());
            let outcome = continue_upload(&mut upload, LOCATION, |request| {
                record(&seen, &request);
                Ok(204)
            });
            assert_eq!(outcome, Ok(()));
            let seen = seen.into_inner();
            assert_eq!(seen.len(), n - m);
            for (k, request) in seen.iter().enumerate() {
                assert_eq!(request.index, m + k);
                assert_eq!(request.offset, ((m + k) * chunk_sz as usize).to_string());
            }
            assert_eq!(upload.sent() as usize, n);
        }
    }
}

#[test]
fn transfer_of_an_empty_blob_sends_nothing() {
    let file = Blob::new(Some("empty".to_string()), Vec::new()).unwrap();
    let mut posted: Vec<CreationRequest> = Vec::new();
    let (mut upload, location) = new_upload(&file, HREF, 4, &[], |request| {
        posted.push(request);
        created(LOCATION)
    })
    .unwrap();
    assert_eq!(value(&posted[0].headers, "Upload-Length"), Some("0"));
    assert_eq!(upload.nchunks(), 0);
    let calls = RefCell::new(0);
    let outcome = continue_upload(&mut upload, &location, |_| {
        *calls.borrow_mut() += 1;
        Ok(204)
    });
    assert_eq!(outcome, Ok(()));
    assert_eq!(calls.into_inner(), 0);
    assert!(next_patch(&upload, &location).is_none());
}

#[test]
fn transfer_stops_when_the_transport_fails() {
    let file = blah();
    let mut upload = ResumableUpload::new(&file, 4).unwrap();
    let calls = RefCell::new(0);
    let outcome = continue_upload(&mut upload, LOCATION, |request| {
        *calls.borrow_mut() += 1;
        if request.index == 1 {
            Err("timed out".to_string())
        } else {
            Ok(204)
        }
    });
    assert_eq!(outcome, Err(UploadError::TransportError { message: "timed out".to_string() }));
    assert_eq!(calls.into_inner(), 2);
    assert_eq!(upload.as_data().sent(), &[true, false, false, false, false][..]);
}

#[test]
fn transfer_passes_over_acknowledged_chunks() {
    let file = blah();
    let mut upload = ResumableUpload::new(&file, 4).unwrap();
    upload.sent_ok(1);
    upload.sent_ok(2);
    upload.sent_ok(4);
    let seen = RefCell::new(Vec::new());
    let outcome = continue_upload(&mut upload, LOCATION, |request| {
        record(&seen, &request);
        Ok(204)
    });
    assert_eq!(outcome, Ok(()));
    let indices: Vec<usize> = seen.borrow().iter().map(|s| s.index).collect();
    assert_eq!(indices, vec![0, 3]);
    let calls = RefCell::new(0);
    let again = continue_upload(&mut upload, LOCATION, |_| {
        *calls.borrow_mut() += 1;
        Ok(204)
    });
    assert_eq!(again, Ok(()));
    assert_eq!(calls.into_inner(), 0);
}

#[test]
fn any_status_but_204_rejects_the_chunk() {
    let file = blah();
    for status in [200u16, 201, 203, 205, 404, 409, 460, 500, 0, u16::MAX] {
        let mut upload = ResumableUpload::new(&file, 4).unwrap();
        let outcome = continue_upload(&mut upload, LOCATION, |_| Ok(status));
        assert_eq!(outcome, Err(UploadError::ChunkRejected { index: 0, status }));
        assert_eq!(upload.sent(), 0);
    }
}

#[test]
fn next_patch_is_the_request_for_the_first_unsent_chunk() {
    let file = blah();
    let mut upload = ResumableUpload::new(&file, 3).unwrap();
    let request = next_patch(&upload, LOCATION).unwrap();
    assert_eq!(request.index, 0);
    assert_eq!(request.location, LOCATION);
    assert_eq!(request.body, b"bla");
    assert_eq!(
        pairs(&request.headers),
        vec![
            ("Content-Length", "3"),
            ("Upload-Offset", "0"),
            ("Content-Type", "application/offset+octet-stream"),
            ("Tus-Resumable", "1.0.0"),
        ]
    );
    let same = next_patch(&upload, LOCATION).unwrap();
    assert_eq!(same, request);
    for index in 0..6 {
        upload.sent_ok(index);
    }
    let last = next_patch(&upload, LOCATION).unwrap();
    assert_eq!(last.index, 6);
    assert_eq!(last.body, b"ah");
    assert_eq!(
        pairs(&last.headers),
        vec![
            ("Content-Length", "2"),
            ("Upload-Offset", "18"),
            ("Content-Type", "application/offset+octet-stream"),
            ("Tus-Resumable", "1.0.0"),
        ]
    );
    upload.sent_ok(6);
    assert!(next_patch(&upload, LOCATION).is_none());
}

#[test]
fn upload_offset_of_a_large_blob() {
    let file = Blob::new(None, vec![7u8; 250_000]).unwrap();
    let mut upload = ResumableUpload::new(&file, 100_000).unwrap();
    upload.sent_ok(0);
    upload.sent_ok(1);
    let request = next_patch(&upload, LOCATION).unwrap();
    assert_eq!(value(&request.headers, "Upload-Offset"), Some("200000"));
    assert_eq!(value(&request.headers, "Content-Length"), Some("50000"));
    assert_eq!(request.body.len(), 50_000);
}

#[test]
fn patch_response_acknowledges_on_204_only() {
    let file = blah();
    let mut upload = ResumableUpload::new(&file, 4).unwrap();
    assert_eq!(patch_response(&mut upload, 0, 204), Ok(()));
    assert_eq!(upload.as_data().sent(), &[true, false, false, false, false][..]);
    assert_eq!(
        patch_response(&mut upload, 1, 500),
        Err(UploadError::ChunkRejected { index: 1, status: 500 })
    );
    assert_eq!(
        patch_response(&mut upload, 0, 404),
        Err(UploadError::ChunkRejected { index: 0, status: 404 })
    );
    assert_eq!(upload.as_data().sent(), &[true, false, false, false, false][..]);
    assert_eq!(patch_response(&mut upload, 1, 204), Ok(()));
    assert_eq!(upload.sent(), 2);
}

#[test]
fn steps_taken_one_by_one_transfer_the_blob() {
    let file = blah();
    let (mut upload, request) = creation_request(&file, HREF, 4, &[]).unwrap();
    assert_eq!(value(&request.headers, "Upload-Length"), Some("20"));
    let location =
        creation_response(CreationReply { status: 201, location: Some("/files/1".to_string()), body: String::new() })
            .unwrap();
    let mut received: Vec<u8> = Vec::new();
    let mut offsets: Vec<String> = Vec::new();
    while let Some(request) = next_patch(&upload, &location) {
        offsets.push(value(&request.headers, "Upload-Offset").unwrap().to_string());
        received.extend_from_slice(request.body);
        patch_response(&mut upload, request.index, 204).unwrap();
    }
    assert_eq!(offsets, vec!["0", "4", "8", "12", "16"]);
    assert_eq!(received, file.bytes());
    assert_eq!(upload.sent(), upload.chunks());
}

#[test]
fn interrupted_transfer_resumes_after_being_stored() {
    let file = blah();
    let mut upload = ResumableUpload::new(&file, 4).unwrap();
    let outcome = continue_upload(&mut upload, LOCATION, |request| {
        Ok(if request.index < 3 { 204 } else { 502 })
    });
    assert_eq!(outcome, Err(UploadError::ChunkRejected { index: 3, status: 502 }));
    let stored = upload.serialize();

    let later = Blob::new(None, "blah".repeat(5).into_bytes()).unwrap();
    let mut resumed = ResumableUploadData::deserialize(&stored).unwrap().enliven(&later).unwrap();
    let seen = RefCell::new(Vec::new());
    let outcome = continue_upload(&mut resumed, LOCATION, |request| {
        record(&seen, &request);
        Ok(204)
    });
    assert_eq!(outcome, Ok(()));
    let indices: Vec<usize> = seen.borrow().iter().map(|s| s.index).collect();
    assert_eq!(indices, vec![3, 4]);
    assert_eq!(resumed.sent(), 5);
}

#[test]
fn rehydrate_of_an_altered_blob_fails_before_any_request() {
    let file = blah();
    let stored = ResumableUpload::new(&file, 4).unwrap().serialize();
    let mut bytes = "blah".repeat(5).into_bytes();
    bytes[19] = b'!';
    let altered = Blob::new(Some("blah.txt".to_string()), bytes).unwrap();
    let bound = ResumableUploadData::deserialize(&stored).unwrap().enliven(&altered);
    assert_eq!(bound.unwrap_err(), UploadError::FingerprintMismatch);
}

#[test]
fn full_upload() {
    let file = blah();
    let name = file.name().unwrap();
    let href = "http://localhost:1080/files/";
    let (mut upload, location) = new_upload(&file, href, 3, &[("filename", &name)], |request| {
        assert_eq!(request.href, href);
        assert_eq!(value(&request.headers, "Upload-Metadata"), Some("filename YmxhaC50eHQ="));
        created(LOCATION)
    })
    .unwrap();
    let received = RefCell::new(Vec::new());
    continue_upload(&mut upload, &location, |request| {
        received.borrow_mut().extend_from_slice(request.body);
        Ok(204)
    })
    .unwrap();
    assert_eq!(received.into_inner(), file.bytes());
    assert_eq!(upload.sent(), upload.chunks());
}
