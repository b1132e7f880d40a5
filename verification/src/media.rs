//! Media records and the addresses of the media service that stores uploads.

use vstd::prelude::*;
use vstd::string::StringExecFns;

verus! {

/// The container format of a media blob.
#[derive(Debug, Clone, Copy, PartialEq, Eq)]
pub enum MediaFormat {
    Webm,
    Ogg,
    Mp4,
    Unknown,
}

impl MediaFormat {
    /// The name of the format as it is written: in lower case.
    pub open spec fn spec_name(&self) -> Seq<char> {
        match self {
            MediaFormat::Webm => "webm"@,
            MediaFormat::Ogg => "ogg"@,
            MediaFormat::Mp4 => "mp4"@,
            MediaFormat::Unknown => "unknown"@,
        }
    }

    /// The name of the format as it is written.
    pub fn to_string(&self) -> (name: String)
        ensures
            name@ == self.spec_name(),
    {
        match self {
            MediaFormat::Webm => String::from_str("webm"),
            MediaFormat::Ogg => String::from_str("ogg"),
            MediaFormat::Mp4 => String::from_str("mp4"),
            MediaFormat::Unknown => String::from_str("unknown"),
        }
    }
}

/// Metadata for a media blob.
#[derive(Debug, Clone, PartialEq, Eq)]
pub struct Media {
    /// ID of the media blob itself
    pub id: String,
    pub title: String,
    pub format: MediaFormat,
    pub shortname: String,
}

/// The size in bytes of the chunks in which media blobs are uploaded to the service.
pub const MEDIA_CHUNK_SIZE: i32 = 800_000;

/// The status with which the service accepts the update of a record.
pub const STATUS_ACCEPTED: u16 = 202;

/// The status with which the service answers a collection that it has synchronised.
pub const STATUS_SYNCHRONISED: u16 = 201;

/// Whether `status` says that the service has accepted the update of a record.
pub fn update_accepted(status: u16) -> (accepted: bool)
    ensures
        accepted == (status == STATUS_ACCEPTED),
{
    status == STATUS_ACCEPTED
}

/// Whether `status` says that the service has synchronised a collection.
pub fn sync_accepted(status: u16) -> (accepted: bool)
    ensures
        accepted == (status == STATUS_SYNCHRONISED),
{
    status == STATUS_SYNCHRONISED
}

/// The part of the origin that names where the media service listens.
pub open spec fn service_port() -> Seq<char> {
    ":8090"@
}

/// The origin of the media service for a page that was loaded with `protocol` (which
/// ends in a colon) from `hostname`.
pub fn origin(protocol: &str, hostname: &str) -> (url: String)
    ensures
        url@ == protocol@ + "//"@ + hostname@ + service_port(),
{
    let mut url = String::from_str(protocol);
    url.append("//");
    url.append(hostname);
    url.append(":8090");
    url
}

/// The address at which uploads are registered.
pub fn files_url(origin: &str) -> (url: String)
    ensures
        url@ == origin@ + "/files"@,
{
    let mut url = String::from_str(origin);
    url.append("/files");
    url
}

/// The address to which conversion jobs are posted.
pub fn jobs_url(origin: &str) -> (url: String)
    ensures
        url@ == origin@ + "/api/jobs"@,
{
    let mut url = String::from_str(origin);
    url.append("/api/jobs");
    url
}

/// The address of the record of the media blob `id`.
pub fn media_url(origin: &str, id: &str) -> (url: String)
    ensures
        url@ == origin@ + "/api/media/"@ + id@,
{
    let mut url = String::from_str(origin);
    url.append("/api/media/");
    url.append(id);
    url
}

/// The address to which a media collection is posted to be synchronised.
pub fn sync_url(origin: &str) -> (url: String)
    ensures
        url@ == origin@ + "/api/sync/media"@,
{
    let mut url = String::from_str(origin);
    url.append("/api/sync/media");
    url
}

/// The scheme of the websocket that belongs to the protocol of a page: `ws` for `http:`
/// and `wss` for `https:`. Other protocols have none.
pub open spec fn ws_scheme(protocol: Seq<char>) -> Option<Seq<char>> {
    if protocol == "http:"@ {
        Some("ws"@)
    } else if protocol == "https:"@ {
        Some("wss"@)
    } else {
        None
    }
}

/// The address of the websocket `ws_path` of the media service, for a page that was
/// loaded with `protocol` from `hostname`, or `None` where the protocol has no
/// websocket.
pub fn ws_url(protocol: &str, hostname: &str, ws_path: &str) -> (url: Option<String>)
    ensures
        match url {
            Some(text) => ws_scheme(protocol@).is_some() && text@ == ws_scheme(protocol@).unwrap()
                + "://"@ + hostname@ + "/api/"@ + ws_path@,
            None => ws_scheme(protocol@).is_none(),
        },
{
    let mut url = if same_text(protocol, "http:") {
        String::from_str("ws")
    } else if same_text(protocol, "https:") {
        String::from_str("wss")
    } else {
        return None;
    };
    url.append("://");
    url.append(hostname);
    url.append("/api/");
    url.append(ws_path);
    Some(url)
}

/// Whether two texts hold the same characters.
fn same_text(first: &str, second: &str) -> (same: bool)
    ensures
        same == (first@ == second@),
{
    let a = String::from_str(first);
    let b = String::from_str(second);
    a == b
}

} // verus!
