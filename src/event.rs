//! Lifecycle events of the resumable-upload proxy, as the proxy sends them.

use crate::ids::parsed_uuid;
use crate::ids::parse_id;
use vstd::prelude::*;

verus! {

/// The kind of a lifecycle event.
#[derive(Clone, Copy, Debug, PartialEq, Eq, Structural)]
pub enum EventType {
    PreCreate,
    PostReceive,
    PostCreate,
    PreFinish,
    PostFinish,
    PostTerminate,
    Unknown,
}

/// The kind that the proxy's name of an event denotes; names it does not
/// know are `Unknown`.
pub open spec fn event_type_of(name: Seq<char>) -> EventType {
    if name == "pre-create"@ {
        EventType::PreCreate
    } else if name == "post-receive"@ {
        EventType::PostReceive
    } else if name == "post-create"@ {
        EventType::PostCreate
    } else if name == "pre-finish"@ {
        EventType::PreFinish
    } else if name == "post-finish"@ {
        EventType::PostFinish
    } else if name == "post-terminate"@ {
        EventType::PostTerminate
    } else {
        EventType::Unknown
    }
}

fn same_text(a: &str, b: &str) -> (r: bool)
    ensures
        r == (a@ == b@),
{
    let n = a.unicode_len();
    if n != b.unicode_len() {
        return false;
    }
    let mut i: usize = 0;
    while i < n
        invariant
            i <= n,
            n == a@.len(),
            n == b@.len(),
            forall|k: int| 0 <= k < i ==> a@[k] == b@[k],
        decreases n - i,
    {
        if a.get_char(i) != b.get_char(i) {
            return false;
        }
        i = i + 1;
    }
    assert(a@ =~= b@);
    true
}

impl EventType {
    /// Reads the proxy's name of an event kind.
    pub fn from_name(name: &str) -> (r: EventType)
        ensures
            r == event_type_of(name@),
    {
        if same_text(name, "pre-create") {
            EventType::PreCreate
        } else if same_text(name, "post-receive") {
            EventType::PostReceive
        } else if same_text(name, "post-create") {
            EventType::PostCreate
        } else if same_text(name, "pre-finish") {
            EventType::PreFinish
        } else if same_text(name, "post-finish") {
            EventType::PostFinish
        } else if same_text(name, "post-terminate") {
            EventType::PostTerminate
        } else {
            EventType::Unknown
        }
    }
}

/// One lifecycle event: its kind and its details.
#[derive(Debug)]
pub struct EventPayload {
    pub event: EventDetails,
    pub event_type: EventType,
}

#[derive(Debug)]
pub struct EventDetails {
    pub http_request: HttpRequest,
    pub upload: Upload,
}

/// The client request that caused the event.
#[derive(Debug)]
pub struct HttpRequest {
    pub header: Header,
    pub method: String,
    pub remote_addr: String,
    pub uri: String,
}

/// Headers of the client request; each holds every value sent under its name.
#[derive(Debug)]
pub struct Header {
    pub accept: Option<Vec<String>>,
    pub accept_encoding: Option<Vec<String>>,
    pub accept_language: Option<Vec<String>>,
    pub cache_control: Option<Vec<String>>,
    pub content_length: Option<Vec<String>>,
    pub content_type: Option<Vec<String>>,
    pub dnt: Option<Vec<String>>,
    pub host: Option<Vec<String>>,
    pub origin: Option<Vec<String>>,
    pub pragma: Option<Vec<String>>,
    pub referer: Option<Vec<String>>,
    pub tus_resumable: Option<Vec<String>>,
    pub upload_offset: Option<Vec<String>>,
    pub user_agent: Option<Vec<String>>,
    pub x_forwarded_for: Option<Vec<String>>,
    pub x_forwarded_host: Option<Vec<String>>,
    pub x_forwarded_port: Option<Vec<String>>,
    pub x_forwarded_proto: Option<Vec<String>>,
    pub x_forwarded_server: Option<Vec<String>>,
    pub x_real_ip: Option<Vec<String>>,
    /// The submission that an upload is for.
    pub submission_id: Option<Vec<String>>,
}

impl Header {
    /// A header that carries nothing.
    pub fn empty() -> (r: Header)
        ensures
            r.accept is None,
            r.accept_encoding is None,
            r.accept_language is None,
            r.cache_control is None,
            r.content_length is None,
            r.content_type is None,
            r.dnt is None,
            r.host is None,
            r.origin is None,
            r.pragma is None,
            r.referer is None,
            r.tus_resumable is None,
            r.upload_offset is None,
            r.user_agent is None,
            r.x_forwarded_for is None,
            r.x_forwarded_host is None,
            r.x_forwarded_port is None,
            r.x_forwarded_proto is None,
            r.x_forwarded_server is None,
            r.x_real_ip is None,
            r.submission_id is None,
    {
        Header {
            accept: None,
            accept_encoding: None,
            accept_language: None,
            cache_control: None,
            content_length: None,
            content_type: None,
            dnt: None,
            host: None,
            origin: None,
            pragma: None,
            referer: None,
            tus_resumable: None,
            upload_offset: None,
            user_agent: None,
            x_forwarded_for: None,
            x_forwarded_host: None,
            x_forwarded_port: None,
            x_forwarded_proto: None,
            x_forwarded_server: None,
            x_real_ip: None,
            submission_id: None,
        }
    }
}

/// The upload as the proxy sees it. `id` is the upload handle
/// `<object_id>+<proxy_id>`; `size` is the declared size, signed as the proxy
/// sends it.
#[derive(Debug)]
pub struct Upload {
    pub id: String,
    pub is_final: bool,
    pub is_partial: bool,
    pub metadata: MetaData,
    pub offset: u64,
    pub partial_uploads: Option<String>,
    pub size: i64,
    pub size_is_deferred: bool,
    pub storage: Option<Storage>,
}

/// What the client declared of the file.
#[derive(Debug)]
pub struct MetaData {
    pub filename: String,
    pub filetype: String,
    pub name: Option<String>,
    pub relative_path: Option<String>,
    pub file_type: Option<String>,
}

#[derive(Debug)]
pub struct Storage {
    pub bucket: String,
    pub key: String,
    pub storage_type: String,
}

impl Default for MetaData {
    fn default() -> (r: Self)
        ensures
            r.filename@ == Seq::<char>::empty(),
            r.filetype@ == Seq::<char>::empty(),
            r.name is None,
            r.relative_path is None,
            r.file_type is None,
    {
        MetaData {
            filename: String::new(),
            filetype: String::new(),
            name: None,
            relative_path: None,
            file_type: None,
        }
    }
}

impl Default for Upload {
    fn default() -> (r: Self)
        ensures
            r.id@ == Seq::<char>::empty(),
            !r.is_final,
            !r.is_partial,
            r.metadata.filename@ == Seq::<char>::empty(),
            r.metadata.filetype@ == Seq::<char>::empty(),
            r.metadata.name is None,
            r.metadata.relative_path is None,
            r.metadata.file_type is None,
            r.offset == 0,
            r.partial_uploads is None,
            r.size == 0,
            !r.size_is_deferred,
            r.storage is None,
    {
        Upload {
            id: String::new(),
            is_final: false,
            is_partial: false,
            metadata: MetaData::default(),
            offset: 0,
            partial_uploads: None,
            size: 0,
            size_is_deferred: false,
            storage: None,
        }
    }
}

/// The submission that a submission header names: its first value, when that
/// is a UUID.
pub open spec fn header_submission(values: Option<Vec<String>>) -> Option<u128> {
    match values {
        Some(v) => if v@.len() > 0 {
            parsed_uuid(v@[0]@)
        } else {
            None
        },
        None => None,
    }
}

/// Reads the submission id of an event's request.
pub fn submission_id_of(header: &Header) -> (r: Option<u128>)
    ensures
        r == header_submission(header.submission_id),
{
    match &header.submission_id {
        Some(v) => if v.len() > 0 {
            parse_id(v[0].as_str())
        } else {
            None
        },
        None => None,
    }
}

} // verus!
