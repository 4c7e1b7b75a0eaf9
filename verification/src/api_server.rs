//! The state that the request handlers of the server share, and what a
//! handler decides once the body of a request has arrived.

use crate::api_impl::OxideRack;
use crate::initial_data::demo_description;
use crate::initial_data::fresh_sled;
use crate::initial_data::populate_initial_data;
use crate::initial_data::spec_demo_project_id;
use crate::initial_data::spec_demo_project_name;
use crate::initial_data::spec_demo_sled_id;
use crate::server_controller::ServerControllerSimMode;
use crate::error::ApiError;
use crate::error::ApiErrorView;
use crate::outside::share;
use std::sync::Arc;
use vstd::prelude::*;
use vstd::string::*;

verus! {

/// The greatest request body, in bytes, that a server takes unless it is
/// told otherwise.
pub const DEFAULT_REQUEST_BODY_MAX_BYTES: usize = 1024;

/// What a server is told when it starts.
#[derive(Clone, Copy, Debug, PartialEq, Eq, Structural)]
pub struct ApiServerConfig {
    /// The greatest request body, in bytes, that the server takes.
    pub request_body_max_bytes: usize,
}

/// What the handlers of a server share.
pub struct ApiServerState {
    /// The rack that requests are served from.
    pub backend: OxideRack,
    pub config: ApiServerConfig,
}

/// The method of a request.
#[derive(Clone, Copy, Debug, PartialEq, Eq, Structural)]
pub enum HttpMethod {
    Get,
    Head,
    Post,
    Put,
    Patch,
    Delete,
}

impl HttpMethod {
    /// Whether a request of this method comes without a body.
    pub open spec fn spec_expects_empty_body(self) -> bool {
        self is Get || self is Head
    }

    #[verifier::when_used_as_spec(spec_expects_empty_body)]
    pub fn expects_empty_body(self) -> (r: bool)
        ensures
            r == self.spec_expects_empty_body(),
    {
        match self {
            HttpMethod::Get => true,
            HttpMethod::Head => true,
            _ => false,
        }
    }
}

/// The number of bytes in the first `n` of `chunks`.
pub open spec fn chunks_len(chunks: Seq<Vec<u8>>, n: int) -> nat
    decreases n,
{
    if n <= 0 {
        0
    } else {
        chunks_len(chunks, n - 1) + chunks[n - 1]@.len()
    }
}

/// The bytes of the first `n` of `chunks`, one chunk after the other.
pub open spec fn chunks_bytes(chunks: Seq<Vec<u8>>, n: int) -> Seq<u8>
    decreases n,
{
    if n <= 0 {
        Seq::empty()
    } else {
        chunks_bytes(chunks, n - 1) + chunks[n - 1]@
    }
}

/// The error for a body that is larger than the server takes.
pub open spec fn body_too_large() -> ApiErrorView {
    ApiErrorView::InvalidRequest { message: "request body exceeds the maximum size"@ }
}

/// The error for a body where none is expected.
pub open spec fn body_unexpected() -> ApiErrorView {
    ApiErrorView::InvalidRequest { message: "request body must be empty"@ }
}

/// The body that every request is answered with.
pub open spec fn greeting() -> Seq<char> {
    "Hello\n"@
}

/// The chunks of a body have as many bytes together as their lengths add up
/// to.
pub proof fn lemma_chunks_bytes_len(chunks: Seq<Vec<u8>>, n: int)
    requires
        0 <= n <= chunks.len(),
    ensures
        chunks_bytes(chunks, n).len() == chunks_len(chunks, n),
    decreases n,
{
    if n > 0 {
        lemma_chunks_bytes_len(chunks, n - 1);
    }
}

/// The size of a body grows with every chunk.
pub proof fn lemma_chunks_len_monotone(chunks: Seq<Vec<u8>>, i: int, n: int)
    requires
        0 <= i <= n <= chunks.len(),
    ensures
        chunks_len(chunks, i) <= chunks_len(chunks, n),
    decreases n - i,
{
    if i < n {
        lemma_chunks_len_monotone(chunks, i, n - 1);
    }
}

/// Reads a body to its end and drops it: returns the number of its bytes,
/// or the greatest number there is if the body has more.
pub fn http_dump_body(chunks: &Vec<Vec<u8>>) -> (r: usize)
    ensures
        r == if chunks_len(chunks@, chunks@.len() as int) <= usize::MAX {
            chunks_len(chunks@, chunks@.len() as int)
        } else {
            usize::MAX as nat
        },
{
    let mut nbytesread: usize = 0;
    let mut i: usize = 0;
    while i < chunks.len()
        invariant
            i <= chunks.len(),
            nbytesread == if chunks_len(chunks@, i as int) <= usize::MAX {
                chunks_len(chunks@, i as int)
            } else {
                usize::MAX as nat
            },
        decreases chunks.len() - i,
    {
        let bufsize = chunks[i].len();
        nbytesread = if bufsize > usize::MAX - nbytesread {
            usize::MAX
        } else {
            nbytesread + bufsize
        };
        i += 1;
    }
    nbytesread
}

/// Reads a body of at most `cap` bytes to its end: returns its bytes, or
/// the error that says that the body is larger.
pub fn http_read_body(chunks: &Vec<Vec<u8>>, cap: usize) -> (r: Result<Vec<u8>, ApiError>)
    ensures
        match r {
            Ok(body) => chunks_len(chunks@, chunks@.len() as int) <= cap && body@ == chunks_bytes(
                chunks@,
                chunks@.len() as int,
            ),
            Err(e) => chunks_len(chunks@, chunks@.len() as int) > cap && e@ == body_too_large(),
        },
{
    let mut parts: Vec<u8> = Vec::new();
    let mut nbytesread: usize = 0;
    let mut i: usize = 0;
    while i < chunks.len()
        invariant
            i <= chunks.len(),
            nbytesread <= cap,
            nbytesread == chunks_len(chunks@, i as int),
            parts@ == chunks_bytes(chunks@, i as int),
        decreases chunks.len() - i,
    {
        let bufsize = chunks[i].len();
        if bufsize > cap - nbytesread {
            proof {
                lemma_chunks_len_monotone(chunks@, i + 1, chunks@.len() as int);
            }
            return Err(ApiError::invalid_request("request body exceeds the maximum size"));
        }
        nbytesread += bufsize;
        let mut j: usize = 0;
        while j < bufsize
            invariant
                j <= bufsize,
                i < chunks.len(),
                bufsize == chunks@[i as int]@.len(),
                parts@ == chunks_bytes(chunks@, i as int) + chunks@[i as int]@.subrange(
                    0,
                    j as int,
                ),
            decreases bufsize - j,
        {
            parts.push(chunks[i][j]);
            j += 1;
        }
        assert(chunks@[i as int]@.subrange(0, bufsize as int) =~= chunks@[i as int]@);
        i += 1;
    }
    Ok(parts)
}

/// Answers a request of method `method` whose body came in `chunks`.
///
/// A request that comes without a body is refused if it has one all the
/// same; any other request is refused if its body is larger than the server
/// takes.  Every other request is greeted.
pub fn http_request_handle(
    server: &ApiServerState,
    method: HttpMethod,
    chunks: &Vec<Vec<u8>>,
) -> (r: Result<String, ApiError>)
    ensures
        match r {
            Ok(text) => {
                &&& text@ == greeting()
                &&& if method.spec_expects_empty_body() {
                    chunks_len(chunks@, chunks@.len() as int) == 0
                } else {
                    chunks_len(chunks@, chunks@.len() as int)
                        <= server.config.request_body_max_bytes
                }
            },
            Err(e) => if method.spec_expects_empty_body() {
                chunks_len(chunks@, chunks@.len() as int) != 0 && e@ == body_unexpected()
            } else {
                chunks_len(chunks@, chunks@.len() as int) > server.config.request_body_max_bytes
                    && e@ == body_too_large()
            },
        },
{
    if method.expects_empty_body() {
        let nbytesread = http_dump_body(chunks);
        if nbytesread != 0 {
            return Err(ApiError::invalid_request("request body must be empty"));
        }
    } else {
        match http_read_body(chunks, server.config.request_body_max_bytes) {
            Ok(_) => {},
            Err(e) => {
                return Err(e);
            },
        }
    }
    Ok(String::from_str("Hello\n"))
}

/// Makes, for each connection, the handler of its requests.
pub struct ApiServerConnectionHandler {
    server: Arc<ApiServerState>,
}

/// Answers the requests of one connection.
pub struct ApiServerRequestHandler {
    server: Arc<ApiServerState>,
}

impl ApiServerConnectionHandler {
    /// What the handler shares with the handlers it makes.
    pub closed spec fn state(&self) -> ApiServerState {
        *self.server
    }

    /// A handler of connections to a server with the state `server`.
    pub fn new(server: Arc<ApiServerState>) -> (r: ApiServerConnectionHandler)
        ensures
            r.state() == *server,
    {
        ApiServerConnectionHandler { server }
    }

    /// The handler of the requests of a new connection.
    pub fn connection(&self) -> (r: ApiServerRequestHandler)
        ensures
            r.state() == self.state(),
    {
        ApiServerRequestHandler::new(share(&self.server))
    }
}

impl ApiServerRequestHandler {
    /// What the handler shares with the other handlers of its server.
    pub closed spec fn state(&self) -> ApiServerState {
        *self.server
    }

    /// A handler of requests to a server with the state `server`.
    pub fn new(server: Arc<ApiServerState>) -> (r: ApiServerRequestHandler)
        ensures
            r.state() == *server,
    {
        ApiServerRequestHandler { server }
    }

    /// Answers a request of method `method` whose body came in `chunks`, as
    /// [`http_request_handle`] does with the state of the server.
    pub fn request(&self, method: HttpMethod, chunks: &Vec<Vec<u8>>) -> (r: Result<
        String,
        ApiError,
    >)
        ensures
            match r {
                Ok(text) => {
                    &&& text@ == greeting()
                    &&& if method.spec_expects_empty_body() {
                        chunks_len(chunks@, chunks@.len() as int) == 0
                    } else {
                        chunks_len(chunks@, chunks@.len() as int)
                            <= self.state().config.request_body_max_bytes
                    }
                },
                Err(e) => if method.spec_expects_empty_body() {
                    chunks_len(chunks@, chunks@.len() as int) != 0 && e@ == body_unexpected()
                } else {
                    chunks_len(chunks@, chunks@.len() as int)
                        > self.state().config.request_body_max_bytes && e@ == body_too_large()
                },
            },
    {
        http_request_handle(&self.server, method, chunks)
    }
}

/// The state that a server begins with: a rack with the projects and the
/// sleds that every rack begins with, and a limit of
/// [`DEFAULT_REQUEST_BODY_MAX_BYTES`] on the bodies of requests.
pub fn setup_server_state() -> (r: Arc<ApiServerState>)
    ensures
        r.config.request_body_max_bytes == DEFAULT_REQUEST_BODY_MAX_BYTES,
        r.backend.wf(),
        r.backend@.projects.len() == 3,
        r.backend@.next_sled == 0,
        r.backend@.sleds == seq![
            fresh_sled(spec_demo_sled_id(0), ServerControllerSimMode::Auto),
            fresh_sled(spec_demo_sled_id(1), ServerControllerSimMode::Auto),
            fresh_sled(spec_demo_sled_id(2), ServerControllerSimMode::Auto),
        ],
        forall|k: int|
            0 <= k < 3 ==> {
                &&& (#[trigger] r.backend@.lookup_project(spec_demo_project_name(k))) matches Some(
                    project,
                )
                &&& project.identity.id == spec_demo_project_id(k)
                &&& project.identity.description == demo_description()
            },
{
    let mut backend = OxideRack::new();
    let ghost empty = backend@;
    proof {
        assert(!empty.has_project(spec_demo_project_name(0)));
        assert(!empty.has_project(spec_demo_project_name(1)));
        assert(!empty.has_project(spec_demo_project_name(2)));
        assert(!empty.has_project_id(spec_demo_project_id(0)));
        assert(!empty.has_project_id(spec_demo_project_id(1)));
        assert(!empty.has_project_id(spec_demo_project_id(2)));
        assert(!empty.has_sled(spec_demo_sled_id(0)));
        assert(!empty.has_sled(spec_demo_sled_id(1)));
        assert(!empty.has_sled(spec_demo_sled_id(2)));
    }
    let _ = populate_initial_data(&mut backend, ServerControllerSimMode::Auto);
    proof {
        assert(backend@.sleds =~= seq![
            fresh_sled(spec_demo_sled_id(0), ServerControllerSimMode::Auto),
            fresh_sled(spec_demo_sled_id(1), ServerControllerSimMode::Auto),
            fresh_sled(spec_demo_sled_id(2), ServerControllerSimMode::Auto),
        ]);
    }
    Arc::new(
        ApiServerState {
            backend,
            config: ApiServerConfig { request_body_max_bytes: DEFAULT_REQUEST_BODY_MAX_BYTES },
        },
    )
}

/// The handler of the connections to a server with the state `app_state`.
pub fn server_handler(app_state: Arc<ApiServerState>) -> (r: ApiServerConnectionHandler)
    ensures
        r.state() == *app_state,
{
    ApiServerConnectionHandler::new(app_state)
}

} // verus!
