//! The core of a minimal HTTP/1.1 server: request parsing, routing, the
//! handler set, content-encoding negotiation and response serialization.
//!
//! An exchange starts from the bytes of one request and ends with the bytes
//! of one response. File reads and writes are left to the caller, who
//! performs them and hands back their outcome.
pub mod encoding;
pub mod framing;
pub mod handlers;
pub mod headers;
pub mod request;
pub mod response;
pub mod router;
pub mod server;
pub mod text;
pub mod trusted;

pub use encoding::{common_str_elements, encode_body};
pub use handlers::{echo_page, file_path, get_file_page, user_agent_page};
pub use headers::HeaderMap;
pub use request::{parse_header, HttpError, HttpMethod, HttpRequest, RequestLine};
pub use response::{join_headers, HttpResponse, ResponseBody, StatusCode, StatusLine};
pub use router::{route, Route};
pub use server::{bad_request, finish_read, finish_write, respond, start_exchange, Exchange};
pub use text::byte_array_to_hex_string;
