//! A verified protocol core for a Gemini client.
//!
//! The library covers the encode/decode layer of one Gemini exchange:
//! building the request line, splitting a raw response into header line and
//! body bytes, parsing the header into a status code and metadata string,
//! classifying the status code, and resolving the body as text or binary.
//! Transport, URL handling and output are left to the surrounding program.

pub mod body;
pub mod errors;
pub mod header;
pub mod request;
pub mod scan;
pub mod session;
pub mod status;
pub mod text;

pub use body::BodyData;
pub use body::get_response_body;
pub use errors::MyErr;
pub use header::Header;
pub use header::get_response_header;
pub use request::encode_request;
pub use session::SessionOutcome;
pub use session::process_response;
pub use status::Status;
pub use text::lossy_utf8;
