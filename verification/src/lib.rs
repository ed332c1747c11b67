pub mod method;
pub mod query_string;
pub mod request;
pub mod strings;
pub mod website_handler;

pub use method::Method;
pub use query_string::QueryString;
pub use query_string::Value;
pub use request::ParseError;
pub use request::Request;
pub use strings::str_eq;
pub use website_handler::WebsiteHandler;
