//! Compiles a directory of HTML fragments into a fixed set of pages, each
//! wrapped in a shared stylesheet and header, and answers requests against
//! that set: the home page at `/`, each page at its URL path, and a
//! not-found page for everything else.
pub mod compile;
pub mod router;
pub mod view;

pub use compile::{make_views, read_text, BuildError, SourceFile, HOME_FILE, NOT_FOUND_FILE};
pub use router::{dispatch, route, STATUS_NOT_FOUND, STATUS_OK};
pub use view::{generate_view, web_path, View};
