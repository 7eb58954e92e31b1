//! Rules of a crawler that mirrors the MariaDB knowledge base to disk, and of
//! the server that serves the mirror back.
pub mod text;
pub mod bindings;
pub mod scrape;
pub mod fs_path;
pub mod paths;
pub mod url_to_path;
pub mod redirect;
pub mod method;
pub mod app_args;
pub mod dates;
pub mod last_updated;
pub mod recent_crawler;
pub mod server;
pub mod kb_urls;
pub mod req;
pub mod crawler;
