//! A static-site content pipeline: frontmatter extraction, markdown
//! rendering with image interception, and a content-addressed asset store.

pub mod context;
pub mod errors;
pub mod frontmatter;
pub mod images;
pub mod markdown;
pub mod pipeline;
pub mod store;

pub use context::Context;
pub use context::Opts;
pub use errors::BlogError;
pub use errors::FrontmatterError;
pub use errors::ImageError;
pub use errors::MarkdownStructureError;
pub use frontmatter::Frontmatter;
pub use pipeline::Post;
pub use store::Asset;
pub use store::AssetStore;
