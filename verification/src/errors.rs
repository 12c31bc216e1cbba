use vstd::prelude::*;

verus! {

/// Why a post's frontmatter header was rejected.
#[derive(Debug)]
pub enum FrontmatterError {
    /// The text does not begin with the opening delimiter line `---\n`.
    MissingOpeningDelimiter,
    /// No closing delimiter line `---\n` follows the opening one.
    MissingClosingDelimiter,
    /// The delimited header is not a mapping of string keys to string values;
    /// the parser's message is kept.
    InvalidHeader(String),
    /// The header has no `title` key.
    MissingTitle,
    /// The header has no `date` key.
    MissingDate,
}

/// Why a markdown event stream was rejected while rewriting images.
#[derive(Debug, PartialEq, Eq, Structural)]
pub enum MarkdownStructureError {
    /// An image tag was not immediately followed by a text event with
    /// its alternative text.
    NoAltText,
    /// The alternative text of an image tag was not immediately followed
    /// by the image's end tag.
    NoImageEnd,
}

/// Why an image source could not be turned into picture assets.
#[derive(Debug)]
pub enum ImageError {
    /// The bytes could not be decoded as an image; the codec's message is kept.
    Decode(String),
    /// The decoded image could not be re-encoded; the codec's message is kept.
    Encode(String),
    /// The source path has no derivable base name.
    NoName,
}

/// Any failure of the content pipeline for one post.
#[derive(Debug)]
pub enum BlogError {
    Frontmatter(FrontmatterError),
    Markdown(MarkdownStructureError),
    Image(ImageError),
    /// A post filename is neither a directory name nor `name.md`.
    InvalidPostFilename(String),
    /// Two different byte buffers mapped to the same asset identifier.
    HashCollision(String),
    /// The caller supplied no bytes for an image path the markdown references.
    MissingImageData(String),
}

} // verus!
