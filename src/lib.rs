//! Loading and saving one structured record as a JSON text file, where full
//! lines that begin with `#` are comments that a reader skips.

pub mod comments;
pub mod error;
pub mod json;
pub mod record;

pub use comments::{
    lemma_comment_lines_skipped, lemma_uncommented_text, strip_comments, stripped,
};
pub use error::DataFileError;
pub use json::{json_parse, pretty_json};
pub use record::{decode_contents, encode_record, missing_file_outcome, read_outcome};
