//! Reading and writing of DXF drawings at the level of code pairs: the value
//! model, the handle text form, the ASCII tokenizer and writer, a one-pair
//! look-ahead stream, the nested section-type-settings codec, and the reading
//! and writing of a drawing's OBJECTS section against a schema of object
//! types.

pub mod version;
pub mod handle;
pub mod code_pair;
pub mod text;
pub mod tokenizer;
pub mod writer;
pub mod pair_stream;
pub mod geometry_settings;
pub mod section_type_settings;
pub mod section;
pub mod drawing;
pub mod schema;
pub mod extension;
