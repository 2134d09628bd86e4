pub mod metadata_parser;
pub mod section_layout;
pub mod section_splitter;
