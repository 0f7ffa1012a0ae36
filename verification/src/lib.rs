//! Verified core of a multimodal file-intelligence engine: controlled tag
//! identity and normalization, fact-tag extraction, perception decisions,
//! text decoding and extraction planning, DOCX reading, lexical-database and
//! taxonomy queries, request handling and duplicate-scan planning.
pub mod text;
pub mod unicode;
pub mod hashing;
pub mod tag_table;
pub mod slug;
pub mod tag_identity;
pub mod paths;
pub mod vision;
pub mod pro_stub;
pub mod core_model;
pub mod czkawka_bridge;
pub mod omw;
pub mod sqlite;
pub mod db;
pub mod json;
pub mod strlist;
pub mod str_index;
pub mod unmapped;
pub mod omw_query;
pub mod taxonomy;
pub mod taxonomy_tree;
pub mod fs_search;
pub mod server_api;
pub mod vector_api;
pub mod fact_tags;
pub mod extract_text;
pub mod text_decode;
pub mod extract_plan;
pub mod perception;
pub mod doc_plan;
pub mod docx;
pub mod docx_archive;
pub mod tool_paths;
pub mod text_lines;
pub mod mcp;
pub mod audio_tools;
