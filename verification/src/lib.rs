//! Silicon: a verified checker of RP2040 firmware.
//!
//! The library reads a CMSIS-SVD description into a queryable model, reads the
//! register writes and SDK calls out of C firmware, checks each against the model
//! and reports what it found. Every stage is verified; the modules that hand work
//! to an outside crate say which facts they take from it. The modules whose names end in
//! `_laws` state what holds of all inputs, in terms of the entries of the SVD, of single
//! bits, of the nodes of a syntax tree and of the texts that are shown.

pub mod text;
pub mod bits;
pub mod text_laws;

pub mod svd;
pub mod svd_text;
pub mod svd_items;
pub mod svd_model;
pub mod svd_source;

pub mod syntax;
pub mod c_source;
pub mod literal;
pub mod macros;
pub mod fw_parse;
pub mod fw_parse_laws;
pub mod fold_laws;
pub mod macro_laws;

pub mod finding;
pub mod checker;
pub mod hal_check;
pub mod checker_laws;
pub mod write_laws;
pub mod call_laws;
pub mod source_laws;
pub mod model_laws;

pub mod messages;
pub mod report;
pub mod report_laws;
pub mod sarif;
pub mod display_laws;

pub mod order;
pub mod path_order;
pub mod baseline;
pub mod options;
pub mod project;
pub mod project_laws;
pub mod outcome_laws;
pub mod explain;
pub mod explain_laws;
pub mod listing;
pub mod hook;
pub mod watch;
pub mod command;
pub mod setting_laws;
pub mod svd_laws;
