//! The rules behind a board for legal cases: reading and marking contracts,
//! filling element documents, routing models, guarding the loop of the
//! assistant, merging what a team knows, and the small decisions of commands.
//!
//! Everything here works on plain values. Files, network, database and windows
//! are left to the program around it.

pub mod base64_text;
pub mod bytes;
pub mod case_export;
pub mod case_files;
pub mod chat;
pub mod commands;
pub mod contract_review;
pub mod court_inbox;
pub mod court_sms;
pub mod db;
pub mod editor;
pub mod element_catalog;
pub mod element_convert;
pub mod element_fields;
pub mod external_convert;
pub mod json;
pub mod lifecycle;
pub mod lines;
pub mod local_kb;
pub mod numbers;
pub mod oa;
pub mod order;
pub mod patterns;
pub mod settings;
pub mod team;
pub mod telemetry;
pub mod text;
pub mod text_order;
pub mod update;
pub mod wechat_evidence;
pub mod wechat_start;
