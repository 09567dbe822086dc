//! Verified core of a mod manager: tweak documents, the tweak database format,
//! runtime lookup tables and the decisions around them.
pub mod text;
pub mod node;
pub mod scan;
pub mod yaml;
pub mod toml;
pub mod template;
pub mod hashes;
pub mod tweakxl;
pub mod cursor;
pub mod bits;
pub mod numbers;
pub mod strutil;
pub mod keycodes;
pub mod modconfig;
pub mod encode;
pub mod tweakdb;
pub mod kraken;
pub mod names;
pub mod bake;
pub mod bindings;
pub mod flats;
pub mod order;
pub mod webui;
pub mod webapi;
pub mod activation;
pub mod calendar;
pub mod manager;
pub mod memory;
pub mod rtti;
pub mod calls;
pub mod reflect;
pub mod forge;
pub mod callbacks;
pub mod targets;
pub mod links;
pub mod probes;
pub mod hooks;
pub mod boot;
pub mod natives;
pub mod classes;
pub mod answers;
pub mod live;
pub mod listing;
pub mod documents;
pub mod commands;
pub mod rebuild;
pub mod handlers;
pub mod type_hashes;
pub mod encodings;
pub mod inline_names;
pub mod tweak_laws;
pub mod rtti_laws;
pub mod database_laws;
pub mod binding_laws;
pub mod scan_laws;
pub mod yaml_laws;
pub mod toml_laws;
pub mod number_laws;
pub mod text_laws;
pub mod encode_laws;
pub mod template_laws;
pub mod web_laws;
pub mod call_laws;
pub mod engine_laws;
pub mod manager_laws;
pub mod lookup_laws;
pub mod handler_laws;
pub mod reflect_laws;
