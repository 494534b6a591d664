//! Input-method engine core: code tables, matching, key mapping and learning.
use vstd::prelude::*;

pub mod clock;
pub mod text;
pub mod types;
pub mod entry;
pub mod cin_parser;
pub mod context;
pub mod error;
pub mod distance;
pub mod key_mapper;
pub mod fuzzy;
pub mod l0_learn;
pub mod pinyin;
pub mod segmenter;
pub mod ngram_table;
pub mod builder;
pub mod candidate_window;
pub mod fst_dict;
pub mod ime_host;
pub mod tsf_state;
pub mod fbterm;
pub mod gui_config;
pub mod ipc;
pub mod key_hook;
pub mod gui_engine;
pub mod cli;
pub mod session;
pub mod smooth;
pub mod rank;
pub mod native;
pub mod candidate;
pub mod matcher;
