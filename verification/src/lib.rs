//! Collects the settings of proxy servers from subscription download scripts
//! and writes them into the proxy section of a YAML configuration.
//!
//! * [`yaml`]: the line grammar of the YAML file and the index of the
//!   key/value lines under one top-level node;
//! * [`regex_edit`]: regular expressions and the rewriting of one line's value;
//! * [`rewrite`]: writing one server's settings into the indexed lines;
//! * [`serv_info`]: the server settings and how they are read from JSON;
//! * [`json`], [`encoding`], [`wget`]: reading configurations and scripts;
//! * [`cli`], [`backup`]: the decisions of the directory walk and of backups;
//! * [`text`]: character-level helpers; [`error`]: the errors.
pub mod backup;
pub mod cli;
pub mod encoding;
pub mod error;
pub mod json;
pub mod regex_edit;
pub mod rewrite;
pub mod serv_info;
pub mod text;
pub mod wget;
pub mod yaml;

pub use backup::{backup_file_name, next_backup_counter, MAX_BACKUPS};
pub use cli::{
    classify_entry, entry_in_allowed_dirs, load_entry_config, ArgGetAllSubscriptionLinks, EntryKind,
};
pub use encoding::{convert_to_utf8, DetectedEncoding};
pub use error::PassageError;
pub use json::{
    json_array_only_first_element_warning, json_get_field_to_string, json_get_field_to_u16,
    JsonDoc,
};
pub use regex_edit::{regex_modify_key_val_node, regex_new, CompiledRegex, YamlValue};
pub use rewrite::{write_to_data, written_key_names, written_lines_below};
pub use serv_info::{InfoHysteria2, InfoMieru, ServInfo};
pub use wget::{extract_wget_urls, next_link_after_failure};
pub use yaml::{
    regex_yaml_locate_key, YamlMap, REGEX_YAML_KEY_VAL, REGEX_YAML_LEVEL_1_NODE,
};
