//! A streaming document transformer: a tree of match rules is compiled into a
//! flat table of per-node handlers, and the handlers edit matched elements and
//! collect values from them into a JSON-like result tree.
//!
//! The streaming markup engine that finds the matches is not part of this
//! library. It hands each match to a handler as plain values and carries out
//! the edits that the handler returns.

pub mod shadow_api;

pub use crate::shadow_api::regex_cache::RegexCache;
pub use crate::shadow_api::rule_compiler::{HandlerKind, ShadowHandler};
pub use crate::shadow_api::shadow_api_async::{LoLOutputter, PollStep, ShadowApiRewriterAsync};
pub use crate::shadow_api::shadow_api_replacer::ShadowApiReplacer;
pub use crate::shadow_api::shadow_data::{ShadowData, ShadowDataValue};
pub use crate::shadow_api::shadow_data_cursor::ShadowDataCursor;
pub use crate::shadow_api::shadow_element::{ElementAction, ShadowElement, TextAction};
pub use crate::shadow_api::shadow_error::ShadowError;
pub use crate::shadow_api::shadow_json::{
    ShadowJson, ShadowJsonData, ShadowJsonEdit, ShadowJsonEditOne, ShadowJsonValueSource,
};
pub use crate::shadow_api::shadow_map::ShadowMap;
pub use crate::shadow_api::{ShadowApi, ShadowApiOptions};
