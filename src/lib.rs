//! Clean-up of place names (streets, cities, transit stops): case rules,
//! word lists, regular-expression rewrites, encoding repair and accent
//! restoration driven by a spell checker and a corpus of reference names.

pub mod corpus;
pub mod decode;
pub mod error;
pub mod fixed_case;
pub mod pipeline;
pub mod regex_processor;
pub mod regex_stage;
pub mod regex_wrapper;
pub mod spelling;
pub mod text;
