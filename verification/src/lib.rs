//! Tool definitions that remote nodes advertise to a gateway, the text
//! transformations applied when such a tool runs, and the naming scheme the
//! gateway uses to register them.

pub mod catalog;
pub mod invoke;
pub mod json;
pub mod naming;
pub mod tail;
pub mod template;
pub mod text;
pub mod tool_def;
