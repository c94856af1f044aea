//! Helpers of the generated API documentation: comment blocks, type names
//! and simplified type expressions.

pub mod fn_renderer;
pub mod gen_doc_impl;
pub mod schema_json;
pub mod type_renderer;

pub use fn_renderer::{format_doc_comment, path_to_type_name};
pub use gen_doc_impl::{group_fns_by_module, ModuleGroup};
pub use type_renderer::{simplify_optional_type, try_primitive_type_name};
