//! Inlines the external resources of an HTML document.
//!
//! The library works on a plain document tree: it finds the image and
//! stylesheet references that need loading, and, given the outcome of
//! each load, rewrites the tree in place of the references — images
//! become base64 data URIs, stylesheet links become inline `style`
//! elements — while recording every failed load in an ordered list.
//! Reading a document in, fetching the resources and writing the
//! result out are left to the caller.
pub mod classify;
pub mod dom;
pub mod editor;
pub mod encode;
pub mod laws;
pub mod text;

pub use classify::RefClass;
pub use classify::classify;
pub use dom::Attr;
pub use dom::Document;
pub use dom::Elem;
pub use dom::Node;
pub use editor::html_inline;
pub use editor::image_requests;
pub use editor::style_requests;
