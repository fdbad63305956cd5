//! papyr's verified core: the text and HTML transformations of a Typst-powered
//! static blog engine.

pub mod strings;
pub mod text;
pub mod dates;
pub mod model;
pub mod feed;
pub mod head;
pub mod render;
pub mod serve;
pub mod scaffold;
pub mod code;
pub mod links;
pub mod toc;
pub mod site;
pub mod listing;
pub mod escaping;
