//! Message lookup across locales: fallback chains, per-locale documents merged
//! from named fragments, and `$name` interpolation of the templates found.

pub mod text;
pub mod document;
pub mod interpolate;
pub mod fallback;
pub mod options;
pub mod json;
pub mod resolve;
pub mod locator;

pub use document::AssetNode;
pub use locator::{LoadError, MessageLocator};
pub use options::{MessageLocatorAssetOptions, MessageLocatorLoadVia, MessageLocatorOptions};
pub use resolve::MessageLocatorFormatArgument;
