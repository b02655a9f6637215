//! Rendering blocks as HTML.
pub mod builders;
pub mod escape;
pub mod format;
pub mod generator;
pub mod output;
pub mod renderer;

pub use self::builders::{Builder, TagStartBuilder};
pub use self::output::Output;
pub use self::format::{DefaultFormat, Format};
pub use self::renderer::Renderer;
pub use self::generator::Generator;
