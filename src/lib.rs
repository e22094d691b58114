//! Fixed-capacity, validated filesystem paths for a flash filesystem client.
pub mod buf;
pub mod consts;
pub mod error;
pub mod iter;
pub mod laws;
pub mod model;
pub mod path;
mod scan;

pub use buf::PathBuf;
pub use error::Error;
pub use iter::{Ancestors, Iter};
pub use path::Path;
