pub mod archive;
pub mod cache;
pub mod chars;
pub mod constants;
pub mod epub;
pub mod error;
pub mod extract;
pub mod markup;
pub mod nav;
pub mod opf;
pub mod section;
pub mod xml;

pub use epub::EpubReader;
pub use error::EpubError;
pub use nav::NavigationState;
pub use section::{Chapter, SearchResult};
