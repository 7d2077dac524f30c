pub use crate::parser::{pmwikis, try_pmwikis};
pub use crate::pmwiki::IPmwiki;
