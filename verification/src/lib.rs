pub mod db_diff;
pub mod diff;
pub mod error;
pub mod html_output;
pub mod json;
pub mod models;
pub mod output;
pub mod record;
pub mod strings;
pub mod value;

pub use db_diff::DbDiff;
pub use error::DbbaError;
pub use models::{DbInfo, TableData};
