//! What most users of the crate need, in one import.

pub use crate::builder::{Builder, Draft};
pub use crate::config::Config;
pub use crate::create::{CreateCommand, CreateSession, Layout};
pub use crate::dialogue::{Answer, Question};
pub use crate::error::TemplateError;
pub use crate::store::{Stored, Templates};
pub use crate::template::{File, Structure, Template};
pub use crate::updater::{Update, Updater};
