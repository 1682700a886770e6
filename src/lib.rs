//! Offline mirror of a remote software catalog: the records it keeps, the
//! parsing of catalog responses, the local store with its transactional
//! updates, the icon cache and the decisions of the synchronization
//! workflows; besides, the desktop decoration settings and a transfer-rate
//! meter.

pub mod text;
pub mod textparse;
pub mod table;
pub mod types;
pub mod json;
pub mod remote;
pub mod store;
pub mod icons;
pub mod sync;
mod clock;
pub mod util;
pub mod theme;
