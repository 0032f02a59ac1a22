//! Verified core of a desktop file-chooser portal backend: the reply
//! envelope, the mapping between wire records and chooser sessions, the
//! validation and uniquification of multi-file save sets, and the lifecycle
//! of cancellable requests.

pub mod chooser;
pub mod portal;
pub mod request;
pub mod response;
pub mod save_set;
pub mod uri;
pub mod wire;
