//! Types that the parts of the daemon share.

pub mod af;
pub mod event;
pub mod proto;
pub mod userspace;

pub use event::{FileObject, HookId, ObjectInfo, ObservationEvent, SocketObject};
pub use userspace::{
    AlertSeverity, AllowRule, AvcDenial, LlmAlert, LlmContext, LlmRequest, LlmResponse, LlmTask,
    NormalizedAccess, NormalizedBatch, NormalizerInput,
};
