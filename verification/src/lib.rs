//! A pipeline processing library: items flow through a chain of steps,
//! each step maps successful values and carries errors along, and named
//! error-handling strategies decide which results survive a step.

mod result;
pub mod traits;
pub mod handlers;
pub mod strategy;
pub mod registry;
pub mod text;
pub mod naming;
pub mod gpu;
pub mod pipeline;
pub mod memo;
pub mod workload;
pub mod attributes;

pub use result::PipexResult;
pub use traits::{CreateError, ExtractSuccessful, IntoResult, PipelineResultHandler};
pub use handlers::{CollectHandler, ErrorHandler, FailFastHandler, IgnoreHandler, LogAndIgnoreHandler};
