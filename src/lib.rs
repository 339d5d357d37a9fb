//! Drives a vendor RGB-lighting daemon's local REST API from a frame loop
//! without blocking it: a request bridge with non-blocking polling, a session
//! state machine, a heartbeat keepalive and an effect create/apply pipeline.

pub mod api;
pub mod bridge;
pub mod color;
pub mod heartbeat;
pub mod pipeline;
pub mod schedule;
pub mod session;
pub mod tracking;
pub mod wire;

pub use api::{
    Author, Category, ChromaLinkEffect, Effect, HeadsetEffect, InitRequest, KeyboardEffect,
    KeypadEffect, MouseEffect, MousepadEffect, SupportedDevice,
};
pub use bridge::{
    HTTPMethod, HttpRequestError, HttpRequestHandle, HttpRequests, HttpResponse, HttpResult,
    PreparedRequest, RequestBody, StartedRequest,
};
pub use color::{BGRColor, KeyColor};
pub use heartbeat::Heartbeat;
pub use pipeline::{ApplyEffectRequest, Chroma, EffectHandle, EffectRecord, EffectStage};
pub use schedule::{ChromaApp, ExecuteHttpRequests, HttpRequestSet};
pub use session::{
    ChromaRunner, ChromaRunnerInitializationSettings, InitError, Lifecycle, RunnerState,
};
pub use tracking::TrackedRequest;
