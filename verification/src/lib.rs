//! Decisions of a controller that restarts a Kubernetes Deployment when the image behind its tag
//! has changed.

pub mod base64_text;
pub mod challenge;
pub mod conversation;
pub mod credentials;
pub mod digest;
pub mod error;
pub mod http;
pub mod image;
pub mod json;
pub mod patch;
pub mod reconcile;
pub mod registry;
pub mod text;
pub mod token;
