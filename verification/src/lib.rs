//! Wire layer of the built-in HTTP chat providers: what is sent to them, and what their streamed
//! responses mean.
//!
//! Requests: [`endpoint`] says where a request goes, [`reasoning`] puts the control of a model
//! into its body, [`retry`] says when to send it again.
//!
//! Responses: [`sse`] pumps the events of a response to their receiver, [`openai`] and
//! [`anthropic`] read the payloads, [`transcript`] and [`framing`] state what follows for a
//! whole response.
//!
//! [`json`], [`text`], [`lossy`] and [`endpoint`] hold what is taken for granted of
//! `serde_json`, of the standard library's strings and of `reqwest::Url`.

pub mod anthropic;
pub mod delta;
pub mod endpoint;
pub mod error;
pub mod framing;
pub mod json;
pub mod lossy;
pub mod openai;
pub mod reasoning;
pub mod request;
pub mod retry;
pub mod sse;
pub mod text;
pub mod transcript;
