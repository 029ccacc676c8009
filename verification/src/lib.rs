//! Tools and providers of the IronClaw agent: searches of arXiv and of the web
//! with Tavily, and language-model providers whose model can be switched.
//!
//! - `switchable` and `provider`: a provider that is built again for another
//!   model, and what it is built from.
//! - `arxiv` and `tavily`: the two searches, from their parameters to their
//!   reports. Sending a request is left to the host.
//! - `feed`, `xml`, `entities`: reading the papers of an Atom feed.
//! - `http`, `json`, `url`, `tool`: requests and retries, JSON documents,
//!   percent-encoding, and the answer of a tool.
//! - `text`, `whitespace`, `number`, `order`: text as a sequence of characters.

pub mod arxiv;
pub mod entities;
pub mod feed;
pub mod http;
pub mod json;
pub mod number;
pub mod order;
pub mod provider;
pub mod switchable;
pub mod tavily;
pub mod text;
pub mod tool;
pub mod url;
pub mod whitespace;
pub mod xml;
