//! The core of a server that fetches web pages for language models.
//!
//! [`server`] begins tool calls and prompts, [`session`] carries them from one exchange
//! with the network to the next, and [`trace`] states what holds of them from the first
//! step to the last. [`request`], [`config`] and [`robots`] check what is asked for and
//! whether it may be fetched; [`body`], [`html`], [`markdown`], [`page`] and
//! [`pagination`] turn a response into the text that is sent back.
//!
//! [`text_laws`], [`html_laws`], [`html_content`], [`markdown_laws`], [`page_laws`],
//! [`step_laws`] and [`view_laws`] state what these do, said of the texts themselves.
//!
//! Nothing here talks to the network. The outside work that is due is handed out as a
//! [`session::Step`], and what came of it is taken back as a [`session::Event`].

pub mod body;
pub mod config;
pub mod error;
pub mod html;
pub mod html_content;
pub mod html_laws;
pub mod markdown;
pub mod markdown_laws;
pub mod page;
pub mod page_laws;
pub mod pagination;
pub mod request;
pub mod robots;
pub mod server;
pub mod session;
pub mod step_laws;
pub mod text;
pub mod text_laws;
pub mod trace;
pub mod view_laws;
