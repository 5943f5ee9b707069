//! An APT transport for packages in an S3-compatible object store such as
//! Cloudflare R2.
//!
//! APT starts the transport as a process of its own and talks to it in messages:
//! a status line, fields, and an empty line. [`message`] reads and writes them,
//! [`config`] takes the settings out of them, [`transport`] turns a request into
//! the object that it asks for, and [`session`] says, for each thing that happens,
//! what to send and what to do next. Reading lines, fetching objects and writing
//! files are left to the program around the library.

pub mod config;
pub mod config_laws;
pub mod configure_laws;
pub mod course_laws;
pub mod fields;
pub mod laws;
pub mod message;
pub mod message_laws;
pub mod reply;
pub mod reply_laws;
pub mod reread;
pub mod roundtrip;
pub mod s3;
pub mod session;
pub mod setting_laws;
pub mod step_laws;
pub mod text;
pub mod text_laws;
pub mod transport;
pub mod wire_laws;
