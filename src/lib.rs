//! A quiz service core: a parser for question documents, answer checking and
//! grading, a time-bounded store that links a submission to a later identity
//! callback, and the bookkeeping of where finished results go.

pub mod bank;
pub mod digits;
pub mod grading;
pub mod oauth;
pub mod parser;
pub mod persist;
pub mod question;
pub mod service;
pub mod session;
pub mod text;
