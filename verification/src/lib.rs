//! A minimal edge-triggered readiness multiplexer.
//!
//! The library holds the verified core: the fixed-layout readiness record,
//! the registry and poller that interpret the kernel queue's answers, and the
//! dispatch state machine that drains non-blocking connections to exhaustion
//! and counts each completion exactly once.  The kernel calls themselves are
//! made by the surrounding program, which hands their raw results to the
//! functions here.

pub mod dispatch;
pub mod event;
pub mod poll;
