//! Control: who works where, and with which role.

pub mod workspace;
