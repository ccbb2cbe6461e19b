//! A terminal multiplexer for long-running scripts.
//!
//! The crate holds the rules of the program: which configurations are accepted, how log lines
//! look, what every event does to the state, when a supervisor restarts its command, and what
//! goes where on the screen. Each rule is stated as a contract over a mathematical model and
//! proved. Processes, threads, files and the terminal belong to the application around it.

pub mod config;
pub mod dialog_laws;
pub mod display;
pub mod draw;
pub mod event_laws;
pub mod input_laws;
pub mod laws;
pub mod mux;
pub mod process;
pub mod reload;
pub mod reload_laws;
pub mod screen;
pub mod script;
pub mod seqs;
pub mod step;
pub mod supervise;
pub mod supervise_laws;
pub mod supervisors;
pub mod terminal;
pub mod text;
pub mod text_laws;
pub mod view_laws;
