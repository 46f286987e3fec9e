//! An in-process job scheduler and the one job it was built for.
//!
//! `utils` holds the scheduler: jobs are bound to cron rules, each job keeps
//! a short buffer of its next fire instants, and a polling tick fires
//! whatever has come due, reporting failures without letting them spread.
//! `csgo` holds the rules of the job itself: which matches of a day's list
//! are worth a mail, and how the list of a day is asked for.
//!
//! Cron expressions are parsed and evaluated by the `cron` crate and dates
//! are written by `chrono`; what is taken on trust from them is said where
//! they are called. Everything else is proved.

pub mod csgo;
pub mod utils;
