//! A Telegram bot's schedule library for the lyceum timetable published by NIKA:
//! page scraping helpers, timetable rendering and keyboard layout.

pub mod text;
pub mod date;
pub mod response;
pub mod grouping;
pub mod client;
pub mod formatter;
pub mod keyboards;
pub mod patterns;
pub mod bot;
