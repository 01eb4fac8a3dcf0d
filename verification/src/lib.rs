//! The verified core of `stripconf`, a terminal editor for the configuration
//! file `~/.striprc` of the `strip` status bar.
//!
//! The file holds settings (`key = value`), segments
//! (`segment NAME [+GAP] [#RRGGBB] COMMAND... [INTERVAL]`, switched off by a
//! leading `#`) and lines that the editor only keeps. [`config`] reads and writes
//! it, [`app`], [`edit`] and [`keys`] change the state, [`render`] shows it. What
//! holds of reading and writing together stands in [`segment_laws`],
//! [`config_laws`], [`keep_laws`], [`note_laws`] and [`persist_laws`]. Where a text
//! is cut between bytes, a character must not lie across the cut; [`ascii_laws`]
//! says that this never happens to ASCII texts, [`cut_laws`] when it does.
//!
//! What each operation does, said of its inputs and results, stands in
//! [`basic_laws`] (texts, numbers, colours), [`reading_laws`] (lines and
//! segments), [`setting_laws`] (settings and files), [`writing_laws`] (written
//! files), [`state_laws`] (steps), [`edit_laws`] (prompts), [`key_laws`] (keys and
//! panes) and [`screen_laws`] (what is shown).

pub mod app;
pub mod ascii_laws;
pub mod basic_laws;
pub mod color;
pub mod config;
pub mod config_laws;
pub mod cut_laws;
pub mod edit;
pub mod edit_laws;
pub mod globals;
pub mod keep_laws;
pub mod key_laws;
pub mod keys;
pub mod layout;
pub mod note_laws;
pub mod number;
pub mod persist_laws;
pub mod reading_laws;
pub mod render;
pub mod replace;
pub mod screen_laws;
pub mod segment;
pub mod segment_laws;
pub mod setting_laws;
pub mod state_laws;
pub mod style;
pub mod text;
pub mod writing_laws;
