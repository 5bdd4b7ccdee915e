//! Collapsing of document-flow content.
//!
//! While a document's flow is walked, spacing and soft breaks only matter
//! when real content surrounds them. The [`collapse::CollapsingBuilder`]
//! takes each flow item together with the class the caller gave it and keeps
//! back the ones whose fate is still open, so that the finished sequence
//! holds exactly the items that have a visible effect.
//!
//! - [`collapse`] holds the builder itself.
//! - [`state`] says what the builder holds and what each call does to it.
//! - [`trace`] and [`laws`] speak of whole runs of calls: what is dropped,
//!   what is kept, and in which order.
//! - [`style`] and [`style_vec`] hold the style chains that travel with the
//!   items, and the sequence that the builder fills.
//! - [`sequences`] holds the facts about sequences that the laws rest on.
pub mod collapse;
pub mod laws;
pub mod sequences;
pub mod state;
pub mod style;
pub mod style_vec;
pub mod trace;
