//! An adaptive vocabulary drill for German.
//!
//! A catalog holds the words ([`words`], [`catalog`]). A tracker counts the
//! learner's right and wrong answers per word and turns the counts into
//! weights that favour weak words ([`results`], [`ordering`], [`tracker`]).
//! An exercise is built for a word that the tracker selects, in one of four
//! shapes, with distractors drawn from the catalog where the shape offers
//! options ([`options`], [`exercise`]), and the learner's answer is graded
//! ([`spelling`], [`text`]). A session ties the three together
//! ([`session`]); [`payload`] unpacks the word list from what the file host
//! answers.
//!
//! The library is verified with Verus. What it takes on trust is kept in a
//! few places: the random draws of the `rand` crate in [`random`], the JSON
//! and base64 decoders in [`payload`], and three functions of the standard
//! library on characters and strings in [`text`].

pub mod catalog;
pub mod exercise;
pub mod options;
pub mod ordering;
pub mod payload;
pub mod random;
pub mod results;
pub mod session;
pub mod spelling;
pub mod text;
pub mod tracker;
pub mod words;
