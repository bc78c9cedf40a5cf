//! The verified core of a pipeline that learns embeddings of Korean legal texts.
//!
//! - [`data`] cuts training pairs out of precedents and laws, with [`text`] for the
//!   characters.
//! - [`tokenize`] trains, stores and applies the tokenizer; [`bpe`] says what is
//!   relied on of the `tokenizers` crate.
//! - [`stored`] checks what the JSON of a stored tokenizer describes.
//! - [`dataset`] lays tokenized texts out in batches.
//! - [`model`] and [`loss`] hold the sizes of the model and of the loss.
//! - [`training`] splits the pairs, plans the learning rate and plans the export.
//! - [`distill`] asks a teacher for embeddings and turns them into targets;
//!   [`json`] says what is relied on of the `serde_json` crate.
//! - [`eval`] ranks candidates and counts recall.

pub mod bpe;
pub mod data;
pub mod dataset;
pub mod distill;
pub mod eval;
pub mod json;
pub mod loss;
pub mod model;
pub mod stored;
pub mod text;
pub mod tokenize;
pub mod training;
