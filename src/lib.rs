//! A morphological lexicon loaded from a streaming markup document and linked
//! into a cross-referenced graph of entries and word forms, with the corpus,
//! option and vector-file formats of the disambiguation tool around it.
pub mod id_index;
pub mod keyed;
pub mod lemma_token;
pub mod lexicon_laws;
pub mod options;
pub mod parser_callback;
pub mod saldo_entry;
pub mod saldo_lemgram;
pub mod saldo_lexicon;
pub mod sense_prior;
pub mod text;
pub mod word2vec;
pub mod xml_reader;
