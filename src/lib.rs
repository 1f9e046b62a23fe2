//! An RDF toolkit core: validated IRIs, the term / statement / graph model
//! built from them, and a line-based (N-Triples) writer.
pub mod iri;
pub mod ip;
pub mod term;
pub mod statement;
pub mod graph;
pub mod nt;
