//! The compiling core of a specification-document preprocessor.
//!
//! Block markup is tokenized line by line (`tokenize`, over the line grammar
//! of `block`) and lowered to markup lines (`markdown`), with list items and
//! quotes parsed again recursively. Definitions in the element tree (`tree`)
//! are classified (`dfn`) and given unique ids (`name`, `tree`). Links are
//! resolved against local, anchor-block and external reference sources
//! (`reference`, `datablock`), inexactly through inflected forms
//! (`variation`); citations go through the biblio store (`biblio`). Panels
//! and the index are built from the resolved links (`panel`, `index`).
pub mod text;
pub mod scan;
pub mod indent;
pub mod token;
pub mod block;
pub mod tokenize;
pub mod markdown;
pub mod comment;
pub mod name;
pub mod tree;
pub mod html;
pub mod fix;
pub mod codespan;
pub mod dfn;
pub mod variation;
pub mod reference;
pub mod datablock;
pub mod autolink;
pub mod biblio;
pub mod panel;
pub mod index;
pub mod boolset;
pub mod metadata;
