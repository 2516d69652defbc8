pub mod args;
pub mod bic;
pub mod clustering;
pub mod fit;
pub mod points;
pub mod read_csv;
pub mod splitter;
pub mod xmeans;
