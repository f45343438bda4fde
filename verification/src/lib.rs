//! A columnar data library: typed series and a CSV-to-columnar ingestion
//! engine with verified schema inference, partition planning and building.
pub mod builder;
pub mod arithmetic;
pub mod casting;
pub mod chunked;
pub mod csv;
pub mod datatypes;
pub mod error;
pub mod frame;
pub mod laws;
pub mod named_from;
pub mod tokenize;
pub mod series;
pub mod series_agg;
pub mod series_ops;
pub mod temporal;
pub mod floatval;
pub mod parse;
