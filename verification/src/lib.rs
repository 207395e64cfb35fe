//! Extraction of per-feature GeoJSON documents from a GML city-object catalog.
//!
//! The pipeline scans a whole document for top-level generic-city-object
//! elements, reconstructs each as a self-contained XML fragment, re-parses the
//! fragment to harvest typed attributes and a position list, reprojects the
//! coordinates from the HK80 survey datum to WGS84 longitude/latitude, and
//! serializes one GeoJSON feature per object.

pub mod assemble;
pub mod emit;
pub mod extractor;
pub mod feature;
pub mod numbers;
pub mod pipeline;
pub mod segmenter;
pub mod text;
pub mod xml;
