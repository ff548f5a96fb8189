//! A small in-memory registry of named package records, together with the
//! pure logic of the HTTP service that exposes it: an HTML listing page, a
//! JSON listing endpoint, and a JSON upsert endpoint.
//!
//! The registry keeps at most one record per distinct name; upserts are
//! last-write-wins. The serializers, the body decoder, the route table and
//! the laws relating them are all stated and proved here; a thin shell
//! around the library does the listening and the byte shuffling.

pub mod html;
pub mod http;
pub mod json;
pub mod laws;
pub mod package;
pub mod parse;
pub mod registry;
pub mod roundtrip;
pub mod router;
pub mod text;
