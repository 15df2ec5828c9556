//! Verified data-access core for a multi-tenant file-storage service.
//!
//! Users own files and folders organized by slash-delimited paths; metadata
//! lives in a relational store and byte content in an object store.  The
//! modules here cover the parts with genuine invariants: compiling a dynamic
//! filter language to parameterized SQL, coercing loosely-typed literals into
//! natively-typed bound parameters, serializing relational rows into
//! camelCase documents, the upload/delete pipeline that keeps the database
//! and the object store consistent, and the reconciliation job that rebuilds
//! metadata from the object store's actual listing.

pub mod auth;
pub mod coerce;
pub mod files;
pub mod filter;
pub mod json;
pub mod numlit;
pub mod outcalls;
pub mod query;
pub mod reconcile;
pub mod rows;
pub mod text;
pub mod upload;
