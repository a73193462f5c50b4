//! Reconciles product prices and stock between an accounting package's exported reports and a
//! storefront's catalog: UPC normalization with check-digit repair, report parsing, an index of
//! local products by UPC that flags shared codes, classification of remote listings, and the
//! per-listing decision of what outcome to record and which changes to send.

pub mod config;
pub mod index;
pub mod price;
pub mod reconcile;
pub mod remote;
pub mod report;
pub mod report_tools;
pub mod text;
pub mod upc;
