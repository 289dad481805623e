//! Persistence and numbering core of an equipment-rental back office:
//! document identifiers, item availability over date ranges, and the
//! all-or-nothing document operations on quotes and invoices.
pub mod availability;
pub mod catalog;
pub mod calendar;
pub mod ident;
pub mod laws;
pub mod model;
pub mod queries;
pub mod remote;
pub mod store;
pub mod tables;
pub mod wellformed;
