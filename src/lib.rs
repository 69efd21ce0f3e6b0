//! Core of a cross-language binding generator.
//!
//! A front end hands over the declaration graph ([`ir`]).  Each item is
//! checked and bound on its own ([`binder`]): its types are mapped
//! ([`type_mapper`]), elided reference lifetimes are assigned
//! ([`lifetimes`]), record layouts and calling-convention classes are
//! asserted and checked ([`layout`]), special members decide what a record
//! may do ([`special_members`]), and thunks are planned ([`thunks`]).
//! Unsupported items spread to their users ([`support`]), items are
//! ordered for emission with forward declarations and split by namespace
//! ([`ordering`]), and every rejection is reported ([`reports`]).  The
//! notes for rejected items and the layout assertions are rendered as text
//! by [`emitter`].
//! [`generator`] runs the whole pipeline.

pub mod ir;
pub mod type_mapper;
pub mod lifetimes;
pub mod layout;
pub mod special_members;
pub mod thunks;
pub mod support;
pub mod ordering;
pub mod binder;
pub mod generator;
pub mod reports;
pub mod samples;
pub mod emitter;
