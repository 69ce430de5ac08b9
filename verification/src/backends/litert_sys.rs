//! Models compiled by LiteRT.
//!
//! [`native`] lists the calls into the runtime. [`metadata`] reads what a model
//! has, [`builder`] compiles it and makes its buffers, and [`opening`] does both,
//! for the GPU first where that is wanted. What comes of it is the
//! [`model::CompiledModel`]. [`profile`] looks into one.
//!
//! [`order`] and [`layout`] are about arguments and their shapes. The rest holds
//! what is true of it all: [`reading`], [`building`] and [`outcome`] trace what a
//! model holds to the replies that gave it, and say when it opens; [`runtime`]
//! says what opens on a runtime that does what it is asked; [`ledger`] keeps
//! account of what is alive in the runtime.

pub mod builder;
pub mod building;
pub mod layout;
pub mod ledger;
pub mod metadata;
pub mod model;
pub mod native;
pub mod opening;
pub mod order;
pub mod outcome;
pub mod profile;
pub mod reading;
pub mod runtime;
