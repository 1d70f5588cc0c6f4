//! Domain library of the credit exchanger: users, their money and resource
//! credits, subscriptions between users and the rules by which bookings and
//! subscriptions are evaluated.
//!
//! Amounts (balances, averages, subscription percentages) are carried as a
//! type parameter `A`; the library never computes with them, so every rule
//! stated here holds whatever number type the service instantiates it with.
pub mod api;
pub mod credit;
pub mod daily;
pub mod directory;
pub mod error;
pub mod evaluation;
pub mod hourly;
pub mod laws;
pub mod object_id;
pub mod ordering;
pub mod record;
pub mod resources;
pub mod subscription;
pub mod user;

use vstd::prelude::*;

verus! {

/// The OpenAPI description of the exchange's HTTP interface; the service
/// derives the document itself.
pub struct ApiDoc;

} // verus!
