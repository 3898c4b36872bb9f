//! Catalogue logic of the Albion market monitor: naming of items by tier,
//! ordering of listings, price synchronisation planning and seeding plans.
pub mod text;
pub mod naming;
pub mod listing;
pub mod json;
pub mod artefacts;
pub mod resources;
pub mod items;
pub mod person;
pub mod error;
pub mod prices;
pub mod market;
pub mod seeding;
