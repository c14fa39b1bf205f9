//! Geocoding of CSV rows and address batches: the address model, the layered
//! geocoder stack and the rules of the streaming pipeline.

use vstd::prelude::*;

pub mod addresses;
pub mod geocoders;
pub mod key_value_stores;
pub mod optional;
pub mod options;
pub mod pipeline;
pub mod record;
pub mod sequences;
pub mod server;
pub mod text;

verus! {

} // verus!
