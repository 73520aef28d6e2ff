//! Polling engine of a desktop notifier for new tickets of a GLPI service.
//!
//! - `tick`: one polling cycle, filtering fetched tickets against the seen set,
//!   with the first-run rules.
//! - `seen`: the set of identifiers already notified.
//! - `rows`: tickets read from the rows of a query response.
//! - `transport`: session state, authentication decisions, query parameters and
//!   field-id resolution of the service's REST API.
//! - `delivery`: notification content and the notifier process's exit-code protocol.
//! - `text`: string helpers on character sequences.
use vstd::prelude::*;

pub mod delivery;
pub mod rows;
pub mod seen;
pub mod text;
pub mod tick;
pub mod ticket;
pub mod transport;

verus! {

} // verus!
