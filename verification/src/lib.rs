//! Routing rules for a video segment delivery path.
//!
//! A request for a media segment is classified by the number embedded in its
//! path: the number is looked up in a configured list of cut scenes, and the
//! outcome decides whether a diagnostic precedes the forwarding of the
//! request to the backend. Every request is forwarded as it came.
//!
//! - [`segment`] finds the segment number in a path.
//! - [`scenes`] reads the list of cut scenes and classifies a segment.
//! - [`router`] is the route of one request, as a state machine.
//! - [`geo`] writes the diagnostic line for a cut scene.
//! - [`version`] gives the version under which the service runs.
//! - [`decimal`] and [`text`] read digits and characters.
//!
//! The library does no input or output. Its caller reads the request, the
//! configuration and the client's country, and hands them over as strings.

pub mod decimal;
pub mod geo;
pub mod router;
pub mod scenes;
pub mod segment;
pub mod text;
pub mod version;
