//! Verified core of a real-time binaural auralization engine.
//!
//! The library holds the exact, integer-modelled control plane of the
//! renderer: shoebox mirror geometry, the image-source tree, delay and
//! gain arithmetic, HRTF angle selection, the feedback-delay-network
//! channel map, and the snapshot hand-off between the ingest side and
//! the audio callback.  Positions are carried in millimetres and angles
//! in millidegrees so that every rule can be stated and proved exactly;
//! the floating-point sample processing around this core lives with the
//! host application.

pub mod convolver;
pub mod delayline;
pub mod fdn;
pub mod filter;
pub mod geom;
pub mod hrtf;
pub mod ism;
pub mod mailbox;
pub mod osc;
pub mod renderer;
pub mod scene;

pub use fdn::map_ism_to_fdn_channel;
pub use ism::is_per_model;
