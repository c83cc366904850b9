//! Builds a process supervisor environment file from remotely resolved
//! parameters.
//!
//! The pipeline has two verified stages. The fetcher side ([`params`])
//! validates the outcome of one remote lookup, all or nothing: any name the
//! store reported invalid fails the whole request. The serializer side
//! ([`envfile`]) renders the resolved pairs into `NAME='VALUE'` lines and
//! proves that the rendering is invertible.
//!
//! The remote call itself and the file write are I/O and live with the
//! enclosing program; the library only decides and renders.

pub mod envfile;
pub mod params;

pub use envfile::render_environment_file;
pub use params::LookupOutcome;
pub use params::PullerError;
pub use params::ResolvedParameter;
pub use params::resolve_lookup;
