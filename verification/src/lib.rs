//! Verified core of a desktop shell that hosts one code-server backend per
//! project tab: the project registry, the backend table, the command lines
//! that start each backend, and the parsers of host information.

pub mod embed;
pub mod pool;
pub mod project;
pub mod registry;
pub mod servers;
pub mod sysinfo;
pub mod text;
