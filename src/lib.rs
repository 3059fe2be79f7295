//! Repairs of a Debian package system: streaming decoders for the dpkg
//! diversion and status databases, a scan that finds the packages whose name
//! holds a filter, and the state machine that removes their diversions, purges
//! them, repairs the package system and installs the kept ones again.
pub mod bytes;
pub mod control;
pub mod decoder;
pub mod matcher;
pub mod pipeline;
pub mod search;
