//! Reports when the specification blocks of a dependency lock file last
//! changed, by correlating the file's lines against a per-line change
//! attribution feed.

pub mod correlate;
pub mod regions;
pub mod report;
pub mod timefmt;

pub use correlate::AttributionHunk;
pub use correlate::ReportableEvent;
pub use regions::SpecRegion;
pub use regions::SpecRegionSet;
