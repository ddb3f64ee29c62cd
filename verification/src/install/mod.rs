pub mod integrity;
pub mod fetch;
pub mod package_marker;
pub mod script_policy;
pub mod plan;
pub mod extract;
pub mod bin;
pub mod recovery;
pub mod materialize;
