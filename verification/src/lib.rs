//! Detection of installed Java runtimes: parsing of `java -version`
//! output, inference of installation roots, and the installation cache.

pub mod cache;
pub mod model;
pub mod paths;
pub mod platform;
pub mod scan;
pub mod text;
pub mod validate;
pub mod version;

pub use cache::{
    get_all_java_installations, refresh_java_cache, CacheLookup, InstallationMap, JavaCache,
};
pub use model::{Bitness, JavaError, JavaInfo};
pub use paths::{
    determine_java_home, extract_java_home_from_executable_path, find_java_executable,
    is_java_executable, java_executable_candidates, path_extension,
};
pub use platform::{get_common_java_dirs, get_java_search_command, Platform};
pub use scan::{
    java_home_from_listing_line, java_homes_from_listing, java_homes_from_search_output,
    registry_java_locations, RegistryHive,
};
pub use validate::{
    clean_java_path, command_output_text, java_info_from_version_output, java_info_from_version_run,
};
pub use version::{get_recommended_java_major_version, parse_java_version_output};
