use vstd::prelude::*;

pub mod group;
pub mod json;
pub mod module;
pub mod snapshot;
pub mod store;
pub mod text;
pub mod types;
pub mod updater;
pub mod utils;

verus! {

/// Path of the configuration document: the override when it is present.
pub fn get_config_filename(override_present: bool) -> (r: &'static str)
    ensures
        r@ == (if override_present { "./config/config-override.json"@ } else { "./config/config.json"@ }),
{
    if override_present {
        "./config/config-override.json"
    } else {
        "./config/config.json"
    }
}

} // verus!
