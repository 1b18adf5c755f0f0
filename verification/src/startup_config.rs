use vstd::prelude::*;

verus! {

/// Settings read before the application starts.
pub struct StartupConfig {
    /// Whether a second launch hands its file to the running instance.
    pub single_instance: bool,
}

/// Single-instance mode is on unless the saved configuration turns it off.
pub fn default_single_instance() -> (r: bool)
    ensures
        r,
{
    true
}

impl Default for StartupConfig {
    fn default() -> (r: Self)
        ensures
            r.single_instance,
    {
        StartupConfig { single_instance: default_single_instance() }
    }
}

/// The configuration in force: the saved one when it could be read and parsed,
/// the default otherwise.
pub fn config_or_default(parsed: Option<StartupConfig>) -> (r: StartupConfig)
    ensures
        r.single_instance == match parsed {
            Some(c) => c.single_instance,
            None => true,
        },
{
    match parsed {
        Some(c) => c,
        None => StartupConfig::default(),
    }
}

/// A saved configuration as parsed: `single_instance` holds the field's value, or
/// nothing when the field is absent (it then takes its default).
pub fn config_from_fields(single_instance: Option<bool>) -> (r: StartupConfig)
    ensures
        r.single_instance == match single_instance {
            Some(b) => b,
            None => true,
        },
{
    match single_instance {
        Some(b) => StartupConfig { single_instance: b },
        None => StartupConfig { single_instance: default_single_instance() },
    }
}

} // verus!
