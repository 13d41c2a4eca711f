//! UniMia, the students' portal.

use vstd::prelude::*;

verus! {

/// The configuration used to access UniMia.
pub struct UnimiaUserConfig {
    pub username: String,
    pub password: String,
}

impl Default for UnimiaUserConfig {
    /// Empty credentials.
    fn default() -> (r: UnimiaUserConfig)
        ensures
            r.username@.len() == 0,
            r.password@.len() == 0,
    {
        UnimiaUserConfig { username: String::new(), password: String::new() }
    }
}

} // verus!
