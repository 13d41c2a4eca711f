//! Where the pages of Ariel are.

use vstd::prelude::*;

verus! {

/// The addresses of the login form, of the course search and of the home
/// page of Ariel.
pub struct ArielSitemap {
    pub login_url: String,
    pub search_url: String,
    pub home_page_url: String,
}

impl Default for ArielSitemap {
    /// The addresses of Ariel at the University of Milan.
    fn default() -> (r: ArielSitemap)
        ensures
            r.login_url@
                == "https://elearning.unimi.it/authentication/skin/portaleariel/login.aspx?url=https://ariel.unimi.it/"@,
            r.search_url@ == "https://ariel.unimi.it/offerta/search/quick"@,
            r.home_page_url@ == "https://ariel.unimi.it/"@,
    {
        ArielSitemap {
            login_url: "https://elearning.unimi.it/authentication/skin/portaleariel/login.aspx?url=https://ariel.unimi.it/".to_owned(),
            search_url: "https://ariel.unimi.it/offerta/search/quick".to_owned(),
            home_page_url: "https://ariel.unimi.it/".to_owned(),
        }
    }
}

} // verus!
