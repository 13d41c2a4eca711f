//! The university's directory of people.

use vstd::prelude::*;

verus! {

/// A member of the university's staff; the site is kept as its address.
pub struct Person {
    pub name: String,
    pub surname: String,
    pub office: String,
    pub uni_email: Option<String>,
    pub email: String,
    pub phone_number: Option<String>,
    pub site: Option<String>,
}

} // verus!
