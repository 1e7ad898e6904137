//! A resolved license text: a canonical identifier together with the text it
//! was assigned to.
use vstd::prelude::*;

verus! {

#[derive(Debug)]
pub struct LicenseText {
    pub id: String,
    pub text: String,
}

impl LicenseText {
    /// A structural copy.
    pub fn duplicate(&self) -> (r: LicenseText)
        ensures
            r.id@ == self.id@,
            r.text@ == self.text@,
    {
        LicenseText { id: self.id.clone(), text: self.text.clone() }
    }
}

} // verus!
