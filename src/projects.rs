//! A project as the `new` command names it.

use vstd::prelude::*;

verus! {

/// A project to be created under `projects/`.
pub struct Project {
    name: String,
}

impl Project {
    pub closed spec fn name_view(&self) -> Seq<char> {
        self.name@
    }

    /// The project `name`; the template is chosen when the project is created.
    pub fn new(name: &str, _template_name: &str) -> (r: Project)
        ensures
            r.name_view() == name@,
    {
        Project { name: String::from_str(name) }
    }

    pub fn name(&self) -> (r: String)
        ensures
            r@ == self.name_view(),
    {
        self.name.clone()
    }
}

} // verus!
