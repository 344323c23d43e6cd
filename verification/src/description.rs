//! What the catalog knows of one mirror.

use vstd::prelude::*;

verus! {

/// The two addresses of a mirror.
#[derive(Debug)]
pub struct RegistryDescription {
    /// Index address, possibly with a protocol marker in front.
    pub registry: String,
    /// Download template: a URL with `{crate}` and `{version}` placeholders,
    /// or an API base.
    pub dl: String,
}

/// A mirror's two addresses as character sequences.
pub struct DescriptionView {
    pub registry: Seq<char>,
    pub dl: Seq<char>,
}

impl View for RegistryDescription {
    type V = DescriptionView;

    open spec fn view(&self) -> DescriptionView {
        DescriptionView { registry: self.registry@, dl: self.dl@ }
    }
}

impl RegistryDescription {
    /// A description with the given index address and download template.
    pub fn new(registry: String, dl: String) -> (r: Self)
        ensures
            r.registry == registry,
            r.dl == dl,
    {
        RegistryDescription { registry, dl }
    }
}

} // verus!
