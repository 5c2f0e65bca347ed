//! Where the images of one input file are saved, and with which density.

use vstd::prelude::*;
use vstd::string::StringExecFns;
use crate::dpi::Dpi;

verus! {

/// Holds what every saved image of one input file shares: the path of the
/// input without its extension, the density to record, and whether the
/// intermediate images are wanted.
#[derive(Debug)]
pub struct ImageSaver {
    base_path: String,
    dpi: Dpi,
    is_debugging: bool,
}

/// The path of the image with the given suffix: the base path, a hyphen,
/// the suffix and the extension `.png`.
pub open spec fn suffixed_path(base_path: Seq<char>, suffix: Seq<char>) -> Seq<char> {
    base_path + "-"@ + suffix + ".png"@
}

impl ImageSaver {
    pub closed spec fn spec_base_path(&self) -> Seq<char> {
        self.base_path@
    }

    pub closed spec fn spec_dpi(&self) -> Dpi {
        self.dpi
    }

    pub closed spec fn spec_is_debugging(&self) -> bool {
        self.is_debugging
    }

    /// A saver for the given base path and density.
    pub fn new(base_path: &str, dpi: Dpi, is_debugging: bool) -> (saver: Self)
        ensures
            saver.spec_base_path() == base_path@,
            saver.dpi() == dpi,
            saver.is_debugging() == is_debugging,
    {
        ImageSaver { base_path: String::from_str(base_path), dpi, is_debugging }
    }

    /// The density that saved images record.
    #[verifier::when_used_as_spec(spec_dpi)]
    pub fn dpi(&self) -> (r: Dpi)
        ensures
            r == self.dpi(),
    {
        self.dpi
    }

    /// Whether the intermediate images are to be saved too.
    #[verifier::when_used_as_spec(spec_is_debugging)]
    pub fn is_debugging(&self) -> (r: bool)
        ensures
            r == self.is_debugging(),
    {
        self.is_debugging
    }

    /// The path of the input without its extension.
    pub fn base_path(&self) -> (r: &str)
        ensures
            r@ == self.spec_base_path(),
    {
        self.base_path.as_str()
    }

    /// Computes the full path of an image from the base path and a suffix.
    pub fn compute_path(&self, suffix: &str) -> (path: String)
        ensures
            path@ == suffixed_path(self.spec_base_path(), suffix@),
    {
        let mut path = self.base_path.clone();
        path.append("-");
        path.append(suffix);
        path.append(".png");
        path
    }
}

} // verus!
