use vstd::prelude::*;
use vstd::utf8::*;
use vstd::string::StringSliceAdditionalSpecFns;

verus! {

/// One named source text.
#[derive(Debug, Clone)]
pub struct SourceFile {
    pub path: String,
    pub source: String,
}

impl SourceFile {
    /// The UTF-8 bytes of the source text.
    pub open spec fn bytes(&self) -> Seq<u8> {
        encode_utf8(self.source@)
    }

    /// Creates a source file from its path and text.
    pub fn new(path: &str, source: &str) -> (file: SourceFile)
        ensures
            file.path@ == path@,
            file.source@ == source@,
    {
        SourceFile { path: String::from_str(path), source: String::from_str(source) }
    }

    /// Creates a source file from owned path and text.
    pub fn from_strings(path: String, source: String) -> (file: SourceFile)
        ensures
            file.path@ == path@,
            file.source@ == source@,
    {
        SourceFile { path, source }
    }

    /// A copy with the same path and text.
    pub fn duplicate(&self) -> (copy: SourceFile)
        ensures
            copy.path@ == self.path@,
            copy.source@ == self.source@,
    {
        SourceFile { path: self.path.clone(), source: self.source.clone() }
    }

    /// Returns the source text.
    pub fn source(&self) -> (text: &str)
        ensures
            text@ == self.source@,
            text.spec_bytes() == self.bytes(),
    {
        self.source.as_str()
    }

    /// Returns the UTF-8 bytes of the source text.
    pub fn source_bytes(&self) -> (bytes: &[u8])
        ensures
            bytes@ == self.bytes(),
    {
        self.source.as_str().as_bytes()
    }
}

} // verus!
