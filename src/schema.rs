//! Schema descriptors: text as it is, binary schemas base64-encoded.

use base64::engine::general_purpose;
use base64::Engine;
use vstd::prelude::*;

verus! {

/// The unpadded standard base64 text of `b`.
pub uninterp spec fn base64_no_pad(b: Seq<u8>) -> Seq<char>;

/// Relies on base64's `general_purpose::STANDARD_NO_PAD.encode`: the unpadded standard
/// base64 text of the bytes, a function of the bytes alone. It panics only when the output
/// length overflows `usize`, which needs more than three quarters of `usize::MAX` input
/// bytes; a slice holds at most `isize::MAX` bytes.
#[verifier::external_body]
fn encode_base64_no_pad(data: &[u8]) -> (r: String)
    ensures
        r@ == base64_no_pad(data@),
{
    general_purpose::STANDARD_NO_PAD.encode(data)
}

/// The schema text of a channel. Binary schemas are carried base64-encoded.
#[derive(Clone, Debug, PartialEq, Eq)]
pub struct SchemaDescriptor(pub String);

impl SchemaDescriptor {
    /// A descriptor holding the text `content`.
    pub fn from_text(content: &str) -> (r: Self)
        ensures
            r.0@ == content@,
    {
        SchemaDescriptor(content.to_owned())
    }

    /// A descriptor holding the unpadded base64 text of `data`.
    pub fn from_binary(data: &[u8]) -> (r: Self)
        ensures
            r.0@ == base64_no_pad(data@),
    {
        SchemaDescriptor(encode_base64_no_pad(data))
    }
}

impl From<String> for SchemaDescriptor {
    fn from(content: String) -> (r: Self) {
        SchemaDescriptor(content)
    }
}

impl vstd::std_specs::convert::FromSpecImpl<String> for SchemaDescriptor {
    open spec fn obeys_from_spec() -> bool {
        true
    }

    open spec fn from_spec(content: String) -> Self {
        SchemaDescriptor(content)
    }
}

/// Text is kept as it is; `from_text` states the result. Only its view is known, and two
/// strings with one view are not known to be equal, so `from_spec` describes the result
/// without being promised.
impl From<&str> for SchemaDescriptor {
    fn from(content: &str) -> (r: Self) {
        SchemaDescriptor::from_text(content)
    }
}

impl vstd::std_specs::convert::FromSpecImpl<&str> for SchemaDescriptor {
    open spec fn obeys_from_spec() -> bool {
        false
    }

    open spec fn from_spec(content: &str) -> Self {
        choose|r: SchemaDescriptor| r.0@ == content@
    }
}

/// Binary schemas are base64-encoded; `from_binary` states the result.
impl From<Vec<u8>> for SchemaDescriptor {
    fn from(data: Vec<u8>) -> (r: Self) {
        SchemaDescriptor::from_binary(data.as_slice())
    }
}

impl vstd::std_specs::convert::FromSpecImpl<Vec<u8>> for SchemaDescriptor {
    open spec fn obeys_from_spec() -> bool {
        false
    }

    open spec fn from_spec(data: Vec<u8>) -> Self {
        choose|r: SchemaDescriptor| r.0@ == base64_no_pad(data@)
    }
}

/// Binary schemas are base64-encoded; `from_binary` states the result.
impl From<&[u8]> for SchemaDescriptor {
    fn from(data: &[u8]) -> (r: Self) {
        SchemaDescriptor::from_binary(data)
    }
}

impl vstd::std_specs::convert::FromSpecImpl<&[u8]> for SchemaDescriptor {
    open spec fn obeys_from_spec() -> bool {
        false
    }

    open spec fn from_spec(data: &[u8]) -> Self {
        choose|r: SchemaDescriptor| r.0@ == base64_no_pad(data@)
    }
}

} // verus!
