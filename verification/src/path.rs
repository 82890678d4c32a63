//! Paths as the host reports them: plain bytes, which may or may not be text.

use vstd::prelude::*;
use vstd::slice::slice_to_vec;
use vstd::string::StringSliceAdditionalSpecFns;
use vstd::utf8::{decode_utf8, encode_utf8_decode_utf8, encode_utf8_valid_utf8, valid_utf8};

verus! {

/// The error of `core::str::from_utf8`, carried but never inspected.
#[verifier::external_type_specification]
#[verifier::external_body]
pub struct ExUtf8Error(core::str::Utf8Error);

/// `core::str::from_utf8` succeeds exactly on well-formed UTF-8, and the
/// string slice it returns is made of the very bytes it was given.
pub assume_specification<'a>[ core::str::from_utf8 ](v: &'a [u8]) -> (res: Result<
    &'a str,
    core::str::Utf8Error,
>)
    ensures
        res is Ok <==> valid_utf8(v@),
        res matches Ok(s) ==> s.spec_bytes() == v@,
;

/// A filesystem path, held as the bytes of its name.
///
/// The empty path is reserved: it never names an entry and is never reported.
#[derive(Clone, Debug, PartialEq, Eq, Hash)]
pub struct PathName {
    pub bytes: Vec<u8>,
}

impl View for PathName {
    type V = Seq<u8>;

    open spec fn view(&self) -> Seq<u8> {
        self.bytes@
    }
}

/// Whether a path can be read as text, which pattern matching needs.
pub open spec fn is_text(path: Seq<u8>) -> bool {
    valid_utf8(path)
}

/// The text of a path that `is_text`.
pub open spec fn text_of(path: Seq<u8>) -> Seq<char> {
    decode_utf8(path)
}

impl PathName {
    /// The path whose name is the UTF-8 encoding of `text`.
    pub fn from_text(text: &str) -> (path: PathName)
        ensures
            path@ == text.spec_bytes(),
            is_text(path@),
            text_of(path@) == text@,
    {
        proof {
            encode_utf8_valid_utf8(text@);
            encode_utf8_decode_utf8(text@);
        }
        PathName { bytes: slice_to_vec(text.as_bytes()) }
    }

    /// The path with the given bytes as its name.
    pub fn from_bytes(bytes: Vec<u8>) -> (path: PathName)
        ensures
            path@ == bytes@,
    {
        PathName { bytes }
    }

    /// The reserved empty path.
    pub fn empty() -> (path: PathName)
        ensures
            path@ == Seq::<u8>::empty(),
    {
        PathName { bytes: Vec::new() }
    }

    /// The path as text, or `None` where its bytes are not well-formed UTF-8.
    pub fn as_text(&self) -> (text: Option<&str>)
        ensures
            text is Some <==> is_text(self@),
            text matches Some(s) ==> s@ == text_of(self@),
    {
        match core::str::from_utf8(self.bytes.as_slice()) {
            Ok(s) => {
                proof {
                    encode_utf8_decode_utf8(s@);
                }
                Some(s)
            },
            Err(_) => None,
        }
    }

    /// The bytes of the path's name.
    pub fn as_bytes(&self) -> (bytes: &[u8])
        ensures
            bytes@ == self@,
    {
        self.bytes.as_slice()
    }

    /// Whether this is the reserved empty path.
    pub fn is_empty(&self) -> (empty: bool)
        ensures
            empty == (self@.len() == 0),
    {
        self.bytes.len() == 0
    }

    /// A copy of the path.
    pub fn duplicate(&self) -> (copy: PathName)
        ensures
            copy@ == self@,
    {
        PathName { bytes: self.bytes.clone() }
    }
}

} // verus!
