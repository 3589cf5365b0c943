//! Bounded strings of the AT protocol, held in `heapless` strings of fixed capacity.
use vstd::prelude::*;
use vstd::utf8::encode_utf8;

verus! {

/// Capacity in bytes of a stored AT response line.
pub const AT_RESPONSE_SIZE: usize = 60;

/// Capacity in bytes of a stored AT command prefix.
pub const AT_PREFIX_SIZE: usize = 20;

/// A modem line of at most `AT_RESPONSE_SIZE` bytes.
#[derive(Debug, PartialEq)]
#[verifier::external_body]
pub struct AtLine {
    inner: heapless::String<60>,
}

/// The characters that an `AtLine` holds.
pub uninterp spec fn at_line_chars(line: AtLine) -> Seq<char>;

impl View for AtLine {
    type V = Seq<char>;

    open spec fn view(&self) -> Seq<char> {
        at_line_chars(*self)
    }
}

/// `heapless::String::<60>::from_str`: copies `s` when its UTF-8 encoding fits in 60 bytes and
/// fails otherwise.
#[verifier::external_body]
pub(crate) fn at_line_from_str(s: &str) -> (r: Option<AtLine>)
    ensures
        r is Some <==> encode_utf8(s@).len() <= AT_RESPONSE_SIZE,
        r matches Some(l) ==> at_line_chars(l) == s@,
{
    match <heapless::String<60> as core::str::FromStr>::from_str(s) {
        Ok(inner) => Some(AtLine { inner }),
        Err(_) => None,
    }
}

/// `heapless::String::<60>::as_str`: the characters that the line holds.
#[verifier::external_body]
pub(crate) fn at_line_as_str(line: &AtLine) -> (r: &str)
    ensures
        r@ == at_line_chars(*line),
{
    line.inner.as_str()
}

/// An AT command prefix of at most `AT_PREFIX_SIZE` bytes.
#[derive(Debug, PartialEq)]
#[verifier::external_body]
pub struct AtPrefix {
    inner: heapless::String<20>,
}

/// The characters that an `AtPrefix` holds.
pub uninterp spec fn at_prefix_chars(prefix: AtPrefix) -> Seq<char>;

impl View for AtPrefix {
    type V = Seq<char>;

    open spec fn view(&self) -> Seq<char> {
        at_prefix_chars(*self)
    }
}

/// `heapless::String::<20>::from_str`: copies `s` when its UTF-8 encoding fits in 20 bytes and
/// fails otherwise.
#[verifier::external_body]
pub(crate) fn at_prefix_from_str(s: &str) -> (r: Option<AtPrefix>)
    ensures
        r is Some <==> encode_utf8(s@).len() <= AT_PREFIX_SIZE,
        r matches Some(p) ==> at_prefix_chars(p) == s@,
{
    match <heapless::String<20> as core::str::FromStr>::from_str(s) {
        Ok(inner) => Some(AtPrefix { inner }),
        Err(_) => None,
    }
}

/// `heapless::String::<20>::as_str`: the characters that the prefix holds.
#[verifier::external_body]
pub(crate) fn at_prefix_as_str(prefix: &AtPrefix) -> (r: &str)
    ensures
        r@ == at_prefix_chars(*prefix),
{
    prefix.inner.as_str()
}

impl AtLine {
    /// Copies `s` into a line, when its UTF-8 encoding fits in `AT_RESPONSE_SIZE` bytes.
    pub fn new(s: &str) -> (r: Option<AtLine>)
        ensures
            r is Some <==> encode_utf8(s@).len() <= AT_RESPONSE_SIZE,
            r matches Some(l) ==> l@ == s@,
    {
        at_line_from_str(s)
    }

    /// The characters of the line.
    pub fn as_str(&self) -> (r: &str)
        ensures
            r@ == self@,
    {
        at_line_as_str(self)
    }
}

impl AtPrefix {
    /// Copies `s` into a prefix, when its UTF-8 encoding fits in `AT_PREFIX_SIZE` bytes.
    pub fn new(s: &str) -> (r: Option<AtPrefix>)
        ensures
            r is Some <==> encode_utf8(s@).len() <= AT_PREFIX_SIZE,
            r matches Some(p) ==> p@ == s@,
    {
        at_prefix_from_str(s)
    }

    /// The characters of the prefix.
    pub fn as_str(&self) -> (r: &str)
        ensures
            r@ == self@,
    {
        at_prefix_as_str(self)
    }
}

} // verus!
