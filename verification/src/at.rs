//! Parsing of the lines that the BG77 modem answers to AT commands.
//!
//! A command response has the shape `+CMD: v1,"v 2",v3`; its values are separated by commas
//! and may be quoted, in which case the quotes are dropped and commas inside are kept.
use vstd::prelude::*;
use vstd::string::*;

use vstd::utf8::encode_utf8;

use crate::bounded::{AtLine, AtPrefix, AT_PREFIX_SIZE, AT_RESPONSE_SIZE};
use crate::text::{
    chars_of, find_from, find_in, is_whitespace, lemma_find_from, lemma_leading_ws_is,
    lemma_trailing_ws, lemma_trim_idempotent, leading_ws, parse_signed, parse_signed_chars,
    parse_unsigned, parse_unsigned_chars, starts_with, str_eq, str_starts_with, trailing_ws, trim,
    trim_spec, utf8_len, views,
};

verus! {

/// Largest number of values in one command response.
pub const AT_VALUE_COUNT: usize = 8;

/// Largest number of lines kept of one answer.
pub const AT_LINES: usize = 4;

/// Largest size in bytes of a picked value.
pub const AT_VALUE_LEN: usize = 40;

/// Errors of the AT protocol.
#[derive(Debug, Clone, Copy, PartialEq, Eq, Structural)]
pub enum AtError {
    /// A value does not fit in its buffer.
    BufferTooSmallError,
    /// A string cannot be parsed as the requested type.
    ParseError,
    /// The modem answered something inconsistent with the command.
    ModemError,
    /// The modem answered `ERROR`.
    AtErrorResponse,
    /// The modem answered `+CME ERROR: <code>`.
    CmeError(u16),
    /// No answer came in time.
    TimeoutError,
    /// Reading from the UART failed.
    UartReadError,
    /// Writing to the UART failed.
    UartWriteError,
}

/// The prefix and the values of a command response line: `+PREFIX: values`.
pub open spec fn split_at_response_spec(s: Seq<char>) -> Option<(Seq<char>, Seq<char>)> {
    if s.len() > 0 && s[0] == '+' {
        match find_from(s, seq![':', ' '], 0) {
            Some(p) => Some((s.subrange(1, p), s.subrange(p + 2, s.len() as int))),
            None => None,
        }
    } else {
        None
    }
}

/// Splits a command response line into its prefix (without the `+`) and the rest of the line
/// after the first `": "`.
pub fn split_at_response(line: &str) -> (r: Option<(&str, &str)>)
    ensures
        r matches Some((p, v)) ==> split_at_response_spec(line@) == Some((p@, v@)),
        r is None <==> split_at_response_spec(line@) is None,
{
    let cs = chars_of(line);
    let n = cs.len();
    if n == 0 || cs[0] != '+' {
        return None;
    }
    let pat: [char; 2] = [':', ' '];
    assert(pat@ =~= seq![':', ' ']);
    match find_in(&cs, pat.as_slice(), 0) {
        Some(p) => {
            proof {
                lemma_find_from(line@, seq![':', ' '], 0);
            }
            assert(p >= 1) by {
                if p == 0 {
                    assert(line@.subrange(0, 2)[0] == line@[0]);
                }
            }
            Some((line.substring_char(1, p), line.substring_char(p + 2, n)))
        },
        None => None,
    }
}

/// How the splitting of a value list ends.
#[derive(Debug, Clone, Copy, PartialEq, Eq, Structural)]
pub enum ValuesEnd {
    /// All values were read.
    Complete,
    /// A quoted value has no closing quote.
    Unterminated,
    /// A quote is followed directly by `",`, or the list is a lone `"`.
    EmptyQuote,
}

/// The values of a value list, read from the left, and how the reading ends.
///
/// A value that starts with `"` ends at the first `",` (or at the end of the list, which must
/// then be a `"`); the quotes are dropped. Any other value ends at the first `,`.
pub open spec fn split_tokens(v: Seq<char>) -> (Seq<Seq<char>>, ValuesEnd)
    decreases v.len(),
{
    if v.len() == 0 {
        (seq![], ValuesEnd::Complete)
    } else if v[0] == '"' {
        proof {
            lemma_find_from(v, seq!['"', ','], 0);
        }
        match find_from(v, seq!['"', ','], 0) {
            Some(p) => if p == 0 {
                (seq![], ValuesEnd::EmptyQuote)
            } else {
                let rest = split_tokens(v.subrange(p + 2, v.len() as int));
                (seq![v.subrange(1, p)] + rest.0, rest.1)
            },
            None => if v.last() != '"' {
                (seq![], ValuesEnd::Unterminated)
            } else if v.len() == 1 {
                (seq![], ValuesEnd::EmptyQuote)
            } else {
                (seq![v.subrange(1, v.len() - 1)], ValuesEnd::Complete)
            },
        }
    } else {
        proof {
            lemma_find_from(v, seq![','], 0);
        }
        match find_from(v, seq![','], 0) {
            Some(p) => {
                let rest = split_tokens(v.subrange(p + 1, v.len() as int));
                (seq![v.subrange(0, p)] + rest.0, rest.1)
            },
            None => (seq![v], ValuesEnd::Complete),
        }
    }
}

/// Splitting `v` slices a string at an impossible range: an empty quote is met while there
/// is still room for a value.
pub open spec fn split_values_panics(v: Seq<char>) -> bool {
    let t = split_tokens(v);
    t.0.len() <= AT_VALUE_COUNT && t.1 == ValuesEnd::EmptyQuote
}

/// The result of splitting the value list `v`: the values, or the first error met.
pub open spec fn split_values_spec(v: Seq<char>) -> Result<Seq<Seq<char>>, AtError> {
    let t = split_tokens(v);
    if t.0.len() > AT_VALUE_COUNT {
        Err(AtError::BufferTooSmallError)
    } else if t.1 == ValuesEnd::Unterminated {
        Err(AtError::ParseError)
    } else {
        Ok(t.0)
    }
}

/// Splits a value list such as `1,"google.com",15` into `["1", "google.com", "15"]`.
///
/// Quoted values lose their quotes; numbers stay strings.
pub fn split_values(values: &str) -> (r: Result<Vec<&str>, AtError>)
    requires
        !split_values_panics(values@),
    ensures
        r matches Ok(v) ==> split_values_spec(values@) == Ok::<Seq<Seq<char>>, AtError>(
            views(v@),
        ),
        r matches Err(e) ==> split_values_spec(values@) == Err::<Seq<Seq<char>>, AtError>(e),
{
    let mut rest: &str = values;
    let mut split: Vec<&str> = Vec::new();
    let mut n: usize = rest.unicode_len();
    assert(views(split@) + split_tokens(rest@).0 =~= split_tokens(values@).0);
    while n > 0
        invariant
            n == rest@.len(),
            split.len() <= AT_VALUE_COUNT,
            split_tokens(values@).0 == views(split@) + split_tokens(rest@).0,
            split_tokens(values@).1 == split_tokens(rest@).1,
            !split_values_panics(values@),
        decreases n,
    {
        let cs = chars_of(rest);
        let token: &str;
        let pos: usize;
        if cs[0] == '"' {
            let pat: [char; 2] = ['"', ','];
            assert(pat@ =~= seq!['"', ',']);
            proof {
                lemma_find_from(rest@, seq!['"', ','], 0);
            }
            match find_in(&cs, pat.as_slice(), 0) {
                Some(p) => {
                    if p == 0 {
                        assert(split_tokens(rest@).0.len() == 0);
                        assert(false);
                    }
                    token = rest.substring_char(1, p);
                    pos = p + 1;
                },
                None => {
                    if cs[n - 1] != '"' {
                        proof {
                            assert(split_tokens(rest@).0.len() == 0);
                        }
                        return Err(AtError::ParseError);
                    }
                    if n == 1 {
                        assert(split_tokens(rest@).0.len() == 0);
                        assert(false);
                    }
                    token = rest.substring_char(1, n - 1);
                    pos = n;
                },
            }
        } else {
            let pat: [char; 1] = [','];
            assert(pat@ =~= seq![',']);
            proof {
                lemma_find_from(rest@, seq![','], 0);
            }
            match find_in(&cs, pat.as_slice(), 0) {
                Some(p) => {
                    token = rest.substring_char(0, p);
                    pos = p;
                },
                None => {
                    token = rest;
                    pos = n;
                },
            }
        }
        if split.len() >= AT_VALUE_COUNT {
            return Err(AtError::BufferTooSmallError);
        }
        let ghost old_split = split@;
        split.push(token);
        let next: &str = if pos >= n {
            rest.substring_char(n, n)
        } else {
            rest.substring_char(pos + 1, n)
        };
        proof {
            assert(views(split@) =~= views(old_split) + seq![token@]);
            assert(split_tokens(rest@).0 =~= seq![token@] + split_tokens(next@).0);
            assert(split_tokens(values@).0 =~= views(split@) + split_tokens(next@).0);
        }
        rest = next;
        n = rest.unicode_len();
    }
    proof {
        assert(split_tokens(values@).0 =~= views(split@));
    }
    Ok(split)
}

/// A value type that a command response value can be parsed into.
pub trait AtValue: Sized {
    /// The string `s` parses into a value of this type.
    spec fn accepts(s: Seq<char>) -> bool;

    /// `self` is the value that `s` parses into.
    spec fn denotes(&self, s: Seq<char>) -> bool;

    /// Parses `s`.
    fn parse_value(s: &str) -> (r: Option<Self>)
        ensures
            r is Some <==> Self::accepts(s@),
            r matches Some(v) ==> v.denotes(s@),
    ;

    /// Whether `s` parses into a value equal to `self`.
    fn matches_str(&self, s: &str) -> (r: bool)
        ensures
            r == (Self::accepts(s@) && self.denotes(s@)),
    ;
}

impl AtValue for u8 {
    open spec fn accepts(s: Seq<char>) -> bool {
        parse_unsigned(s, 10, 0xff) is Some
    }

    open spec fn denotes(&self, s: Seq<char>) -> bool {
        parse_unsigned(s, 10, 0xff) == Some(*self as nat)
    }

    fn parse_value(s: &str) -> (r: Option<u8>) {
        match parse_unsigned_chars(&chars_of(s), 10, 0xff) {
            Some(v) => Some(v as u8),
            None => None,
        }
    }

    fn matches_str(&self, s: &str) -> (r: bool) {
        match Self::parse_value(s) {
            Some(v) => v == *self,
            None => false,
        }
    }
}

impl AtValue for u16 {
    open spec fn accepts(s: Seq<char>) -> bool {
        parse_unsigned(s, 10, 0xffff) is Some
    }

    open spec fn denotes(&self, s: Seq<char>) -> bool {
        parse_unsigned(s, 10, 0xffff) == Some(*self as nat)
    }

    fn parse_value(s: &str) -> (r: Option<u16>) {
        match parse_unsigned_chars(&chars_of(s), 10, 0xffff) {
            Some(v) => Some(v as u16),
            None => None,
        }
    }

    fn matches_str(&self, s: &str) -> (r: bool) {
        match Self::parse_value(s) {
            Some(v) => v == *self,
            None => false,
        }
    }
}

impl AtValue for u32 {
    open spec fn accepts(s: Seq<char>) -> bool {
        parse_unsigned(s, 10, 0xffff_ffff) is Some
    }

    open spec fn denotes(&self, s: Seq<char>) -> bool {
        parse_unsigned(s, 10, 0xffff_ffff) == Some(*self as nat)
    }

    fn parse_value(s: &str) -> (r: Option<u32>) {
        match parse_unsigned_chars(&chars_of(s), 10, 0xffff_ffff) {
            Some(v) => Some(v as u32),
            None => None,
        }
    }

    fn matches_str(&self, s: &str) -> (r: bool) {
        match Self::parse_value(s) {
            Some(v) => v == *self,
            None => false,
        }
    }
}

impl AtValue for i8 {
    open spec fn accepts(s: Seq<char>) -> bool {
        parse_signed(s, 0x7f) is Some
    }

    open spec fn denotes(&self, s: Seq<char>) -> bool {
        parse_signed(s, 0x7f) == Some(*self as int)
    }

    fn parse_value(s: &str) -> (r: Option<i8>) {
        match parse_signed_chars(&chars_of(s), 0x7f) {
            Some(v) => Some(v as i8),
            None => None,
        }
    }

    fn matches_str(&self, s: &str) -> (r: bool) {
        match Self::parse_value(s) {
            Some(v) => v == *self,
            None => false,
        }
    }
}

impl AtValue for i16 {
    open spec fn accepts(s: Seq<char>) -> bool {
        parse_signed(s, 0x7fff) is Some
    }

    open spec fn denotes(&self, s: Seq<char>) -> bool {
        parse_signed(s, 0x7fff) == Some(*self as int)
    }

    fn parse_value(s: &str) -> (r: Option<i16>) {
        match parse_signed_chars(&chars_of(s), 0x7fff) {
            Some(v) => Some(v as i16),
            None => None,
        }
    }

    fn matches_str(&self, s: &str) -> (r: bool) {
        match Self::parse_value(s) {
            Some(v) => v == *self,
            None => false,
        }
    }
}

impl AtValue for i32 {
    open spec fn accepts(s: Seq<char>) -> bool {
        parse_signed(s, 0x7fff_ffff) is Some
    }

    open spec fn denotes(&self, s: Seq<char>) -> bool {
        parse_signed(s, 0x7fff_ffff) == Some(*self as int)
    }

    fn parse_value(s: &str) -> (r: Option<i32>) {
        match parse_signed_chars(&chars_of(s), 0x7fff_ffff) {
            Some(v) => Some(v as i32),
            None => None,
        }
    }

    fn matches_str(&self, s: &str) -> (r: bool) {
        match Self::parse_value(s) {
            Some(v) => v == *self,
            None => false,
        }
    }
}

/// A text value of at most `N` bytes.
///
/// The text is a `String` that the type's functions keep within `N` bytes: the storage of a
/// `heapless::String<N>` is a type of a private module of `heapless` that cannot be declared to
/// Verus, so a heapless string can only be held behind an opaque struct of one fixed capacity,
/// as `AtLine` and `AtPrefix` are.
#[derive(Debug, Clone, PartialEq, Eq)]
pub struct AtString<const N: usize> {
    text: String,
}

impl<const N: usize> View for AtString<N> {
    type V = Seq<char>;

    closed spec fn view(&self) -> Seq<char> {
        self.text@
    }
}

impl<const N: usize> AtString<N> {
    /// The text.
    pub fn as_str(&self) -> (r: &str)
        ensures
            r@ == self@,
    {
        self.text.as_str()
    }
}

impl<const N: usize> AtValue for AtString<N> {
    open spec fn accepts(s: Seq<char>) -> bool {
        encode_utf8(s).len() <= N
    }

    open spec fn denotes(&self, s: Seq<char>) -> bool {
        self@ == s
    }

    fn parse_value(s: &str) -> (r: Option<AtString<N>>) {
        if utf8_len(s) <= N {
            Some(AtString { text: s.to_owned() })
        } else {
            None
        }
    }

    fn matches_str(&self, s: &str) -> (r: bool) {
        utf8_len(s) <= N && str_eq(self.text.as_str(), s)
    }
}

/// A command response line `+PREFIX: values`, trimmed, of at most `AT_RESPONSE_SIZE` bytes.
#[derive(Debug, PartialEq)]
pub struct CommandResponse {
    line: AtLine,
    prefix_len: usize,
}

/// What `CommandResponse::new` makes of a line: the stored text and the length of the prefix,
/// or the first error met.
pub open spec fn command_response_spec(s: Seq<char>) -> Result<(Seq<char>, nat), AtError> {
    match split_at_response_spec(s) {
        None => Err(AtError::ParseError),
        Some((p, v)) => match split_values_spec(v) {
            Err(e) => Err(e),
            Ok(_) => if encode_utf8(trim_spec(s)).len() <= AT_RESPONSE_SIZE {
                Ok((trim_spec(s), p.len()))
            } else {
                Err(AtError::BufferTooSmallError)
            },
        },
    }
}

/// Reading the line `s` as a command response slices its values at an impossible range.
pub open spec fn command_response_panics(s: Seq<char>) -> bool {
    split_at_response_spec(s) matches Some((p, v)) && split_values_panics(v)
}

/// Keeping the characters before `k` and the character at `k` of `s`, which are not all
/// whitespace at either end, trimming leaves them in place.
proof fn lemma_trim_keeps(s: Seq<char>, k: int)
    requires
        0 <= k < s.len(),
        !is_whitespace(s[0]),
        !is_whitespace(s[k]),
    ensures
        k < trim_spec(s).len() <= s.len(),
        forall|j: int| 0 <= j < trim_spec(s).len() ==> trim_spec(s)[j] == s[j],
{
    lemma_leading_ws_is(s, 0);
    let u = s.subrange(leading_ws(s) as int, s.len() as int);
    assert(u =~= s);
    lemma_trailing_ws(u);
    if k >= u.len() - trailing_ws(u) {
        assert(is_whitespace(u[k]));
    }
}

impl CommandResponse {
    #[verifier::type_invariant]
    spec fn wf(self) -> bool {
        &&& self.prefix_len + 2 <= self.line@.len()
        &&& self.line@[0] == '+'
    }

    /// The stored, trimmed line.
    pub closed spec fn text(self) -> Seq<char> {
        self.line@
    }

    /// The number of characters of the prefix.
    pub closed spec fn prefix_len(self) -> nat {
        self.prefix_len as nat
    }

    /// The command prefix, without the leading `+`.
    pub open spec fn command_spec(self) -> Seq<char> {
        self.text().subrange(1, 1 + self.prefix_len() as int)
    }

    /// The value list, after the `": "` that follows the prefix.
    pub open spec fn rest_spec(self) -> Seq<char> {
        self.text().subrange(self.prefix_len() + 3int, self.text().len() as int)
    }

    /// The stored line still holds a value list that splits without error.
    pub open spec fn has_values(self) -> bool {
        &&& self.prefix_len() + 3 <= self.text().len()
        &&& !split_values_panics(self.rest_spec())
        &&& split_values_spec(self.rest_spec()) is Ok
    }

    /// The values of the stored line.
    pub open spec fn values_spec(self) -> Seq<Seq<char>> {
        split_values_spec(self.rest_spec())->Ok_0
    }

    /// Parses a line of the modem as a command response.
    ///
    /// Fails with `ParseError` when the line has no `+PREFIX: ` head, with the error of the
    /// value list when it does not split, and with `BufferTooSmallError` when the trimmed line
    /// is longer than `AT_RESPONSE_SIZE` bytes.
    pub fn new(line: &str) -> (r: Result<CommandResponse, AtError>)
        requires
            !command_response_panics(line@),
        ensures
            r matches Ok(c) ==> command_response_spec(line@) == Ok::<(Seq<char>, nat), AtError>(
                (c.text(), c.prefix_len()),
            ),
            r matches Ok(c) ==> c.command_spec() == (split_at_response_spec(line@)->0).0,
            r matches Err(e) ==> command_response_spec(line@) == Err::<(Seq<char>, nat), AtError>(
                e,
            ),
            trim_spec(line@) == line@ ==> (r matches Ok(c) ==> c.has_values()),
    {
        let (prefix, rest) = match split_at_response(line) {
            Some(x) => x,
            None => return Err(AtError::ParseError),
        };
        match split_values(rest) {
            Ok(_) => {},
            Err(e) => return Err(e),
        }
        let t = trim(line);
        let l = match AtLine::new(t) {
            Some(l) => l,
            None => return Err(AtError::BufferTooSmallError),
        };
        let plen = prefix.unicode_len();
        proof {
            let s = line@;
            lemma_find_from(s, seq![':', ' '], 0);
            let p = find_from(s, seq![':', ' '], 0)->0;
            assert(s.subrange(p, p + 2)[0] == s[p]);
            lemma_trim_keeps(s, p);
            assert(l@[0] == s[0]);
        }
        let c = CommandResponse { line: l, prefix_len: plen };
        proof {
            let s = line@;
            let p = find_from(s, seq![':', ' '], 0)->0;
            assert(c.command_spec() =~= prefix@) by {
                assert forall|j: int| 0 <= j < plen implies c.command_spec()[j] == prefix@[j] by {
                    assert(c.text()[1 + j] == s[1 + j]);
                }
            }
            if trim_spec(s) == s {
                assert(c.rest_spec() =~= rest@);
            }
        }
        Ok(c)
    }

    /// The command prefix of the line, without the leading `+`.
    pub fn command(&self) -> (r: &str)
        ensures
            r@ == self.command_spec(),
    {
        proof {
            use_type_invariant(self);
        }
        let s = self.line.as_str();
        let n = s.unicode_len();
        s.substring_char(1, 1 + self.prefix_len)
    }

    /// The value list of the line, after the `": "` that follows the prefix.
    ///
    /// A line that ends right after its prefix has an empty value list.
    pub fn rest(&self) -> (r: &str)
        ensures
            r@ == if self.prefix_len() + 3 <= self.text().len() {
                self.rest_spec()
            } else {
                Seq::empty()
            },
    {
        proof {
            use_type_invariant(self);
        }
        let s = self.line.as_str();
        let n = s.unicode_len();
        if self.prefix_len < n && n - self.prefix_len >= 3 {
            s.substring_char(self.prefix_len + 3, n)
        } else {
            proof {
                reveal_strlit("");
            }
            ""
        }
    }

    /// Whether `values` can be called: the stored line still holds a value list that splits.
    pub fn values_available(&self) -> (r: bool)
        ensures
            r == self.has_values(),
    {
        let s = self.line.as_str();
        let n = s.unicode_len();
        if self.prefix_len >= n || n - self.prefix_len < 3 {
            return false;
        }
        let rest = s.substring_char(self.prefix_len + 3, n);
        if split_values_would_panic(rest) {
            return false;
        }
        split_values(rest).is_ok()
    }

    /// The values of the line, split as `split_values` does.
    pub fn values(&self) -> (r: Vec<&str>)
        requires
            self.has_values(),
        ensures
            views(r@) == self.values_spec(),
    {
        let s = self.line.as_str();
        let n = s.unicode_len();
        let rest = s.substring_char(self.prefix_len + 3, n);
        match split_values(rest) {
            Ok(v) => v,
            Err(_) => {
                assert(false);
                Vec::new()
            },
        }
    }

    /// Copies the values at `indices`.
    ///
    /// Fails with `ModemError` when an index is out of range.
    pub fn pick_values(&self, indices: &[usize]) -> (r: Result<Vec<String>, AtError>)
        requires
            self.has_values(),
            (forall|k: int| 0 <= k < indices@.len() ==> indices@[k] < self.values_spec().len())
                ==> forall|k: int|
                0 <= k < indices@.len() ==> encode_utf8(self.values_spec()[indices@[k] as int]).len()
                    <= AT_VALUE_LEN,
        ensures
            r is Ok <==> forall|k: int|
                0 <= k < indices@.len() ==> indices@[k] < self.values_spec().len(),
            r matches Err(e) ==> e == AtError::ModemError,
            r matches Ok(v) ==> v@.len() == indices@.len() && forall|k: int|
                0 <= k < indices@.len() ==> v@[k]@ == self.values_spec()[indices@[k] as int],
    {
        let values = self.values();
        let mut k: usize = 0;
        while k < indices.len()
            invariant
                views(values@) == self.values_spec(),
                k <= indices@.len(),
                forall|j: int| 0 <= j < k ==> indices@[j] < self.values_spec().len(),
            decreases indices@.len() - k,
        {
            if indices[k] >= values.len() {
                return Err(AtError::ModemError);
            }
            k = k + 1;
        }
        let mut picked: Vec<String> = Vec::new();
        let mut k: usize = 0;
        while k < indices.len()
            invariant
                views(values@) == self.values_spec(),
                forall|j: int| 0 <= j < indices@.len() ==> indices@[j] < self.values_spec().len(),
                k <= indices@.len(),
                picked@.len() == k,
                forall|j: int|
                    0 <= j < k ==> picked@[j]@ == self.values_spec()[indices@[j] as int],
            decreases indices@.len() - k,
        {
            let v: &str = values[indices[k]];
            assert(v@ == self.values_spec()[indices@[k as int] as int]);
            picked.push(v.to_owned());
            k = k + 1;
        }
        Ok(picked)
    }

    /// Parses every value of the line as a `T`.
    ///
    /// Fails with `ParseError` when a value does not parse.
    pub fn parse_values<T: AtValue>(&self) -> (r: Result<Vec<T>, AtError>)
        requires
            self.has_values(),
        ensures
            r is Ok <==> forall|i: int|
                0 <= i < self.values_spec().len() ==> T::accepts(self.values_spec()[i]),
            r matches Err(e) ==> e == AtError::ParseError,
            r matches Ok(v) ==> v@.len() == self.values_spec().len() && forall|i: int|
                0 <= i < v@.len() ==> v@[i].denotes(self.values_spec()[i]),
    {
        let values = self.values();
        let mut parsed: Vec<T> = Vec::new();
        let mut i: usize = 0;
        while i < values.len()
            invariant
                views(values@) == self.values_spec(),
                i <= values@.len(),
                parsed@.len() == i,
                forall|j: int| 0 <= j < i ==> T::accepts(self.values_spec()[j]),
                forall|j: int| 0 <= j < i ==> parsed@[j].denotes(self.values_spec()[j]),
            decreases values@.len() - i,
        {
            let v: &str = values[i];
            assert(v@ == self.values_spec()[i as int]);
            match T::parse_value(v) {
                Some(x) => parsed.push(x),
                None => return Err(AtError::ParseError),
            }
            i = i + 1;
        }
        Ok(parsed)
    }
}

/// Whether `split_values` would slice `values` at an impossible range.
pub fn split_values_would_panic(values: &str) -> (r: bool)
    ensures
        r == split_values_panics(values@),
{
    let mut rest: &str = values;
    let mut count: usize = 0;
    let mut n: usize = rest.unicode_len();
    while n > 0
        invariant
            n == rest@.len(),
            count <= AT_VALUE_COUNT + 1,
            split_tokens(values@).0.len() == count + split_tokens(rest@).0.len(),
            split_tokens(values@).1 == split_tokens(rest@).1,
        decreases n,
    {
        if count > AT_VALUE_COUNT {
            return false;
        }
        let cs = chars_of(rest);
        let pos: usize;
        if cs[0] == '"' {
            let pat: [char; 2] = ['"', ','];
            assert(pat@ =~= seq!['"', ',']);
            proof {
                lemma_find_from(rest@, seq!['"', ','], 0);
            }
            match find_in(&cs, pat.as_slice(), 0) {
                Some(p) => {
                    if p == 0 {
                        return true;
                    }
                    pos = p + 1;
                },
                None => {
                    return cs[n - 1] == '"' && n == 1;
                },
            }
        } else {
            let pat: [char; 1] = [','];
            assert(pat@ =~= seq![',']);
            proof {
                lemma_find_from(rest@, seq![','], 0);
            }
            match find_in(&cs, pat.as_slice(), 0) {
                Some(p) => {
                    pos = p;
                },
                None => {
                    pos = n;
                },
            }
        }
        count = count + 1;
        let next: &str = if pos >= n {
            rest.substring_char(n, n)
        } else {
            rest.substring_char(pos + 1, n)
        };
        rest = next;
        n = rest.unicode_len();
    }
    false
}

/// The abstract content of a modem line.
pub enum ModemLine {
    Okay,
    Error,
    CmeError(u16),
    /// A command response: its trimmed text and the length of its prefix.
    Response(Seq<char>, nat),
    Line(Seq<char>),
    Eof,
}

/// A line of the modem, classified.
#[derive(Debug, PartialEq)]
pub enum FromModem {
    /// `OK`, or a readiness line (`RDY`, `APP RDY`, `>`).
    Okay,
    Error,
    CmeError(u16),
    CommandResponse(CommandResponse),
    Line(AtLine),
    Eof,
}

impl View for FromModem {
    type V = ModemLine;

    open spec fn view(&self) -> ModemLine {
        match self {
            FromModem::Okay => ModemLine::Okay,
            FromModem::Error => ModemLine::Error,
            FromModem::CmeError(c) => ModemLine::CmeError(*c),
            FromModem::CommandResponse(c) => ModemLine::Response(c.text(), c.prefix_len()),
            FromModem::Line(l) => ModemLine::Line(l@),
            FromModem::Eof => ModemLine::Eof,
        }
    }
}

/// The code of a `+CME ERROR: <code>` line, when the code is a `u16`.
pub open spec fn cme_code(t: Seq<char>) -> Option<nat> {
    if starts_with(t, "+CME ERROR:"@) {
        parse_unsigned(trim_spec(t.subrange("+CME ERROR:"@.len() as int, t.len() as int)), 10, 0xffff)
    } else {
        None
    }
}

/// The lines that the modem sends for success or readiness.
pub open spec fn is_ok_word(t: Seq<char>) -> bool {
    t == "OK"@ || t == "RDY"@ || t == "APP RDY"@ || t == ">"@
}

/// How a line of the modem is classified.
pub open spec fn from_modem_spec(s: Seq<char>) -> Result<ModemLine, AtError> {
    let t = trim_spec(s);
    if cme_code(t) is Some {
        Ok(ModemLine::CmeError(cme_code(t)->0 as u16))
    } else if is_ok_word(t) {
        Ok(ModemLine::Okay)
    } else if t == "ERROR"@ {
        Ok(ModemLine::Error)
    } else {
        match command_response_spec(t) {
            Ok((x, p)) => Ok(ModemLine::Response(x, p)),
            Err(_) => if encode_utf8(t).len() <= AT_RESPONSE_SIZE {
                Ok(ModemLine::Line(t))
            } else {
                Err(AtError::BufferTooSmallError)
            },
        }
    }
}

/// Classifying the line `s` reads it as a command response whose values split at an
/// impossible range.
pub open spec fn from_modem_panics(s: Seq<char>) -> bool {
    let t = trim_spec(s);
    &&& cme_code(t) is None
    &&& !is_ok_word(t)
    &&& t != "ERROR"@
    &&& command_response_panics(t)
}

/// The line ends an answer.
pub open spec fn is_terminal_line(m: FromModem) -> bool {
    m is Okay || m is Error || m is CmeError || m is Eof
}

/// The line reports an error.
pub open spec fn is_error_line(m: FromModem) -> bool {
    m is Error || m is CmeError
}

/// The error that a line reports.
pub open spec fn error_of(m: FromModem) -> Option<AtError> {
    match m {
        FromModem::Error => Some(AtError::AtErrorResponse),
        FromModem::CmeError(c) => Some(AtError::CmeError(c)),
        _ => None,
    }
}

impl FromModem {
    /// Classifies a line that the modem sent.
    ///
    /// The line is trimmed; `+CME ERROR: <code>` gives `CmeError`, `OK`, `RDY`, `APP RDY` and
    /// `>` give `Ok`, `ERROR` gives `Error`, a command response gives `CommandResponse`, and any
    /// other line of at most `AT_RESPONSE_SIZE` bytes gives `Line`.
    pub fn try_from(line: &str) -> (r: Result<FromModem, AtError>)
        requires
            !from_modem_panics(line@),
        ensures
            r matches Ok(m) ==> from_modem_spec(line@) == Ok::<ModemLine, AtError>(m@),
            r matches Err(e) ==> from_modem_spec(line@) == Err::<ModemLine, AtError>(e),
            r matches Ok(FromModem::CommandResponse(c)) ==> c.has_values(),
    {
        let t = trim(line);
        if str_starts_with(t, "+CME ERROR:") {
            let k = "+CME ERROR:".unicode_len();
            let n = t.unicode_len();
            let code = trim(t.substring_char(k, n));
            match parse_unsigned_chars(&chars_of(code), 10, 0xffff) {
                Some(c) => {
                    return Ok(FromModem::CmeError(c as u16));
                },
                None => {},
            }
        }
        if str_eq(t, "OK") || str_eq(t, "RDY") || str_eq(t, "APP RDY") || str_eq(t, ">") {
            return Ok(FromModem::Okay);
        }
        if str_eq(t, "ERROR") {
            return Ok(FromModem::Error);
        }
        proof {
            lemma_trim_idempotent(line@);
        }
        match CommandResponse::new(t) {
            Ok(c) => Ok(FromModem::CommandResponse(c)),
            Err(_) => match AtLine::new(t) {
                Some(l) => Ok(FromModem::Line(l)),
                None => Err(AtError::BufferTooSmallError),
            },
        }
    }

    /// Whether the line ends an answer: `Ok`, `Error`, `CmeError` or `Eof`.
    pub fn terminal(&self) -> (r: bool)
        ensures
            r == is_terminal_line(*self),
    {
        match self {
            FromModem::Okay | FromModem::Error | FromModem::CmeError(_) | FromModem::Eof => true,
            _ => false,
        }
    }

    /// Whether the line is an error: `Error` or `CmeError`.
    pub fn is_error(&self) -> (r: bool)
        ensures
            r == is_error_line(*self),
    {
        match self {
            FromModem::Error | FromModem::CmeError(_) => true,
            _ => false,
        }
    }

    /// The error that the line reports, if it is one.
    pub fn into_error(&self) -> (r: Option<AtError>)
        ensures
            r == error_of(*self),
    {
        match self {
            FromModem::Error => Some(AtError::AtErrorResponse),
            FromModem::CmeError(code) => Some(AtError::CmeError(*code)),
            _ => None,
        }
    }
}

/// Adds a line read after a command to the lines of the answer, and returns whether the answer
/// is complete: the line ends it. An answer holds at most `AT_LINES` lines; a line more fails
/// with `BufferTooSmallError` and is not kept.
pub fn take_line(lines: &mut Vec<FromModem>, line: FromModem) -> (r: Result<bool, crate::error::Error>)
    requires
        old(lines)@.len() <= AT_LINES,
    ensures
        old(lines)@.len() < AT_LINES ==> final(lines)@ == old(lines)@.push(line) && r == Ok::<
            bool,
            crate::error::Error,
        >(is_terminal_line(line)),
        old(lines)@.len() == AT_LINES ==> final(lines)@ == old(lines)@ && r == Err::<
            bool,
            crate::error::Error,
        >(crate::error::Error::BufferTooSmallError),
{
    if lines.len() >= AT_LINES {
        return Err(crate::error::Error::BufferTooSmallError);
    }
    let done = line.terminal();
    lines.push(line);
    Ok(done)
}

/// What the last line of the answer to an AT command says: `OK` is success, `ERROR` and
/// `+CME ERROR` fail with their error, and any other line, or none, is an inconsistent answer.
pub open spec fn call_status_spec(lines: Seq<FromModem>) -> Result<(), AtError> {
    if lines.len() == 0 {
        Err(AtError::ModemError)
    } else {
        match lines.last() {
            FromModem::Okay => Ok(()),
            FromModem::Error => Err(AtError::AtErrorResponse),
            FromModem::CmeError(c) => Err(AtError::CmeError(c)),
            _ => Err(AtError::ModemError),
        }
    }
}

/// Checks the lines read after an AT command by their last line.
pub fn call_status(lines: &[FromModem]) -> (r: Result<(), AtError>)
    ensures
        r == call_status_spec(lines@),
{
    let n = lines.len();
    if n == 0 {
        return Err(AtError::ModemError);
    }
    match &lines[n - 1] {
        FromModem::Okay => Ok(()),
        FromModem::Error => Err(AtError::AtErrorResponse),
        FromModem::CmeError(c) => Err(AtError::CmeError(*c)),
        _ => Err(AtError::ModemError),
    }
}

/// The position of the first `=` or `?` of `c` at or after `i`, or the length of `c`.
pub open spec fn prefix_end_from(c: Seq<char>, i: int) -> int
    decreases c.len() - i,
{
    if i >= c.len() {
        c.len() as int
    } else if c[i] == '=' || c[i] == '?' {
        i
    } else {
        prefix_end_from(c, i + 1)
    }
}

/// The prefix of an AT command: what comes before its first `=` or `?`.
pub open spec fn command_prefix_of(c: Seq<char>) -> Seq<char> {
    c.subrange(0, prefix_end_from(c, 0))
}

/// A command prefix whose first character is one byte long, so that it can be dropped.
pub open spec fn prefix_sliceable(p: Seq<char>) -> bool {
    p.len() > 0 && (p[0] as u32) < 0x80
}

/// The line `l` is a command response for the command `cmd` that passes the filter: no
/// filter, or the value at the filter's index parses into the filter's value.
pub open spec fn line_selected<T: AtValue>(
    l: FromModem,
    cmd: Seq<char>,
    filter: Option<(T, usize)>,
) -> bool {
    match l {
        FromModem::CommandResponse(c) => c.command_spec() == cmd && match filter {
            None => true,
            Some((t, idx)) => idx < c.values_spec().len() && T::accepts(
                c.values_spec()[idx as int],
            ) && t.denotes(c.values_spec()[idx as int]),
        },
        _ => false,
    }
}

/// Examining the line `l` in a search for a response cannot fail: the prefix can lose its
/// first character, and the values of a matching line can be read when a filter needs them.
pub open spec fn line_safe<T: AtValue>(
    l: FromModem,
    prefix: Seq<char>,
    filter: Option<(T, usize)>,
) -> bool {
    match l {
        FromModem::CommandResponse(c) => prefix_sliceable(prefix) && (filter is Some
            && c.command_spec() == prefix.drop_first() ==> c.has_values()),
        _ => true,
    }
}

/// The index of the first line at or after `i` that `line_selected` accepts.
pub open spec fn response_index<T: AtValue>(
    lines: Seq<FromModem>,
    cmd: Seq<char>,
    filter: Option<(T, usize)>,
    i: int,
) -> Option<int>
    decreases lines.len() - i,
{
    if i < 0 || i >= lines.len() {
        None
    } else if line_selected(lines[i], cmd, filter) {
        Some(i)
    } else {
        response_index(lines, cmd, filter, i + 1)
    }
}

/// Every line that a search for a response examines from `i` on is safe.
pub open spec fn response_safe<T: AtValue>(
    lines: Seq<FromModem>,
    prefix: Seq<char>,
    filter: Option<(T, usize)>,
    i: int,
) -> bool
    decreases lines.len() - i,
{
    if i < 0 || i >= lines.len() {
        true
    } else {
        line_safe(lines[i], prefix, filter) && (line_selected(lines[i], prefix.drop_first(), filter)
            || response_safe(lines, prefix, filter, i + 1))
    }
}

/// A filter on the value at `idx`, when there is a value to filter for.
pub open spec fn with_index<T>(filter: Option<T>, idx: usize) -> Option<(T, usize)> {
    match filter {
        Some(t) => Some((t, idx)),
        None => None,
    }
}

/// Picking the values at `indices` of `c` copies no value longer than `AT_VALUE_LEN` bytes.
pub open spec fn pick_fits(c: CommandResponse, indices: Seq<usize>) -> bool {
    (forall|k: int| 0 <= k < indices.len() ==> indices[k] < c.values_spec().len()) ==> forall|
        k: int,
    |
        0 <= k < indices.len() ==> encode_utf8(c.values_spec()[indices[k] as int]).len()
            <= AT_VALUE_LEN
}

/// The answer of the modem to one AT command.
#[derive(Debug, PartialEq)]
pub struct AtResponse {
    lines: Vec<FromModem>,
    command_prefix: AtPrefix,
}

impl AtResponse {
    #[verifier::type_invariant]
    spec fn wf(self) -> bool {
        self.lines@.len() <= AT_LINES
    }

    /// The lines of the answer.
    pub closed spec fn lines_spec(self) -> Seq<FromModem> {
        self.lines@
    }

    /// The prefix of the command that was answered, e.g. `+QMTPUB`.
    pub closed spec fn prefix_spec(self) -> Seq<char> {
        self.command_prefix@
    }

    /// The response that `response(filter)` returns.
    pub open spec fn response_spec<T: AtValue>(self, filter: Option<(T, usize)>) -> Result<
        CommandResponse,
        AtError,
    > {
        match response_index(self.lines_spec(), self.prefix_spec().drop_first(), filter, 0) {
            Some(k) => Ok(self.lines_spec()[k]->CommandResponse_0),
            None => Err(AtError::ModemError),
        }
    }

    /// `response(filter)` does not fail on the way.
    pub open spec fn response_ok<T: AtValue>(self, filter: Option<(T, usize)>) -> bool {
        response_safe(self.lines_spec(), self.prefix_spec(), filter, 0)
    }

    /// Picking the values at `indices` from the response chosen by `filter` cannot fail on
    /// the way.
    pub open spec fn pick_ok<T: AtValue>(self, filter: Option<(T, usize)>, indices: Seq<usize>) -> bool {
        &&& self.response_ok(filter)
        &&& self.response_spec(filter) matches Ok(c) ==> c.has_values() && pick_fits(c, indices)
    }

    /// The values at `indices` of the response chosen by `filter`, or the error met.
    pub open spec fn picked<T: AtValue>(self, filter: Option<(T, usize)>, indices: Seq<usize>) -> Result<
        Seq<Seq<char>>,
        AtError,
    > {
        match self.response_spec(filter) {
            Err(e) => Err(e),
            Ok(c) => if forall|k: int| 0 <= k < indices.len() ==> indices[k] < c.values_spec().len() {
                Ok(indices.map_values(|i: usize| c.values_spec()[i as int]))
            } else {
                Err(AtError::ModemError)
            },
        }
    }

    /// Makes the answer to `command` from the lines read.
    ///
    /// Only the command prefix is kept: what comes before the first `=` or `?`.
    pub fn new(lines: Vec<FromModem>, command: &str) -> (r: AtResponse)
        requires
            lines@.len() <= AT_LINES,
            encode_utf8(command_prefix_of(command@)).len() <= AT_PREFIX_SIZE,
        ensures
            r.lines_spec() == lines@,
            r.prefix_spec() == command_prefix_of(command@),
    {
        let cs = chars_of(command);
        let n = cs.len();
        let mut pos: usize = 0;
        while pos < n && cs[pos] != '=' && cs[pos] != '?'
            invariant
                n == command@.len(),
                cs@ == command@,
                pos <= n,
                prefix_end_from(command@, 0) == prefix_end_from(command@, pos as int),
            decreases n - pos,
        {
            pos = pos + 1;
        }
        let command_prefix = AtPrefix::new(command.substring_char(0, pos)).unwrap();
        AtResponse { lines, command_prefix }
    }

    /// The lines of the answer, taken out of it.
    pub fn into_lines(self) -> (r: Vec<FromModem>)
        ensures
            r@ == self.lines_spec(),
    {
        self.lines
    }

    /// Whether a line of the answer is an error.
    pub fn is_error(&self) -> (r: bool)
        ensures
            r == exists|i: int|
                0 <= i < self.lines_spec().len() && is_error_line(#[trigger] self.lines_spec()[i]),
    {
        let mut i: usize = 0;
        while i < self.lines.len()
            invariant
                i <= self.lines@.len(),
                forall|j: int| 0 <= j < i ==> !is_error_line(#[trigger] self.lines@[j]),
            decreases self.lines@.len() - i,
        {
            if self.lines[i].is_error() {
                assert(is_error_line(self.lines_spec()[i as int]));
                return true;
            }
            i = i + 1;
        }
        false
    }

    /// The lines of the answer.
    pub fn lines(&self) -> (r: &[FromModem])
        ensures
            r@ == self.lines_spec(),
    {
        self.lines.as_slice()
    }

    /// The first command response to the command that passes `filter`.
    ///
    /// With no filter, the first command response to the command; with `(x, idx)`, the first
    /// one whose value at `idx` parses into `x`. Fails with `ModemError` when there is none.
    pub fn response<T: AtValue>(&self, filter: Option<(T, usize)>) -> (r: Result<
        &CommandResponse,
        AtError,
    >)
        requires
            self.response_ok(filter),
        ensures
            r matches Ok(c) ==> self.response_spec(filter) == Ok::<CommandResponse, AtError>(*c),
            r matches Err(e) ==> self.response_spec(filter) == Err::<CommandResponse, AtError>(e),
    {
        let ghost lines = self.lines@;
        let ghost cmd = self.command_prefix@.drop_first();
        let n = self.lines.len();
        let mut i: usize = 0;
        while i < n
            invariant
                n == lines.len(),
                lines == self.lines@,
                cmd == self.command_prefix@.drop_first(),
                i <= n,
                response_index(lines, cmd, filter, 0) == response_index(lines, cmd, filter, i as int),
                response_safe(lines, self.command_prefix@, filter, i as int),
            decreases n - i,
        {
            match &self.lines[i] {
                FromModem::CommandResponse(cr) => {
                    let p = self.command_prefix.as_str();
                    let pn = p.unicode_len();
                    let c = p.substring_char(1, pn);
                    assert(c@ =~= cmd);
                    if str_eq(cr.command(), c) {
                        match &filter {
                            None => {
                                return Ok(cr);
                            },
                            Some((t, idx)) => {
                                let values = cr.values();
                                if *idx < values.len() {
                                    let v: &str = values[*idx];
                                    assert(v@ == cr.values_spec()[*idx as int]);
                                    if t.matches_str(v) {
                                        return Ok(cr);
                                    }
                                }
                            },
                        }
                    }
                },
                _ => {},
            }
            i = i + 1;
        }
        Err(AtError::ModemError)
    }

    /// Whether `response(filter)` can be called and its response then has its values at
    /// `indices` picked, as the `parse` functions do, without failing on the way.
    pub fn pick_is_safe<T: AtValue>(&self, filter: &Option<(T, usize)>, indices: &[usize]) -> (r: bool)
        ensures
            r == self.pick_ok(*filter, indices@),
    {
        let ghost lines = self.lines@;
        let ghost prefix = self.command_prefix@;
        let ghost cmd = prefix.drop_first();
        let p = self.command_prefix.as_str();
        let pn = p.unicode_len();
        let sliceable = pn > 0 && (p.get_char(0) as u32) < 0x80;
        let n = self.lines.len();
        let mut i: usize = 0;
        while i < n
            invariant
                n == lines.len(),
                lines == self.lines@,
                prefix == self.command_prefix@,
                p@ == prefix,
                cmd == prefix.drop_first(),
                pn == prefix.len(),
                sliceable == prefix_sliceable(prefix),
                i <= n,
                response_index(lines, cmd, *filter, 0) == response_index(lines, cmd, *filter, i as int),
                response_safe(lines, prefix, *filter, 0) == response_safe(lines, prefix, *filter, i as int),
            decreases n - i,
        {
            match &self.lines[i] {
                FromModem::CommandResponse(cr) => {
                    if !sliceable {
                        return false;
                    }
                    let c = p.substring_char(1, pn);
                    assert(c@ =~= cmd);
                    if str_eq(cr.command(), c) {
                        match filter {
                            None => {
                                return cr.values_available() && picks_fit(cr, indices);
                            },
                            Some((t, idx)) => {
                                if !cr.values_available() {
                                    return false;
                                }
                                let values = cr.values();
                                if *idx < values.len() {
                                    let v: &str = values[*idx];
                                    assert(v@ == cr.values_spec()[*idx as int]);
                                    if t.matches_str(v) {
                                        return picks_fit(cr, indices);
                                    }
                                }
                            },
                        }
                    }
                },
                _ => {},
            }
            i = i + 1;
        }
        true
    }

    /// The number of values of the first command response to the command.
    pub fn count_response_values(&self) -> (r: Result<usize, AtError>)
        requires
            self.response_ok(None::<(u8, usize)>),
            self.response_spec(None::<(u8, usize)>) matches Ok(c) ==> c.has_values(),
        ensures
            r matches Ok(n) ==> self.response_spec(None::<(u8, usize)>) matches Ok(c) && n
                == c.values_spec().len(),
            r matches Err(e) ==> self.response_spec(None::<(u8, usize)>) == Err::<
                CommandResponse,
                AtError,
            >(e),
    {
        match self.response::<u8>(None) {
            Ok(c) => Ok(c.values().len()),
            Err(e) => Err(e),
        }
    }

    /// Copies the values at `indices` of the response chosen by `filter`, applied to the
    /// value at `indices[0]`.
    fn pick_values<T: AtValue>(&self, indices: &[usize], filter: Option<T>) -> (r: Result<
        Vec<String>,
        AtError,
    >)
        requires
            indices@.len() >= 1,
            self.pick_ok(with_index(filter, indices@[0]), indices@),
        ensures
            r matches Ok(v) ==> self.picked(with_index(filter, indices@[0]), indices@) matches Ok(
                w,
            ) && v@.len() == w.len() && forall|k: int| 0 <= k < w.len() ==> v@[k]@ == w[k],
            r matches Err(e) ==> self.picked(with_index(filter, indices@[0]), indices@) == Err::<
                Seq<Seq<char>>,
                AtError,
            >(e),
    {
        let f = match filter {
            Some(t) => Some((t, indices[0])),
            None => None,
        };
        match self.response(f) {
            Ok(c) => c.pick_values(indices),
            Err(e) => Err(e),
        }
    }

    /// Parses the value at `indices[0]` of the first command response to the command.
    pub fn parse1<T: AtValue>(self, indices: [usize; 1]) -> (r: Result<T, AtError>)
        requires
            self.pick_ok(None::<(T, usize)>, indices@),
        ensures
            match self.picked(None::<(T, usize)>, indices@) {
                Err(e) => r == Err::<T, AtError>(e),
                Ok(v) => if !T::accepts(v[0]) {
                    r == Err::<T, AtError>(AtError::ParseError)
                } else {
                    r matches Ok(a) && a.denotes(v[0])
                },
            },
    {
        assert(with_index(None::<T>, indices@[0]) == None::<(T, usize)>);
        let values = match self.pick_values::<T>(indices.as_slice(), None) {
            Ok(v) => v,
            Err(e) => return Err(e),
        };
        parse_one::<T>(values[0].as_str())
    }

    /// Parses the values at `indices` of the first command response to the command that
    /// passes `filter`, applied to the value at `indices[0]`.
    pub fn parse2<T: AtValue, U: AtValue>(self, indices: [usize; 2], filter: Option<T>) -> (r: Result<
        (T, U),
        AtError,
    >)
        requires
            self.pick_ok(with_index(filter, indices@[0]), indices@),
        ensures
            match self.picked(with_index(filter, indices@[0]), indices@) {
                Err(e) => r == Err::<(T, U), AtError>(e),
                Ok(v) => if !T::accepts(v[0]) || !U::accepts(v[1]) {
                    r == Err::<(T, U), AtError>(AtError::ParseError)
                } else {
                    r matches Ok((a, b)) && a.denotes(v[0]) && b.denotes(v[1])
                },
            },
    {
        let values = match self.pick_values::<T>(indices.as_slice(), filter) {
            Ok(v) => v,
            Err(e) => return Err(e),
        };
        let a = parse_one::<T>(values[0].as_str())?;
        let b = parse_one::<U>(values[1].as_str())?;
        Ok((a, b))
    }

    /// Parses the values at `indices` of the first command response to the command whose
    /// value at `indices[0]` parses into `filter`.
    pub fn parse3<T: AtValue, U: AtValue, V: AtValue>(self, indices: [usize; 3], filter: T) -> (r: Result<
        (T, U, V),
        AtError,
    >)
        requires
            self.pick_ok(Some((filter, indices@[0])), indices@),
        ensures
            match self.picked(Some((filter, indices@[0])), indices@) {
                Err(e) => r == Err::<(T, U, V), AtError>(e),
                Ok(v) => if !T::accepts(v[0]) || !U::accepts(v[1]) || !V::accepts(v[2]) {
                    r == Err::<(T, U, V), AtError>(AtError::ParseError)
                } else {
                    r matches Ok((a, b, c)) && a.denotes(v[0]) && b.denotes(v[1]) && c.denotes(v[2])
                },
            },
    {
        let ghost f = Some((filter, indices@[0]));
        assert(with_index(Some(filter), indices@[0]) == f);
        let values = match self.pick_values::<T>(indices.as_slice(), Some(filter)) {
            Ok(v) => v,
            Err(e) => return Err(e),
        };
        let a = parse_one::<T>(values[0].as_str())?;
        let b = parse_one::<U>(values[1].as_str())?;
        let c = parse_one::<V>(values[2].as_str())?;
        Ok((a, b, c))
    }

    /// Parses the values at `indices` of the first command response to the command.
    pub fn parse4<T: AtValue, U: AtValue, V: AtValue, W: AtValue>(self, indices: [usize; 4]) -> (r: Result<
        (T, U, V, W),
        AtError,
    >)
        requires
            self.pick_ok(None::<(T, usize)>, indices@),
        ensures
            match self.picked(None::<(T, usize)>, indices@) {
                Err(e) => r == Err::<(T, U, V, W), AtError>(e),
                Ok(v) => if !T::accepts(v[0]) || !U::accepts(v[1]) || !V::accepts(v[2])
                    || !W::accepts(v[3]) {
                    r == Err::<(T, U, V, W), AtError>(AtError::ParseError)
                } else {
                    r matches Ok((a, b, c, d)) && a.denotes(v[0]) && b.denotes(v[1]) && c.denotes(
                        v[2],
                    ) && d.denotes(v[3])
                },
            },
    {
        assert(with_index(None::<T>, indices@[0]) == None::<(T, usize)>);
        let values = match self.pick_values::<T>(indices.as_slice(), None) {
            Ok(v) => v,
            Err(e) => return Err(e),
        };
        let a = parse_one::<T>(values[0].as_str())?;
        let b = parse_one::<U>(values[1].as_str())?;
        let c = parse_one::<V>(values[2].as_str())?;
        let d = parse_one::<W>(values[3].as_str())?;
        Ok((a, b, c, d))
    }
}

/// Whether picking the values at `indices` of `c` copies no value longer than `AT_VALUE_LEN`
/// bytes.
fn picks_fit(c: &CommandResponse, indices: &[usize]) -> (r: bool)
    requires
        c.has_values(),
    ensures
        r == pick_fits(*c, indices@),
{
    let values = c.values();
    let mut k: usize = 0;
    while k < indices.len()
        invariant
            views(values@) == c.values_spec(),
            k <= indices@.len(),
            forall|j: int| 0 <= j < k ==> indices@[j] < c.values_spec().len(),
        decreases indices@.len() - k,
    {
        if indices[k] >= values.len() {
            return true;
        }
        k = k + 1;
    }
    let mut k: usize = 0;
    while k < indices.len()
        invariant
            views(values@) == c.values_spec(),
            k <= indices@.len(),
            forall|j: int| 0 <= j < indices@.len() ==> indices@[j] < c.values_spec().len(),
            forall|j: int|
                0 <= j < k ==> encode_utf8(c.values_spec()[indices@[j] as int]).len() <= AT_VALUE_LEN,
        decreases indices@.len() - k,
    {
        let v: &str = values[indices[k]];
        assert(v@ == c.values_spec()[indices@[k as int] as int]);
        if utf8_len(v) > AT_VALUE_LEN {
            return false;
        }
        k = k + 1;
    }
    true
}

/// Parses `s` as a `T`, failing with `ParseError`.
fn parse_one<T: AtValue>(s: &str) -> (r: Result<T, AtError>)
    ensures
        r is Ok <==> T::accepts(s@),
        r matches Ok(v) ==> v.denotes(s@),
        r matches Err(e) ==> e == AtError::ParseError,
{
    match T::parse_value(s) {
        Some(v) => Ok(v),
        None => Err(AtError::ParseError),
    }
}

/// Classifying a line does not depend on the whitespace around it.
pub proof fn lemma_classification_ignores_whitespace(s: Seq<char>)
    ensures
        from_modem_spec(trim_spec(s)) == from_modem_spec(s),
        from_modem_panics(trim_spec(s)) == from_modem_panics(s),
{
    lemma_trim_idempotent(s);
}

/// A line that reports an error ends the answer, and it is exactly the lines that report an
/// error that `into_error` turns into an error.
pub proof fn lemma_error_lines(m: FromModem)
    ensures
        is_error_line(m) ==> is_terminal_line(m),
        error_of(m) is Some <==> is_error_line(m),
{
}

/// A line without the `\r` that ends it, if any.
pub open spec fn strip_cr(l: Seq<char>) -> Seq<char> {
    if l.len() > 0 && l.last() == '\r' {
        l.drop_last()
    } else {
        l
    }
}

/// The nonempty lines of `s`: lines end at `\n` (or `\r\n`); the last one need not end.
pub open spec fn modem_lines_spec(s: Seq<char>) -> Seq<Seq<char>>
    decreases s.len(),
{
    if s.len() == 0 {
        seq![]
    } else {
        proof {
            lemma_find_from(s, seq!['\n'], 0);
        }
        match find_from(s, seq!['\n'], 0) {
            Some(p) => {
                let l = strip_cr(s.subrange(0, p));
                let rest = modem_lines_spec(s.subrange(p + 1, s.len() as int));
                if l.len() > 0 {
                    seq![l] + rest
                } else {
                    rest
                }
            },
            None => seq![s],
        }
    }
}

/// The nonempty lines of a text that the modem sent.
pub fn modem_lines(text: &str) -> (r: Vec<&str>)
    ensures
        views(r@) == modem_lines_spec(text@),
{
    let mut lines: Vec<&str> = Vec::new();
    let mut rest: &str = text;
    let mut n = rest.unicode_len();
    assert(views(lines@) + modem_lines_spec(rest@) =~= modem_lines_spec(text@));
    while n > 0
        invariant
            n == rest@.len(),
            views(lines@) + modem_lines_spec(rest@) == modem_lines_spec(text@),
        decreases n,
    {
        let cs = chars_of(rest);
        let pat: [char; 1] = ['\n'];
        assert(pat@ =~= seq!['\n']);
        proof {
            lemma_find_from(rest@, seq!['\n'], 0);
        }
        let ghost before = views(lines@);
        match find_in(&cs, pat.as_slice(), 0) {
            Some(p) => {
                let mut end = p;
                if p > 0 && cs[p - 1] == '\r' {
                    end = p - 1;
                }
                let line = rest.substring_char(0, end);
                assert(line@ =~= strip_cr(rest@.subrange(0, p as int)));
                let next = rest.substring_char(p + 1, n);
                if end > 0 {
                    lines.push(line);
                    assert(views(lines@) =~= before + seq![line@]);
                }
                proof {
                    if end > 0 {
                        assert(modem_lines_spec(rest@) =~= seq![line@] + modem_lines_spec(next@));
                    }
                }
                rest = next;
            },
            None => {
                lines.push(rest);
                assert(views(lines@) =~= before + seq![rest@]);
                rest = rest.substring_char(n, n);
            },
        }
        n = rest.unicode_len();
    }
    assert(views(lines@) =~= views(lines@) + modem_lines_spec(rest@));
    lines
}

/// How the broker of the modem's lines classifies a line.
pub open spec fn broker_line_spec(l: Seq<char>) -> Result<ModemLine, crate::error::Error> {
    if l == "OK"@ || l == "RDY"@ || l == "APP RDY"@ || l == "> "@ {
        Ok(ModemLine::Okay)
    } else if l == "ERROR"@ {
        Ok(ModemLine::Error)
    } else {
        match command_response_spec(l) {
            Ok((x, p)) => Ok(ModemLine::Response(x, p)),
            Err(_) => if encode_utf8(l).len() <= AT_RESPONSE_SIZE {
                Ok(ModemLine::Line(l))
            } else {
                Err(crate::error::Error::BufferTooSmallError)
            },
        }
    }
}

/// Classifies a line for the broker: the words for success or readiness, `ERROR`, a command
/// response, or any other line of at most `AT_RESPONSE_SIZE` bytes.
pub fn broker_line(line: &str) -> (r: Result<FromModem, crate::error::Error>)
    requires
        !command_response_panics(line@),
    ensures
        match r {
            Ok(m) => broker_line_spec(line@) == Ok::<ModemLine, crate::error::Error>(m@),
            Err(e) => broker_line_spec(line@) == Err::<ModemLine, crate::error::Error>(e),
        },
{
    if str_eq(line, "OK") || str_eq(line, "RDY") || str_eq(line, "APP RDY") || str_eq(line, "> ") {
        return Ok(FromModem::Okay);
    }
    if str_eq(line, "ERROR") {
        return Ok(FromModem::Error);
    }
    match CommandResponse::new(line) {
        Ok(c) => Ok(FromModem::CommandResponse(c)),
        Err(_) => match AtLine::new(line) {
            Some(l) => Ok(FromModem::Line(l)),
            None => Err(crate::error::Error::BufferTooSmallError),
        },
    }
}

/// Whether the lines passed on so far leave an answer open: the last one was not terminal.
#[derive(Debug, Clone, Copy, PartialEq, Eq, Structural)]
pub struct BrokerStream {
    pub open: bool,
}

impl BrokerStream {
    /// Nothing passed on yet.
    pub fn new() -> (r: BrokerStream)
        ensures
            !r.open,
    {
        BrokerStream { open: false }
    }

    /// Notes a line passed on: an answer stays open after a line that does not end it.
    pub fn forward(&mut self, item: &Result<FromModem, crate::error::Error>)
        ensures
            final(self).open == match item {
                Ok(m) => !is_terminal_line(*m),
                Err(_) => false,
            },
    {
        self.open = match item {
            Ok(m) => !m.terminal(),
            Err(_) => false,
        };
    }

    /// Whether an `Eof` is to be passed on to end the open answer.
    pub fn needs_eof(&self) -> (r: bool)
        ensures
            r == self.open,
    {
        self.open
    }
}

} // verus!
