//! Character-level text helpers: searching, trimming and parsing of numbers.
//!
//! All specifications in this module speak of a string through its view, the
//! sequence of its `char`s.
use vstd::prelude::*;
use vstd::string::*;
use vstd::utf8::{
    decode_utf8, encode_utf8, encode_utf8_decode_utf8, encode_utf8_valid_utf8,
    is_char_boundary, is_char_boundary_iff_not_is_continuation_byte,
    is_char_boundary_start_end_of_seq,
};

verus! {

/// Unicode `White_Space` characters, the set that `str::trim` removes.
pub open spec fn is_whitespace(c: char) -> bool {
    let u = c as u32;
    ||| 0x09 <= u <= 0x0d
    ||| u == 0x20
    ||| u == 0x85
    ||| u == 0xa0
    ||| u == 0x1680
    ||| 0x2000 <= u <= 0x200a
    ||| u == 0x2028
    ||| u == 0x2029
    ||| u == 0x202f
    ||| u == 0x205f
    ||| u == 0x3000
}

pub fn is_whitespace_char(c: char) -> (r: bool)
    ensures
        r == is_whitespace(c),
{
    let u = c as u32;
    (0x09 <= u && u <= 0x0d) || u == 0x20 || u == 0x85 || u == 0xa0 || u == 0x1680 || (0x2000 <= u
        && u <= 0x200a) || u == 0x2028 || u == 0x2029 || u == 0x202f || u == 0x205f || u == 0x3000
}

/// Number of whitespace characters at the start of `s`.
pub open spec fn leading_ws(s: Seq<char>) -> nat
    decreases s.len(),
{
    if s.len() > 0 && is_whitespace(s[0]) {
        1 + leading_ws(s.drop_first())
    } else {
        0
    }
}

/// Number of whitespace characters at the end of `s`.
pub open spec fn trailing_ws(s: Seq<char>) -> nat
    decreases s.len(),
{
    if s.len() > 0 && is_whitespace(s.last()) {
        1 + trailing_ws(s.drop_last())
    } else {
        0
    }
}

/// `s` without its leading and its trailing whitespace (what `str::trim` returns).
pub open spec fn trim_spec(s: Seq<char>) -> Seq<char> {
    let t = s.subrange(leading_ws(s) as int, s.len() as int);
    t.subrange(0, t.len() - trailing_ws(t))
}

pub proof fn lemma_leading_ws(s: Seq<char>)
    ensures
        leading_ws(s) <= s.len(),
        forall|i: int| 0 <= i < leading_ws(s) ==> is_whitespace(#[trigger] s[i]),
        leading_ws(s) < s.len() ==> !is_whitespace(s[leading_ws(s) as int]),
    decreases s.len(),
{
    if s.len() > 0 && is_whitespace(s[0]) {
        lemma_leading_ws(s.drop_first());
        assert forall|i: int| 0 <= i < leading_ws(s) implies is_whitespace(#[trigger] s[i]) by {
            if i > 0 {
                assert(s[i] == s.drop_first()[i - 1]);
            }
        }
    }
}

pub proof fn lemma_trailing_ws(s: Seq<char>)
    ensures
        trailing_ws(s) <= s.len(),
        forall|i: int| s.len() - trailing_ws(s) <= i < s.len() ==> is_whitespace(#[trigger] s[i]),
        trailing_ws(s) < s.len() ==> !is_whitespace(s[s.len() - 1 - trailing_ws(s)]),
    decreases s.len(),
{
    if s.len() > 0 && is_whitespace(s.last()) {
        lemma_trailing_ws(s.drop_last());
        assert forall|i: int|
            s.len() - trailing_ws(s) <= i < s.len() implies is_whitespace(#[trigger] s[i]) by {
            if i < s.len() - 1 {
                assert(s[i] == s.drop_last()[i]);
            }
        }
    }
}

/// Characterises `leading_ws` by the position of the first non-whitespace character.
pub proof fn lemma_leading_ws_is(s: Seq<char>, k: int)
    requires
        0 <= k <= s.len(),
        forall|i: int| 0 <= i < k ==> is_whitespace(#[trigger] s[i]),
        k < s.len() ==> !is_whitespace(s[k]),
    ensures
        leading_ws(s) == k,
    decreases s.len(),
{
    if k > 0 {
        assert(is_whitespace(s[0]));
        assert forall|i: int| 0 <= i < k - 1 implies is_whitespace(#[trigger] s.drop_first()[i]) by {
            assert(s.drop_first()[i] == s[i + 1]);
        }
        lemma_leading_ws_is(s.drop_first(), k - 1);
    } else if s.len() > 0 {
        assert(!is_whitespace(s[0]));
    }
}

/// Characterises `trailing_ws` by the position of the last non-whitespace character.
pub proof fn lemma_trailing_ws_is(s: Seq<char>, k: int)
    requires
        0 <= k <= s.len(),
        forall|i: int| s.len() - k <= i < s.len() ==> is_whitespace(#[trigger] s[i]),
        k < s.len() ==> !is_whitespace(s[s.len() - 1 - k]),
    ensures
        trailing_ws(s) == k,
    decreases s.len(),
{
    if k > 0 {
        assert(is_whitespace(s[s.len() - 1]));
        assert forall|i: int|
            s.drop_last().len() - (k - 1) <= i < s.drop_last().len() implies is_whitespace(
            #[trigger] s.drop_last()[i],
        ) by {
            assert(s.drop_last()[i] == s[i]);
        }
        lemma_trailing_ws_is(s.drop_last(), k - 1);
    } else if s.len() > 0 {
        assert(!is_whitespace(s[s.len() - 1]));
    }
}

/// Trimming a string that is already trimmed changes nothing.
pub proof fn lemma_trim_idempotent(s: Seq<char>)
    ensures
        trim_spec(trim_spec(s)) == trim_spec(s),
{
    let t = trim_spec(s);
    let u = s.subrange(leading_ws(s) as int, s.len() as int);
    lemma_leading_ws(s);
    lemma_trailing_ws(u);
    lemma_leading_ws(u);
    if t.len() > 0 {
        assert(t[0] == s[leading_ws(s) as int]);
        lemma_leading_ws_is(t, 0);
        assert(t[t.len() - 1] == u[u.len() - 1 - trailing_ws(u)]);
        lemma_trailing_ws_is(t, 0);
    } else {
        lemma_leading_ws_is(t, 0);
        lemma_trailing_ws_is(t, 0);
    }
    assert(trim_spec(t) =~= t);
}

/// The characters of `s`, one by one.
pub fn chars_of(s: &str) -> (v: Vec<char>)
    ensures
        v@ == s@,
{
    let n = s.unicode_len();
    let mut v: Vec<char> = Vec::new();
    let mut i: usize = 0;
    while i < n
        invariant
            n == s@.len(),
            i <= n,
            v@ == s@.subrange(0, i as int),
        decreases n - i,
    {
        let c = s.get_char(i);
        v.push(c);
        i = i + 1;
        assert(v@ =~= s@.subrange(0, i as int));
    }
    assert(v@ =~= s@);
    v
}

/// `s` with its leading and trailing whitespace removed, as `str::trim` does.
pub fn trim(s: &str) -> (r: &str)
    ensures
        r@ == trim_spec(s@),
{
    let cs = chars_of(s);
    let n = cs.len();
    let mut a: usize = 0;
    while a < n && is_whitespace_char(cs[a])
        invariant
            cs@ == s@,
            n == cs@.len(),
            a <= n,
            forall|i: int| 0 <= i < a ==> is_whitespace(#[trigger] s@[i]),
        decreases n - a,
    {
        a = a + 1;
    }
    proof {
        lemma_leading_ws_is(s@, a as int);
    }
    let ghost u = s@.subrange(a as int, n as int);
    let mut b: usize = n;
    while b > a && is_whitespace_char(cs[b - 1])
        invariant
            cs@ == s@,
            n == cs@.len(),
            a <= b <= n,
            u == s@.subrange(a as int, n as int),
            forall|i: int| b <= i < n ==> is_whitespace(#[trigger] s@[i]),
        decreases b - a,
    {
        b = b - 1;
    }
    proof {
        assert forall|i: int| u.len() - (n - b) <= i < u.len() implies is_whitespace(
            #[trigger] u[i],
        ) by {
            assert(u[i] == s@[a + i]);
        }
        if n - b < u.len() {
            assert(u[u.len() - 1 - (n - b)] == s@[b - 1]);
        }
        lemma_trailing_ws_is(u, (n - b) as int);
    }
    let r = s.substring_char(a, b);
    assert(r@ =~= trim_spec(s@));
    r
}

/// `pat` occurs in `s` at position `i`.
pub open spec fn occurs_at<A>(s: Seq<A>, pat: Seq<A>, i: int) -> bool {
    0 <= i && i + pat.len() <= s.len() && s.subrange(i, i + pat.len()) == pat
}

/// `i` is the first position, not before `from`, at which `pat` occurs in `s`.
pub open spec fn first_occurrence<A>(s: Seq<A>, pat: Seq<A>, from: int, i: int) -> bool {
    &&& from <= i
    &&& occurs_at(s, pat, i)
    &&& forall|j: int| from <= j < i ==> !occurs_at(s, pat, j)
}

/// `pat` does not occur in `s` at or after `from`.
pub open spec fn no_occurrence<A>(s: Seq<A>, pat: Seq<A>, from: int) -> bool {
    forall|j: int| from <= j ==> !occurs_at(s, pat, j)
}

/// The position of the first occurrence of `pat` in `s` at or after `from`, if any.
pub open spec fn find_from<A>(s: Seq<A>, pat: Seq<A>, from: int) -> Option<int> {
    if exists|i: int| first_occurrence(s, pat, from, i) {
        Some(choose|i: int| first_occurrence(s, pat, from, i))
    } else {
        None
    }
}

pub proof fn lemma_first_occurrence_unique<A>(s: Seq<A>, pat: Seq<A>, from: int, i: int, j: int)
    requires
        first_occurrence(s, pat, from, i),
        first_occurrence(s, pat, from, j),
    ensures
        i == j,
{
}

/// What `find_from` returns, stated through its two possible outcomes.
pub proof fn lemma_find_from<A>(s: Seq<A>, pat: Seq<A>, from: int)
    ensures
        find_from(s, pat, from) matches Some(i) ==> first_occurrence(s, pat, from, i),
        find_from(s, pat, from) is None ==> no_occurrence(s, pat, from),
{
    if exists|i: int| first_occurrence(s, pat, from, i) {
    } else {
        assert forall|j: int| from <= j implies !occurs_at(s, pat, j) by {
            if occurs_at(s, pat, j) {
                lemma_earliest_exists(s, pat, from, j);
            }
        }
    }
}

proof fn lemma_earliest_exists<A>(s: Seq<A>, pat: Seq<A>, from: int, j: int)
    requires
        from <= j,
        occurs_at(s, pat, j),
    ensures
        exists|i: int| first_occurrence(s, pat, from, i),
    decreases j - from,
{
    if forall|k: int| from <= k < j ==> !occurs_at(s, pat, k) {
        assert(first_occurrence(s, pat, from, j));
    } else {
        let k = choose|k: int| from <= k < j && occurs_at(s, pat, k);
        lemma_earliest_exists(s, pat, from, k);
    }
}

/// Finds the first occurrence of the one- or two-character pattern `pat` in `cs`, at or after
/// `from`.
pub fn find_in(cs: &Vec<char>, pat: &[char], from: usize) -> (r: Option<usize>)
    requires
        1 <= pat@.len() <= 2,
    ensures
        r matches Some(i) ==> i as int == find_from(cs@, pat@, from as int)->0,
        r is None <==> find_from(cs@, pat@, from as int) is None,
{
    let n = cs.len();
    let m = pat.len();
    let mut i = from;
    while i < n
        invariant
            n == cs@.len(),
            m == pat@.len(),
            1 <= m <= 2,
            from <= i,
            forall|j: int| from <= j < i ==> !occurs_at(cs@, pat@, j),
        decreases n - i,
    {
        if m <= n - i {
            let hit = if m == 1 {
                cs[i] == pat[0]
            } else {
                cs[i] == pat[0] && cs[i + 1] == pat[1]
            };
            if hit {
                proof {
                    assert(cs@.subrange(i as int, i + m) =~= pat@);
                    assert(first_occurrence(cs@, pat@, from as int, i as int));
                    lemma_find_from(cs@, pat@, from as int);
                    let k = find_from(cs@, pat@, from as int)->0;
                    lemma_first_occurrence_unique(cs@, pat@, from as int, i as int, k);
                }
                return Some(i);
            } else {
                proof {
                    if occurs_at(cs@, pat@, i as int) {
                        assert(cs@.subrange(i as int, i + m)[0] == cs@[i as int]);
                        if m == 2 {
                            assert(cs@.subrange(i as int, i + m)[1] == cs@[i + 1]);
                        }
                    }
                }
            }
        }
        i = i + 1;
    }
    proof {
        assert forall|j: int| from <= j implies !occurs_at(cs@, pat@, j) by {
            if j >= n {
            }
        }
        lemma_find_from(cs@, pat@, from as int);
        if find_from(cs@, pat@, from as int) is Some {
            let k = find_from(cs@, pat@, from as int)->0;
            assert(occurs_at(cs@, pat@, k));
        }
    }
    None
}


/// The value of `c` as a digit in base `radix` (10 or 16), as `char::to_digit` gives it.
pub open spec fn digit_value(c: char, radix: nat) -> Option<nat> {
    let u = c as u32;
    if 0x30 <= u <= 0x39 {
        Some((u - 0x30) as nat)
    } else if radix == 16 && 0x61 <= u <= 0x66 {
        Some((u - 0x61 + 10) as nat)
    } else if radix == 16 && 0x41 <= u <= 0x46 {
        Some((u - 0x41 + 10) as nat)
    } else {
        None
    }
}

/// Every character of `s` is a digit in base `radix`.
pub open spec fn all_digits(s: Seq<char>, radix: nat) -> bool {
    forall|i: int| 0 <= i < s.len() ==> #[trigger] digit_value(s[i], radix) is Some
}

/// The number that the digits `s` spell in base `radix`.
pub open spec fn digits_value(s: Seq<char>, radix: nat) -> nat
    decreases s.len(),
{
    if s.len() == 0 {
        0
    } else {
        digits_value(s.drop_last(), radix) * radix + digit_value(s.last(), radix).unwrap_or(0)
    }
}

/// The digits of an unsigned number: `s` without a leading `+`.
pub open spec fn unsigned_digits(s: Seq<char>) -> Seq<char> {
    if s.len() > 0 && s[0] == '+' {
        s.drop_first()
    } else {
        s
    }
}

/// What `from_str_radix(s, radix)` returns for an unsigned integer type whose largest value is
/// `max`: an optional `+` followed by at least one digit, of value at most `max`.
pub open spec fn parse_unsigned(s: Seq<char>, radix: nat, max: nat) -> Option<nat> {
    let d = unsigned_digits(s);
    if d.len() > 0 && all_digits(d, radix) && digits_value(d, radix) <= max {
        Some(digits_value(d, radix))
    } else {
        None
    }
}

/// What `str::parse` returns for a signed integer type whose largest value is `max` (and whose
/// smallest value is `-max - 1`): an optional sign followed by at least one decimal digit.
pub open spec fn parse_signed(s: Seq<char>, max: nat) -> Option<int> {
    if s.len() > 0 && s[0] == '-' {
        let d = s.drop_first();
        if d.len() > 0 && all_digits(d, 10) && digits_value(d, 10) <= max + 1 {
            Some(-(digits_value(d, 10) as int))
        } else {
            None
        }
    } else {
        match parse_unsigned(s, 10, max) {
            Some(v) => Some(v as int),
            None => None,
        }
    }
}

proof fn lemma_digits_step(s: Seq<char>, radix: nat, j: int)
    requires
        0 <= j < s.len(),
    ensures
        digits_value(s.subrange(0, j + 1), radix) == digits_value(s.subrange(0, j), radix) * radix
            + digit_value(s[j], radix).unwrap_or(0),
{
    assert(s.subrange(0, j + 1).drop_last() =~= s.subrange(0, j));
}

proof fn lemma_digits_monotone(s: Seq<char>, radix: nat, i: int, j: int)
    requires
        0 <= i <= j <= s.len(),
        radix >= 1,
    ensures
        digits_value(s.subrange(0, i), radix) <= digits_value(s.subrange(0, j), radix),
    decreases j - i,
{
    if i < j {
        lemma_digits_monotone(s, radix, i, j - 1);
        lemma_digits_step(s, radix, j - 1);
        let a = digits_value(s.subrange(0, j - 1), radix);
        assert(a * radix >= a) by (nonlinear_arith)
            requires
                radix >= 1,
        ;
    }
}

fn digit_of(c: char, radix: u32) -> (r: Option<u32>)
    requires
        radix == 10 || radix == 16,
    ensures
        r matches Some(v) ==> digit_value(c, radix as nat) == Some(v as nat) && v < radix,
        r is None ==> digit_value(c, radix as nat) is None,
{
    let u = c as u32;
    if 0x30 <= u && u <= 0x39 {
        Some(u - 0x30)
    } else if radix == 16 && 0x61 <= u && u <= 0x66 {
        Some(u - 0x61 + 10)
    } else if radix == 16 && 0x41 <= u && u <= 0x46 {
        Some(u - 0x41 + 10)
    } else {
        None
    }
}

/// The value of the digits `cs[start..]` in base `radix`, when they are all digits, there is at
/// least one, and the value is at most `max`.
pub fn parse_digits(cs: &Vec<char>, start: usize, radix: u32, max: u64) -> (r: Option<u64>)
    requires
        radix == 10 || radix == 16,
        start <= cs@.len(),
    ensures
        ({
            let d = cs@.subrange(start as int, cs@.len() as int);
            &&& r matches Some(v) ==> d.len() > 0 && all_digits(d, radix as nat) && v
                == digits_value(d, radix as nat) && v <= max
            &&& r is None ==> !(d.len() > 0 && all_digits(d, radix as nat) && digits_value(
                d,
                radix as nat,
            ) <= max)
        }),
{
    let n = cs.len();
    let ghost d = cs@.subrange(start as int, n as int);
    if start == n {
        return None;
    }
    let mut acc: u128 = 0;
    let mut i = start;
    while i < n
        invariant
            n == cs@.len(),
            start < n,
            start <= i <= n,
            radix == 10 || radix == 16,
            d == cs@.subrange(start as int, n as int),
            acc <= max,
            acc == digits_value(d.subrange(0, i - start), radix as nat),
            all_digits(d.subrange(0, i - start), radix as nat),
        decreases n - i,
    {
        let dv = match digit_of(cs[i], radix) {
            Some(v) => v,
            None => {
                proof {
                    assert(d[i - start] == cs@[i as int]);
                }
                return None;
            },
        };
        proof {
            lemma_digits_step(d, radix as nat, i - start);
            assert(d[i - start] == cs@[i as int]);
        }
        assert(acc * (radix as u128) <= 0xffff_ffff_ffff_ffff * 16) by (nonlinear_arith)
            requires
                acc <= 0xffff_ffff_ffff_ffff,
                radix <= 16,
        ;
        acc = acc * (radix as u128) + dv as u128;
        i = i + 1;
        proof {
            assert forall|k: int| 0 <= k < i - start implies #[trigger] digit_value(
                d.subrange(0, i - start)[k],
                radix as nat,
            ) is Some by {
                if k < i - 1 - start {
                    assert(d.subrange(0, i - start)[k] == d.subrange(0, i - 1 - start)[k]);
                }
            }
        }
        if acc > max as u128 {
            proof {
                lemma_digits_monotone(d, radix as nat, i - start, d.len() as int);
                assert(d.subrange(0, d.len() as int) =~= d);
            }
            return None;
        }
    }
    proof {
        assert(d.subrange(0, n - start) =~= d);
    }
    Some(acc as u64)
}

/// Parses an unsigned number as `from_str_radix(s, radix)` does for a type whose largest value
/// is `max`.
pub fn parse_unsigned_chars(cs: &Vec<char>, radix: u32, max: u64) -> (r: Option<u64>)
    requires
        radix == 10 || radix == 16,
    ensures
        r matches Some(v) ==> parse_unsigned(cs@, radix as nat, max as nat) == Some(v as nat),
        r is None ==> parse_unsigned(cs@, radix as nat, max as nat) is None,
{
    let start: usize = if cs.len() > 0 && cs[0] == '+' {
        1
    } else {
        0
    };
    proof {
        assert(unsigned_digits(cs@) =~= cs@.subrange(start as int, cs@.len() as int));
    }
    parse_digits(cs, start, radix, max)
}

/// Parses a signed decimal number as `str::parse` does for a type whose largest value is `max`.
pub fn parse_signed_chars(cs: &Vec<char>, max: u64) -> (r: Option<i128>)
    requires
        max < u64::MAX,
    ensures
        r matches Some(v) ==> parse_signed(cs@, max as nat) == Some(v as int),
        r is None ==> parse_signed(cs@, max as nat) is None,
{
    if cs.len() > 0 && cs[0] == '-' {
        proof {
            assert(cs@.drop_first() =~= cs@.subrange(1, cs@.len() as int));
        }
        match parse_digits(cs, 1, 10, max + 1) {
            Some(v) => Some(-(v as i128)),
            None => None,
        }
    } else {
        match parse_unsigned_chars(cs, 10, max) {
            Some(v) => Some(v as i128),
            None => None,
        }
    }
}

/// `s` starts with `prefix`.
pub open spec fn starts_with(s: Seq<char>, prefix: Seq<char>) -> bool {
    prefix.len() <= s.len() && s.subrange(0, prefix.len() as int) == prefix
}

/// The views of a sequence of string slices.
pub open spec fn views(s: Seq<&str>) -> Seq<Seq<char>> {
    s.map_values(|t: &str| t@)
}

/// Whether `a` and `b` hold the same characters.
pub fn str_eq(a: &str, b: &str) -> (r: bool)
    ensures
        r == (a@ == b@),
{
    let n = a.unicode_len();
    if n != b.unicode_len() {
        return false;
    }
    let mut i: usize = 0;
    while i < n
        invariant
            n == a@.len(),
            n == b@.len(),
            i <= n,
            forall|j: int| 0 <= j < i ==> a@[j] == b@[j],
        decreases n - i,
    {
        if a.get_char(i) != b.get_char(i) {
            return false;
        }
        i = i + 1;
    }
    assert(a@ =~= b@);
    true
}

/// Whether `s` starts with `prefix`.
pub fn str_starts_with(s: &str, prefix: &str) -> (r: bool)
    ensures
        r == starts_with(s@, prefix@),
{
    let n = prefix.unicode_len();
    if n > s.unicode_len() {
        return false;
    }
    let head = s.substring_char(0, n);
    str_eq(head, prefix)
}

/// The number of bytes of the UTF-8 encoding of `s`.
pub fn utf8_len(s: &str) -> (r: usize)
    ensures
        r == encode_utf8(s@).len(),
{
    s.as_bytes().len()
}

/// The characters that the bytes `a..b` of the UTF-8 encoding of `s` spell.
pub open spec fn byte_range(s: Seq<char>, a: int, b: int) -> Seq<char> {
    decode_utf8(encode_utf8(s).subrange(a, b))
}

/// The bytes `a..b` of `s`, as `&s[a..b]` takes them.
pub fn byte_substr(s: &str, a: usize, b: usize) -> (r: &str)
    requires
        a <= b <= encode_utf8(s@).len(),
        is_char_boundary(encode_utf8(s@), a as int),
        is_char_boundary(encode_utf8(s@), b as int),
    ensures
        r@ == byte_range(s@, a as int, b as int),
{
    let ghost bytes = encode_utf8(s@);
    let (head, _) = s.split_at(b);
    proof {
        encode_utf8_valid_utf8(s@);
        encode_utf8_valid_utf8(head@);
        let h = encode_utf8(head@);
        assert(h =~= bytes.subrange(0, b as int));
        is_char_boundary_start_end_of_seq(h);
        if 0 < a < b {
            is_char_boundary_iff_not_is_continuation_byte(bytes, a as int);
            is_char_boundary_iff_not_is_continuation_byte(h, a as int);
        }
    }
    let (_, mid) = head.split_at(a);
    proof {
        encode_utf8_decode_utf8(mid@);
        assert(encode_utf8(mid@) =~= bytes.subrange(a as int, b as int));
    }
    mid
}

/// Appends `c` to `s` (`String::push`).
#[verifier::external_body]
pub(crate) fn string_push(s: &mut String, c: char)
    ensures
        final(s)@ == old(s)@.push(c),
{
    s.push(c);
}

/// The lower-case digit of `d` in base 16 (or 10).
pub open spec fn digit_char(d: nat) -> char {
    seq!['0', '1', '2', '3', '4', '5', '6', '7', '8', '9', 'a', 'b', 'c', 'd', 'e', 'f'][d as int]
}

/// The digits of `n` in base `radix` (10 or 16, lower case), without leading zeros.
pub open spec fn digits_of(n: nat, radix: nat) -> Seq<char>
    decreases n,
{
    if n < radix || radix < 2 {
        seq![digit_char(n)]
    } else {
        proof {
            vstd::arithmetic::div_mod::lemma_div_decreases(n as int, radix as int);
        }
        digits_of(n / radix, radix).push(digit_char(n % radix))
    }
}

/// The digit of `d` reads back as `d`, and is an ASCII character other than `+`.
proof fn lemma_digit_char(d: nat, radix: nat)
    requires
        radix == 10 || radix == 16,
        d < radix,
    ensures
        digit_value(digit_char(d), radix) == Some(d),
        '0' <= digit_char(d) <= 'f',
        digit_char(d) != '+',
{
    if d == 0 {
        assert(digit_char(0) == '0');
    } else if d == 1 {
        assert(digit_char(1) == '1');
    } else if d == 2 {
        assert(digit_char(2) == '2');
    } else if d == 3 {
        assert(digit_char(3) == '3');
    } else if d == 4 {
        assert(digit_char(4) == '4');
    } else if d == 5 {
        assert(digit_char(5) == '5');
    } else if d == 6 {
        assert(digit_char(6) == '6');
    } else if d == 7 {
        assert(digit_char(7) == '7');
    } else if d == 8 {
        assert(digit_char(8) == '8');
    } else if d == 9 {
        assert(digit_char(9) == '9');
    } else if d == 10 {
        assert(digit_char(10) == 'a');
    } else if d == 11 {
        assert(digit_char(11) == 'b');
    } else if d == 12 {
        assert(digit_char(12) == 'c');
    } else if d == 13 {
        assert(digit_char(13) == 'd');
    } else if d == 14 {
        assert(digit_char(14) == 'e');
    } else {
        assert(digit_char(15) == 'f');
    }
}

/// The digits of `n` spell `n`: they are all digits, at least one, ASCII, and the first is not
/// a `+`.
pub proof fn lemma_digits_of_value(n: nat, radix: nat)
    requires
        radix == 10 || radix == 16,
    ensures
        digits_of(n, radix).len() >= 1,
        all_digits(digits_of(n, radix), radix),
        digits_value(digits_of(n, radix), radix) == n,
        vstd::utf8::is_ascii_chars(digits_of(n, radix)),
        digits_of(n, radix)[0] != '+',
    decreases n,
{
    let s = digits_of(n, radix);
    if n < radix {
        lemma_digit_char(n, radix);
        assert(s.drop_last() =~= Seq::<char>::empty());
        assert(digits_value(Seq::<char>::empty(), radix) == 0);
        assert(0 * radix == 0) by (nonlinear_arith);
        assert(digits_value(s, radix) == 0 * radix + n);
    } else {
        vstd::arithmetic::div_mod::lemma_div_decreases(n as int, radix as int);
        lemma_digits_of_value(n / radix, radix);
        let p = digits_of(n / radix, radix);
        lemma_digit_char(n % radix, radix);
        assert(s.drop_last() =~= p);
        assert(s.last() == digit_char(n % radix));
        vstd::arithmetic::div_mod::lemma_fundamental_div_mod(n as int, radix as int);
        assert(digits_value(s, radix) == digits_value(p, radix) * radix + (n % radix));
        assert((n / radix) * radix == radix * (n / radix)) by (nonlinear_arith);
        assert forall|i: int| 0 <= i < s.len() implies #[trigger] digit_value(s[i], radix) is Some by {
            if i < p.len() {
                assert(s[i] == p[i]);
            }
        }
        assert forall|i: int| 0 <= i < s.len() implies '\0' <= #[trigger] s[i] <= '\u{7f}' by {
            if i < p.len() {
                assert(s[i] == p[i]);
            }
        }
        assert(s[0] == p[0]);
    }
}

/// `b` to the power `e`.
pub open spec fn power(b: nat, e: nat) -> nat
    decreases e,
{
    if e == 0 {
        1
    } else {
        b * power(b, (e - 1) as nat)
    }
}

/// `k` zeros.
pub open spec fn zeros(k: nat) -> Seq<char> {
    Seq::new(k, |i: int| '0')
}

/// The digits of a number below `radix` to the power `w` are at most `w`.
pub proof fn lemma_digits_of_len(n: nat, radix: nat, w: nat)
    requires
        radix == 10 || radix == 16,
        w >= 1,
        n < power(radix, w),
    ensures
        digits_of(n, radix).len() <= w,
    decreases n,
{
    if n >= radix {
        let q = power(radix, (w - 1) as nat);
        assert(power(radix, w) == radix * q);
        if w == 1 {
            assert(q == 1);
        } else {
            assert(n / radix < q) by (nonlinear_arith)
                requires
                    n < radix * q,
                    radix >= 10,
            ;
            vstd::arithmetic::div_mod::lemma_div_decreases(n as int, radix as int);
            lemma_digits_of_len(n / radix, radix, (w - 1) as nat);
        }
    }
}

/// A run of zeros is worth nothing.
proof fn lemma_zeros_value(k: nat, radix: nat)
    ensures
        digits_value(zeros(k), radix) == 0,
    decreases k,
{
    if k > 0 {
        assert(zeros(k).drop_last() =~= zeros((k - 1) as nat));
        lemma_zeros_value((k - 1) as nat, radix);
        assert(zeros(k).last() == '0');
        assert(('0' as u32) == 0x30);
        assert(digit_value('0', radix) == Some(0nat));
        let v = digits_value(zeros((k - 1) as nat), radix);
        assert(digits_value(zeros(k), radix) == v * radix + 0);
        assert(v * radix == 0) by (nonlinear_arith)
            requires
                v == 0,
        ;
    }
}

/// Leading zeros change neither the value of digits nor that they are digits.
pub proof fn lemma_leading_zeros(k: nat, d: Seq<char>, radix: nat)
    ensures
        digits_value(zeros(k) + d, radix) == digits_value(d, radix),
        all_digits(d, radix) ==> all_digits(zeros(k) + d, radix),
        vstd::utf8::is_ascii_chars(d) ==> vstd::utf8::is_ascii_chars(zeros(k) + d),
    decreases d.len(),
{
    let z = zeros(k);
    if d.len() == 0 {
        assert(z + d =~= z);
        lemma_zeros_value(k, radix);
    } else {
        assert((z + d).drop_last() =~= z + d.drop_last());
        lemma_leading_zeros(k, d.drop_last(), radix);
    }
    assert(digit_value('0', radix) == Some(0nat));
    assert forall|i: int| 0 <= i < (z + d).len() && all_digits(d, radix) implies #[trigger] digit_value(
        (z + d)[i],
        radix,
    ) is Some by {
        if i >= k {
            assert((z + d)[i] == d[i - k]);
        }
    }
    assert forall|i: int| 0 <= i < (z + d).len() && vstd::utf8::is_ascii_chars(d) implies '\0' <= #[trigger] (z + d)[i] <= '\u{7f}' by {
        if i >= k {
            assert((z + d)[i] == d[i - k]);
        }
    }
}

/// The digits of `n` padded with zeros on the left to `width` characters.
pub open spec fn padded_digits(n: nat, radix: nat, width: nat) -> Seq<char> {
    let d = digits_of(n, radix);
    if d.len() < width {
        zeros((width - d.len()) as nat) + d
    } else {
        d
    }
}

fn digit_to_char(d: u32) -> (c: char)
    requires
        d < 16,
    ensures
        c == digit_char(d as nat),
{
    match d {
        0 => '0',
        1 => '1',
        2 => '2',
        3 => '3',
        4 => '4',
        5 => '5',
        6 => '6',
        7 => '7',
        8 => '8',
        9 => '9',
        10 => 'a',
        11 => 'b',
        12 => 'c',
        13 => 'd',
        14 => 'e',
        _ => 'f',
    }
}

/// Appends the digits of `n` in base `radix` to `s`.
pub fn push_digits(s: &mut String, n: u128, radix: u128)
    requires
        radix == 10 || radix == 16,
    ensures
        final(s)@ == old(s)@ + digits_of(n as nat, radix as nat),
    decreases n,
{
    if n < radix {
        string_push(s, digit_to_char(n as u32));
    } else {
        push_digits(s, n / radix, radix);
        string_push(s, digit_to_char((n % radix) as u32));
    }
}

/// Appends the digits of `n` in base `radix`, padded with zeros to `width`, to `s`.
pub fn push_padded_digits(s: &mut String, n: u128, radix: u128, width: usize)
    requires
        radix == 10 || radix == 16,
    ensures
        final(s)@ == old(s)@ + padded_digits(n as nat, radix as nat, width as nat),
{
    let mut d = String::new();
    push_digits(&mut d, n, radix);
    let len = d.as_str().unicode_len();
    let ghost start = s@;
    if len < width {
        let mut k: usize = 0;
        while k < width - len
            invariant
                len < width,
                len == digits_of(n as nat, radix as nat).len(),
                k <= width - len,
                s@ == start + zeros(k as nat),
            decreases width - len - k,
        {
            string_push(s, '0');
            k = k + 1;
            assert(s@ =~= start + zeros(k as nat));
        }
    }
    s.append(d.as_str());
    proof {
        assert(s@ =~= start + padded_digits(n as nat, radix as nat, width as nat));
    }
}

/// Appends the decimal form of `n` (with a `-` when negative) to `s`.
pub fn push_signed(s: &mut String, n: i64)
    ensures
        final(s)@ == old(s)@ + signed_digits(n as int),
{
    if n < 0 {
        string_push(s, '-');
        let ghost mid = s@;
        push_digits(s, (0 - (n as i128)) as u128, 10);
        assert(s@ =~= old(s)@ + signed_digits(n as int));
    } else {
        push_digits(s, n as u128, 10);
    }
}

/// The decimal form of `n`, with a `-` when negative.
pub open spec fn signed_digits(n: int) -> Seq<char> {
    if n < 0 {
        seq!['-'] + digits_of((-n) as nat, 10)
    } else {
        digits_of(n as nat, 10)
    }
}

} // verus!
