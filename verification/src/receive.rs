//! The receiving side: MAC addresses, the MQTT topics of the devices, and time zone offsets.
use vstd::prelude::*;
use vstd::string::*;
use vstd::utf8::{
    decode_utf8, encode_utf8, encode_utf8_decode_utf8, encode_utf8_valid_utf8, is_ascii_chars,
    is_ascii_chars_encode_utf8, is_ascii_chars_nat_bound, is_char_boundary,
    is_char_boundary_iff_not_is_continuation_byte, is_char_boundary_start_end_of_seq,
};

use crate::error::Error;
use crate::text::{
    all_digits, byte_range, byte_substr, chars_of, digits_of, digits_value, lemma_digits_of_len,
    lemma_digits_of_value, lemma_leading_zeros, padded_digits, parse_signed, parse_signed_chars,
    parse_unsigned, parse_unsigned_chars, power, push_padded_digits, starts_with, str_eq,
    str_starts_with, unsigned_digits, utf8_len, zeros,
};

verus! {

/// The MAC address of a device.
#[derive(Debug, Clone, Copy, PartialEq, Eq, Hash, Structural)]
pub enum MacAddress {
    /// The 32-bit node number of a Meshtastic device.
    Meshtastic(u32),
    /// A full 48-bit MAC address.
    Full(u64),
}

impl Default for MacAddress {
    fn default() -> (r: MacAddress)
        ensures
            r == MacAddress::Full(0x1234),
    {
        MacAddress::Full(0x1234)
    }
}

/// The MAC address that `s` spells: 8 bytes of hex digits for a Meshtastic address, 12 for a
/// full one (a leading `+` is accepted, as `from_str_radix` does).
pub open spec fn mac_from_str(s: Seq<char>) -> Result<MacAddress, Error> {
    let n = encode_utf8(s).len();
    if n == 8 {
        match parse_unsigned(s, 16, 0xffff_ffff) {
            Some(v) => Ok(MacAddress::Meshtastic(v as u32)),
            None => Err(Error::ParseError),
        }
    } else if n == 12 {
        match parse_unsigned(s, 16, 0xffff_ffff_ffff_ffff) {
            Some(v) => Ok(MacAddress::Full(v as u64)),
            None => Err(Error::ParseError),
        }
    } else {
        Err(Error::ValueError)
    }
}

/// The hex form of a MAC address: 8 digits for a Meshtastic address, 12 for a full one.
pub open spec fn mac_text(mac: MacAddress) -> Seq<char> {
    match mac {
        MacAddress::Meshtastic(m) => padded_digits(m as nat, 16, 8),
        MacAddress::Full(m) => padded_digits(m as nat, 16, 12),
    }
}

impl MacAddress {
    /// Parses a MAC address from its hex form.
    ///
    /// Fails with `ValueError` when the string is neither 8 nor 12 bytes long, and with
    /// `ParseError` when it is not a hex number.
    pub fn try_from(mac_address: &str) -> (r: Result<MacAddress, Error>)
        ensures
            r == mac_from_str(mac_address@),
    {
        let n = utf8_len(mac_address);
        if n == 8 {
            match parse_unsigned_chars(&chars_of(mac_address), 16, 0xffff_ffff) {
                Some(v) => Ok(MacAddress::Meshtastic(v as u32)),
                None => Err(Error::ParseError),
            }
        } else if n == 12 {
            match parse_unsigned_chars(&chars_of(mac_address), 16, 0xffff_ffff_ffff_ffff) {
                Some(v) => Ok(MacAddress::Full(v)),
                None => Err(Error::ParseError),
            }
        } else {
            Err(Error::ValueError)
        }
    }

    /// Whether this is a full MAC address.
    pub fn is_full(&self) -> (r: bool)
        ensures
            r == (*self is Full),
    {
        matches!(self, MacAddress::Full(_))
    }

    /// The hex form of the address, zero-padded to 8 or 12 digits.
    pub fn format(&self) -> (r: String)
        ensures
            r@ == mac_text(*self),
    {
        let mut s = String::new();
        match self {
            MacAddress::Meshtastic(m) => push_padded_digits(&mut s, *m as u128, 16, 8),
            MacAddress::Full(m) => push_padded_digits(&mut s, *m as u128, 16, 12),
        }
        s
    }
}

/// The name and the MAC address of a device.
#[derive(Debug, Clone, PartialEq, Eq)]
pub struct HostInfo {
    /// At most 20 bytes.
    pub name: String,
    pub mac_address: MacAddress,
}

impl HostInfo {
    /// The device `name` with `mac_address`; fails with `BufferTooSmallError` when the name is
    /// longer than 20 bytes.
    pub fn new(name: &str, mac_address: MacAddress) -> (r: Result<HostInfo, Error>)
        ensures
            encode_utf8(name@).len() <= 20 ==> (r matches Ok(h) && h.name@ == name@ && h.mac_address
                == mac_address),
            encode_utf8(name@).len() > 20 ==> r == Err::<HostInfo, Error>(Error::BufferTooSmallError),
    {
        if utf8_len(name) > 20 {
            return Err(Error::BufferTooSmallError);
        }
        Ok(HostInfo { name: name.to_owned(), mac_address })
    }
}

/// A MAC address comes back from its hex form: a Meshtastic address always, a full one when it
/// has the 48 bits of a MAC address.
pub proof fn lemma_mac_round_trip(mac: MacAddress)
    requires
        mac matches MacAddress::Full(m) ==> m < 0x1_0000_0000_0000,
    ensures
        mac_from_str(mac_text(mac)) == Ok::<MacAddress, Error>(mac),
        mac_text(mac).len() == if mac is Meshtastic { 8nat } else { 12nat },
        is_ascii_chars(mac_text(mac)),
        all_digits(mac_text(mac), 16),
{
    let (n, w): (nat, nat) = match mac {
        MacAddress::Meshtastic(m) => (m as nat, 8),
        MacAddress::Full(m) => (m as nat, 12),
    };
    assert(power(16, 8) == 0x1_0000_0000) by {
        reveal_with_fuel(power, 9);
    }
    assert(power(16, 12) == 0x1_0000_0000_0000) by {
        reveal_with_fuel(power, 13);
    }
    lemma_digits_of_len(n, 16, w);
    lemma_digits_of_value(n, 16);
    let d = digits_of(n, 16);
    let t = padded_digits(n, 16, w);
    assert(t == mac_text(mac));
    if d.len() < w {
        let k = (w - d.len()) as nat;
        lemma_leading_zeros(k, d, 16);
        assert(t[0] == zeros(k)[0]);
    }
    assert(t.len() == w);
    assert(all_digits(t, 16) && digits_value(t, 16) == n);
    assert(t[0] != '+');
    assert(unsigned_digits(t) == t);
    vstd::utf8::is_ascii_chars_encode_utf8(t);
    assert(encode_utf8(t).len() == w);
}

/// The bytes of a concatenation are the bytes of its parts.
proof fn lemma_encode_concat(a: Seq<char>, b: Seq<char>)
    ensures
        encode_utf8(a + b) == encode_utf8(a) + encode_utf8(b),
    decreases a.len(),
{
    if a.len() == 0 {
        assert(a + b =~= b);
        assert(encode_utf8(a) + encode_utf8(b) =~= encode_utf8(b));
    } else {
        assert((a + b).drop_first() =~= a.drop_first() + b);
        assert((a + b)[0] == a[0]);
        lemma_encode_concat(a.drop_first(), b);
        assert(encode_utf8(a + b) =~= encode_utf8(a) + encode_utf8(b));
    }
}

/// A string has at least as many bytes as characters.
proof fn lemma_encode_len(s: Seq<char>)
    ensures
        encode_utf8(s).len() >= s.len(),
    decreases s.len(),
{
    if s.len() > 0 {
        lemma_encode_len(s.drop_first());
        assert(vstd::utf8::encode_scalar(s[0] as u32).len() >= 1);
    }
}

/// Of an ASCII string, every byte position begins a character, and the bytes `a..b` are the
/// characters `a..b`.
proof fn lemma_ascii_bytes(s: Seq<char>, a: int, b: int)
    requires
        is_ascii_chars(s),
        0 <= a <= b <= s.len(),
    ensures
        encode_utf8(s).len() == s.len(),
        is_char_boundary(encode_utf8(s), a),
        is_char_boundary(encode_utf8(s), b),
        byte_range(s, a, b) == s.subrange(a, b),
{
    is_ascii_chars_encode_utf8(s);
    is_ascii_chars_nat_bound(s);
    encode_utf8_valid_utf8(s);
    is_char_boundary_start_end_of_seq(encode_utf8(s));
    let e = encode_utf8(s);
    if a < s.len() {
        assert(s[a] as u8 == e[a]);
        is_char_boundary_iff_not_is_continuation_byte(e, a);
    }
    if b < s.len() {
        assert(s[b] as u8 == e[b]);
        is_char_boundary_iff_not_is_continuation_byte(e, b);
    }
    let sub = s.subrange(a, b);
    assert(is_ascii_chars(sub)) by {
        assert forall|i: int| 0 <= i < sub.len() implies '\0' <= #[trigger] sub[i] <= '\u{7f}' by {
            assert(sub[i] == s[a + i]);
        }
    }
    is_ascii_chars_encode_utf8(sub);
    assert(e.subrange(a, b) =~= encode_utf8(sub)) by {
        assert forall|i: int| 0 <= i < b - a implies #[trigger] e.subrange(a, b)[i] == encode_utf8(
            sub,
        )[i] by {
            assert(sub[i] == s[a + i]);
            assert(s[a + i] as u8 == e[a + i]);
            assert(sub[i] as u8 == encode_utf8(sub)[i]);
        }
    }
    encode_utf8_decode_utf8(sub);
}

/// The last bytes of `p + t`, for an ASCII `t`, are `t`, and they begin a character.
proof fn lemma_ascii_suffix(p: Seq<char>, t: Seq<char>)
    requires
        is_ascii_chars(t),
        t.len() > 0,
    ensures
        encode_utf8(p + t).len() == encode_utf8(p).len() + t.len(),
        is_char_boundary(encode_utf8(p + t), encode_utf8(p).len() as int),
        byte_range(p + t, encode_utf8(p).len() as int, encode_utf8(p + t).len() as int) == t,
{
    lemma_encode_concat(p, t);
    is_ascii_chars_encode_utf8(t);
    is_ascii_chars_nat_bound(t);
    let e = encode_utf8(p + t);
    let k = encode_utf8(p).len() as int;
    encode_utf8_valid_utf8(p + t);
    assert(e[k] == encode_utf8(t)[0]);
    assert(t[0] as u8 == encode_utf8(t)[0]);
    is_char_boundary_iff_not_is_continuation_byte(e, k);
    assert(e.subrange(k, e.len() as int) =~= encode_utf8(t));
    encode_utf8_decode_utf8(t);
}

/// The topics that a receiver subscribes to for one device.
pub open spec fn mac_topics(mac: MacAddress, channel: Option<Seq<char>>) -> Seq<Seq<char>> {
    let text = mac_text(mac);
    if mac is Full {
        seq!["yar/"@ + text + "/status"@, "yar/"@ + text + "/p"@]
    } else {
        match channel {
            Some(ch) => seq!["yar/2/e/serial/!"@ + text, "yar/2/e/"@ + ch + "/!"@ + text],
            None => seq!["yar/2/e/serial/!"@ + text],
        }
    }
}

/// The device whose message a classified topic carries.
pub open spec fn topic_device(kind: TopicKind) -> Option<MacAddress> {
    match kind {
        TopicKind::CellularStatus(mac) => Some(mac),
        TopicKind::Punches(mac) => Some(mac),
        TopicKind::MeshtasticStatus(mac) => Some(mac),
        TopicKind::MeshtasticSerial => None,
    }
}

/// A topic of a cellular device is read as its status or its punches.
proof fn lemma_cell_topic(mac: MacAddress, tail: Seq<char>)
    requires
        mac matches MacAddress::Full(m) && m < 0x1_0000_0000_0000,
        tail == "/status"@ || tail == "/p"@,
    ensures
        topic_sliceable("yar/"@ + mac_text(mac) + tail),
        topic_kind_spec("yar/"@ + mac_text(mac) + tail) == Ok::<TopicKind, Error>(
            if tail == "/status"@ {
                TopicKind::CellularStatus(mac)
            } else {
                TopicKind::Punches(mac)
            },
        ),
{
    reveal_strlit("yar/");
    reveal_strlit("/status");
    reveal_strlit("/p");
    reveal_strlit("yar/2/e/");
    lemma_mac_round_trip(mac);
    let text = mac_text(mac);
    let t = "yar/"@ + text + tail;
    assert(text.len() == 12);
    assert(is_ascii_chars(t)) by {
        assert forall|i: int| 0 <= i < t.len() implies '\0' <= #[trigger] t[i] <= '\u{7f}' by {
            if 4 <= i < 16 {
                assert(t[i] == text[i - 4]);
            } else if i >= 16 {
                assert(t[i] == tail[i - 16]);
            }
        }
    }
    lemma_ascii_bytes(t, 4, 16);
    lemma_ascii_bytes(t, 16, t.len() as int);
    assert(t.subrange(4, 16) =~= text);
    assert(t.subrange(16, t.len() as int) =~= tail);
    assert(t[5] == text[1]);
    assert(crate::text::digit_value(text[1], 16) is Some);
    assert(!starts_with(t, "yar/2/e/"@)) by {
        if starts_with(t, "yar/2/e/"@) {
            assert(t.subrange(0, 8)[5] == "yar/2/e/"@[5]);
        }
    }
    assert("/status"@ != "/p"@) by {
        assert("/status"@.len() != "/p"@.len());
    }
}

/// A topic `p + <mac>` whose prefix `p` begins with `yar/2/e/` and has at least 11 characters is
/// read as the status of the Meshtastic device `mac`.
proof fn lemma_msh_topic(mac: MacAddress, p: Seq<char>)
    requires
        mac is Meshtastic,
        p.len() >= 11,
        p.subrange(0, 8) == "yar/2/e/"@,
    ensures
        topic_sliceable(p + mac_text(mac)),
        topic_kind_spec(p + mac_text(mac)) == Ok::<TopicKind, Error>(TopicKind::MeshtasticStatus(mac)),
{
    reveal_strlit("yar/2/e/");
    reveal_strlit("serial");
    lemma_mac_round_trip(mac);
    let text = mac_text(mac);
    let t = p + text;
    assert(text.len() == 8);
    lemma_encode_len(p);
    lemma_ascii_suffix(p, text);
    assert(starts_with(t, "yar/2/e/"@)) by {
        assert(t.subrange(0, 8) =~= p.subrange(0, 8));
    }
    assert(t.subrange(8, t.len() as int) != "serial"@) by {
        assert(t.subrange(8, t.len() as int).len() != "serial"@.len());
    }
}

/// A message on a topic subscribed for a device is read as a message of that device: status or
/// punches of a cellular device, status of a Meshtastic device (for a full address of at most
/// 48 bits, and a channel name that is not empty). The topic can be classified without cutting a
/// character.
pub proof fn lemma_device_topics_classified(mac: MacAddress, channel: Option<Seq<char>>)
    requires
        mac matches MacAddress::Full(m) ==> m < 0x1_0000_0000_0000,
        channel matches Some(ch) ==> ch.len() > 0,
    ensures
        forall|i: int|
            0 <= i < mac_topics(mac, channel).len() ==> topic_sliceable(
                #[trigger] mac_topics(mac, channel)[i],
            ),
        mac is Full ==> topic_kind_spec(mac_topics(mac, channel)[0]) == Ok::<TopicKind, Error>(
            TopicKind::CellularStatus(mac),
        ) && topic_kind_spec(mac_topics(mac, channel)[1]) == Ok::<TopicKind, Error>(
            TopicKind::Punches(mac),
        ),
        mac is Meshtastic ==> forall|i: int|
            0 <= i < mac_topics(mac, channel).len() ==> topic_kind_spec(
                #[trigger] mac_topics(mac, channel)[i],
            ) == Ok::<TopicKind, Error>(TopicKind::MeshtasticStatus(mac)),
{
    if mac is Full {
        lemma_cell_topics(mac, channel);
    } else {
        lemma_serial_topic(mac, channel);
        if channel is Some {
            lemma_channel_topic(mac, channel->0);
        }
    }
}

proof fn lemma_cell_topics(mac: MacAddress, channel: Option<Seq<char>>)
    requires
        mac matches MacAddress::Full(m) && m < 0x1_0000_0000_0000,
    ensures
        mac_topics(mac, channel).len() == 2,
        topic_sliceable(mac_topics(mac, channel)[0]),
        topic_sliceable(mac_topics(mac, channel)[1]),
        topic_kind_spec(mac_topics(mac, channel)[0]) == Ok::<TopicKind, Error>(
            TopicKind::CellularStatus(mac),
        ),
        topic_kind_spec(mac_topics(mac, channel)[1]) == Ok::<TopicKind, Error>(
            TopicKind::Punches(mac),
        ),
{
    reveal_strlit("/status");
    reveal_strlit("/p");
    lemma_cell_topic(mac, "/status"@);
    lemma_cell_topic(mac, "/p"@);
    assert("/status"@ != "/p"@) by {
        assert("/status"@.len() != "/p"@.len());
    }
}

proof fn lemma_serial_topic(mac: MacAddress, channel: Option<Seq<char>>)
    requires
        mac is Meshtastic,
    ensures
        mac_topics(mac, channel).len() >= 1,
        channel is None ==> mac_topics(mac, channel).len() == 1,
        channel is Some ==> mac_topics(mac, channel).len() == 2,
        topic_sliceable(mac_topics(mac, channel)[0]),
        topic_kind_spec(mac_topics(mac, channel)[0]) == Ok::<TopicKind, Error>(
            TopicKind::MeshtasticStatus(mac),
        ),
{
    reveal_strlit("yar/2/e/");
    reveal_strlit("yar/2/e/serial/!");
    let serial = "yar/2/e/serial/!"@;
    assert(serial.subrange(0, 8) =~= "yar/2/e/"@);
    lemma_msh_topic(mac, serial);
}

proof fn lemma_channel_topic(mac: MacAddress, ch: Seq<char>)
    requires
        mac is Meshtastic,
        ch.len() > 0,
    ensures
        mac_topics(mac, Some(ch)).len() == 2,
        topic_sliceable(mac_topics(mac, Some(ch))[1]),
        topic_kind_spec(mac_topics(mac, Some(ch))[1]) == Ok::<TopicKind, Error>(
            TopicKind::MeshtasticStatus(mac),
        ),
{
    reveal_strlit("yar/2/e/");
    reveal_strlit("/!");
    let p = "yar/2/e/"@ + ch + "/!"@;
    assert(p.subrange(0, 8) =~= "yar/2/e/"@);
    lemma_msh_topic(mac, p);
}

/// A message on topic `t` is read as a message of one of the devices `macs`, and `t` can be
/// classified without cutting a character.
pub open spec fn read_as_device_of(t: Seq<char>, macs: Seq<MacAddress>) -> bool {
    &&& topic_sliceable(t)
    &&& topic_kind_spec(t) matches Ok(k)
    &&& topic_device(k) matches Some(mac)
    &&& macs.contains(mac)
}

proof fn lemma_read_as_device_grows(t: Seq<char>, earlier: Seq<MacAddress>, macs: Seq<MacAddress>)
    requires
        read_as_device_of(t, earlier),
        macs.len() == earlier.len() + 1,
        forall|j: int| 0 <= j < earlier.len() ==> earlier[j] == macs[j],
    ensures
        read_as_device_of(t, macs),
{
    let k = topic_kind_spec(t)->Ok_0;
    let mac = topic_device(k)->0;
    let j = choose|j: int| 0 <= j < earlier.len() && earlier[j] == mac;
    assert(macs[j] == mac);
}

proof fn lemma_device_topic_read(mac: MacAddress, channel: Option<Seq<char>>, macs: Seq<MacAddress>, q: int)
    requires
        mac matches MacAddress::Full(m) ==> m < 0x1_0000_0000_0000,
        channel matches Some(ch) ==> ch.len() > 0,
        macs.len() > 0,
        macs.last() == mac,
        0 <= q < mac_topics(mac, channel).len(),
    ensures
        read_as_device_of(mac_topics(mac, channel)[q], macs),
{
    lemma_device_topics_classified(mac, channel);
    assert(macs[macs.len() - 1] == mac);
    let t = mac_topics(mac, channel)[q];
    if mac is Full {
        assert(q == 0 || q == 1);
    }
    assert(topic_sliceable(t));
}

/// Every topic that a receiver subscribes to is read as a message of one of its devices (full
/// addresses of at most 48 bits, a channel name that is not empty), and can be classified
/// without cutting a character.
pub proof fn lemma_subscribed_topics_classified(macs: Seq<MacAddress>, channel: Option<Seq<char>>)
    requires
        forall|j: int|
            0 <= j < macs.len() ==> (#[trigger] macs[j] matches MacAddress::Full(m) ==> m
                < 0x1_0000_0000_0000),
        channel matches Some(ch) ==> ch.len() > 0,
    ensures
        forall|i: int|
            0 <= i < receiver_topics_spec(macs, channel).len() ==> read_as_device_of(
                #[trigger] receiver_topics_spec(macs, channel)[i],
                macs,
            ),
    decreases macs.len(),
{
    if macs.len() > 0 {
        let last = macs.last();
        let earlier = macs.drop_last();
        assert forall|j: int|
            0 <= j < earlier.len() implies (#[trigger] earlier[j] matches MacAddress::Full(m) ==> m
            < 0x1_0000_0000_0000) by {
            assert(earlier[j] == macs[j]);
        }
        lemma_subscribed_topics_classified(earlier, channel);
        assert(macs[macs.len() - 1] == last);
        let all = receiver_topics_spec(macs, channel);
        let before = receiver_topics_spec(earlier, channel);
        assert(all =~= before + mac_topics(last, channel));
        assert forall|i: int| 0 <= i < all.len() implies read_as_device_of(#[trigger] all[i], macs) by {
            if i < before.len() {
                assert(all[i] == before[i]);
                lemma_read_as_device_grows(before[i], earlier, macs);
            } else {
                let q = i - before.len();
                assert(all[i] == mac_topics(last, channel)[q]);
                lemma_device_topic_read(last, channel, macs, q);
            }
        }
    }
}

/// The MAC address in a cellular topic `yar/<mac>/...`: bytes 4 to 16.
pub open spec fn cell_mac_spec(topic: Seq<char>) -> Result<MacAddress, Error> {
    if encode_utf8(topic).len() < 16 {
        Err(Error::ParseError)
    } else {
        mac_from_str(byte_range(topic, 4, 16))
    }
}

/// Slicing a cellular topic at bytes 4 and 16 cuts no character.
pub open spec fn cell_topic_sliceable(topic: Seq<char>) -> bool {
    encode_utf8(topic).len() >= 16 ==> is_char_boundary(encode_utf8(topic), 4) && is_char_boundary(
        encode_utf8(topic),
        16,
    )
}

/// The MAC address at the end of a Meshtastic topic `yar/2/e/<channel>/!<mac>`: its last 8
/// bytes, in a topic longer than 18 bytes.
pub open spec fn msh_mac_spec(topic: Seq<char>) -> Result<MacAddress, Error> {
    let n = encode_utf8(topic).len() as int;
    if n <= 18 {
        Err(Error::ParseError)
    } else {
        mac_from_str(byte_range(topic, n - 8, n))
    }
}

/// Slicing a Meshtastic topic 8 bytes before its end cuts no character.
pub open spec fn msh_topic_sliceable(topic: Seq<char>) -> bool {
    let n = encode_utf8(topic).len() as int;
    n > 18 ==> is_char_boundary(encode_utf8(topic), n - 8)
}

/// The MAC address in a cellular topic.
pub fn extract_cell_mac(topic: &str) -> (r: Result<MacAddress, Error>)
    requires
        cell_topic_sliceable(topic@),
    ensures
        r == cell_mac_spec(topic@),
{
    let n = utf8_len(topic);
    if n < 16 {
        return Err(Error::ParseError);
    }
    MacAddress::try_from(byte_substr(topic, 4, 16))
}

/// The MAC address at the end of a Meshtastic topic.
pub fn extract_msh_mac(topic: &str) -> (r: Result<MacAddress, Error>)
    requires
        msh_topic_sliceable(topic@),
    ensures
        r == msh_mac_spec(topic@),
{
    let n = utf8_len(topic);
    if n <= 18 {
        return Err(Error::ParseError);
    }
    proof {
        vstd::utf8::encode_utf8_valid_utf8(topic@);
        vstd::utf8::is_char_boundary_start_end_of_seq(encode_utf8(topic@));
    }
    MacAddress::try_from(byte_substr(topic, n - 8, n))
}

/// What an incoming MQTT message is, by its topic.
#[derive(Debug, Clone, Copy, PartialEq, Eq, Structural)]
pub enum TopicKind {
    /// The status of a cellular device.
    CellularStatus(MacAddress),
    /// Punches of a cellular device.
    Punches(MacAddress),
    /// A Meshtastic serial message.
    MeshtasticSerial,
    /// The status of a Meshtastic device.
    MeshtasticStatus(MacAddress),
}

/// What the topic of an incoming message says: `yar/2/e/serial` is a Meshtastic serial message,
/// other `yar/2/e/...` topics are the status of the Meshtastic device whose address ends the
/// topic (which is longer than 18 bytes); any other topic is `yar/<mac>/status` or `yar/<mac>/p`
/// of a cellular device.
pub open spec fn topic_kind_spec(topic: Seq<char>) -> Result<TopicKind, Error> {
    if starts_with(topic, "yar/2/e/"@) {
        let rest = topic.subrange("yar/2/e/"@.len() as int, topic.len() as int);
        if rest == "serial"@ {
            Ok(TopicKind::MeshtasticSerial)
        } else {
            match msh_mac_spec(topic) {
                Ok(mac) => Ok(TopicKind::MeshtasticStatus(mac)),
                Err(e) => Err(e),
            }
        }
    } else {
        match cell_mac_spec(topic) {
            Err(e) => Err(e),
            Ok(mac) => {
                let tail = byte_range(topic, 16, encode_utf8(topic).len() as int);
                if tail == "/status"@ {
                    Ok(TopicKind::CellularStatus(mac))
                } else if tail == "/p"@ {
                    Ok(TopicKind::Punches(mac))
                } else {
                    Err(Error::ValueError)
                }
            },
        }
    }
}

/// Slicing the topic where `topic_kind` slices it cuts no character.
pub open spec fn topic_sliceable(topic: Seq<char>) -> bool {
    if starts_with(topic, "yar/2/e/"@) {
        msh_topic_sliceable(topic)
    } else {
        cell_topic_sliceable(topic)
    }
}

/// Classifies an incoming MQTT message by its topic.
pub fn topic_kind(topic: &str) -> (r: Result<TopicKind, Error>)
    requires
        topic_sliceable(topic@),
    ensures
        r == topic_kind_spec(topic@),
{
    if str_starts_with(topic, "yar/2/e/") {
        let k = "yar/2/e/".unicode_len();
        let rest = topic.substring_char(k, topic.unicode_len());
        if str_eq(rest, "serial") {
            Ok(TopicKind::MeshtasticSerial)
        } else {
            match extract_msh_mac(topic) {
                Ok(mac) => Ok(TopicKind::MeshtasticStatus(mac)),
                Err(e) => Err(e),
            }
        }
    } else {
        let mac = match extract_cell_mac(topic) {
            Ok(mac) => mac,
            Err(e) => return Err(e),
        };
        let n = utf8_len(topic);
        proof {
            vstd::utf8::encode_utf8_valid_utf8(topic@);
            vstd::utf8::is_char_boundary_start_end_of_seq(encode_utf8(topic@));
        }
        let tail = byte_substr(topic, 16, n);
        if str_eq(tail, "/status") {
            Ok(TopicKind::CellularStatus(mac))
        } else if str_eq(tail, "/p") {
            Ok(TopicKind::Punches(mac))
        } else {
            Err(Error::ValueError)
        }
    }
}

/// The topics that a receiver subscribes to for the devices `macs`: status and punches of a
/// cellular device, the serial topic of a Meshtastic device and, with a channel, its topic on
/// the channel.
pub open spec fn receiver_topics_spec(macs: Seq<MacAddress>, channel: Option<Seq<char>>) -> Seq<
    Seq<char>,
>
    decreases macs.len(),
{
    if macs.len() == 0 {
        seq![]
    } else {
        let mac = macs.last();
        let earlier = receiver_topics_spec(macs.drop_last(), channel);
        let text = mac_text(mac);
        if mac is Full {
            earlier + seq!["yar/"@ + text + "/status"@, "yar/"@ + text + "/p"@]
        } else {
            match channel {
                Some(ch) => earlier + seq![
                    "yar/2/e/serial/!"@ + text,
                    "yar/2/e/"@ + ch + "/!"@ + text,
                ],
                None => earlier + seq!["yar/2/e/serial/!"@ + text],
            }
        }
    }
}

/// The topics that a receiver subscribes to for the devices `macs`.
pub fn receiver_topics(macs: &[MacAddress], meshtastic_channel: Option<&str>) -> (r: Vec<String>)
    ensures
        r@.map_values(|t: String| t@) == receiver_topics_spec(
            macs@,
            match meshtastic_channel {
                Some(c) => Some(c@),
                None => None,
            },
        ),
{
    let ghost channel = match meshtastic_channel {
        Some(c) => Some(c@),
        None => None::<Seq<char>>,
    };
    let mut topics: Vec<String> = Vec::new();
    let mut i: usize = 0;
    while i < macs.len()
        invariant
            i <= macs@.len(),
            channel == match meshtastic_channel {
                Some(c) => Some(c@),
                None => None::<Seq<char>>,
            },
            topics@.map_values(|t: String| t@) == receiver_topics_spec(macs@.subrange(0, i as int), channel),
        decreases macs@.len() - i,
    {
        let mac = macs[i];
        let text = mac.format();
        let ghost before = topics@.map_values(|t: String| t@);
        if mac.is_full() {
            let mut a = String::from_str("yar/");
            a.append(text.as_str());
            a.append("/status");
            let mut b = String::from_str("yar/");
            b.append(text.as_str());
            b.append("/p");
            topics.push(a);
            topics.push(b);
        } else {
            let mut a = String::from_str("yar/2/e/serial/!");
            a.append(text.as_str());
            topics.push(a);
            match meshtastic_channel {
                Some(ch) => {
                    let mut b = String::from_str("yar/2/e/");
                    b.append(ch);
                    b.append("/!");
                    b.append(text.as_str());
                    topics.push(b);
                },
                None => {},
            }
        }
        proof {
            let s = macs@.subrange(0, i + 1);
            assert(s.drop_last() =~= macs@.subrange(0, i as int));
            assert(s.last() == mac);
            assert(topics@.map_values(|t: String| t@) =~= receiver_topics_spec(s, channel));
        }
        i = i + 1;
    }
    assert(macs@.subrange(0, macs@.len() as int) =~= macs@);
    topics
}

/// Errors of parsing a time zone offset.
#[derive(Debug, Clone, Copy, PartialEq, Eq, Structural)]
pub enum TzError {
    /// The offset is a day or more.
    OutOfBounds,
    /// The string is not an offset.
    InvalidFormat,
}

/// The offset that an `+HH:MM` or `-HH:MM` string gives, when it is one with hours below 24
/// and minutes below 60.
pub open spec fn hh_mm_offset(c: Seq<char>) -> Option<int> {
    if c.len() == 6 && (c[0] == '+' || c[0] == '-') && c[3] == ':' {
        match (parse_signed(c.subrange(1, 3), 0x7fff_ffff), parse_signed(c.subrange(4, 6), 0x7fff_ffff)) {
            (Some(h), Some(m)) => if 0 <= h < 24 && 0 <= m < 60 {
                Some(if c[0] == '+' { h * 3600 + m * 60 } else { -(h * 3600 + m * 60) })
            } else {
                None
            },
            _ => None,
        }
    } else {
        None
    }
}

/// The offset that an `+HHMM` or `-HHMM` string gives, when it is one with hours below 24 and
/// minutes below 60.
pub open spec fn hhmm_offset(c: Seq<char>) -> Option<int> {
    if c.len() == 5 && (c[0] == '+' || c[0] == '-') {
        match (parse_signed(c.subrange(1, 3), 0x7fff_ffff), parse_signed(c.subrange(3, 5), 0x7fff_ffff)) {
            (Some(h), Some(m)) => if 0 <= h < 24 && 0 <= m < 60 {
                Some(if c[0] == '+' { h * 3600 + m * 60 } else { -(h * 3600 + m * 60) })
            } else {
                None
            },
            _ => None,
        }
    } else {
        None
    }
}

/// The offset in seconds east of UTC that a time zone string gives: `UTC` and `GMT` give 0,
/// `+HH:MM`, `-HH:MM`, `+HHMM` and `-HHMM` give their offset, and any other integer is a number
/// of seconds, which must be less than a day either way.
pub open spec fn parse_timezone_spec(tz: Seq<char>) -> Result<int, TzError> {
    if tz == "UTC"@ || tz == "GMT"@ {
        Ok(0)
    } else if hh_mm_offset(tz) is Some {
        Ok(hh_mm_offset(tz)->0)
    } else if hhmm_offset(tz) is Some {
        Ok(hhmm_offset(tz)->0)
    } else {
        match parse_signed(tz, 0x7fff_ffff) {
            Some(n) => if -86400 < n < 86400 {
                Ok(n)
            } else {
                Err(TzError::OutOfBounds)
            },
            None => Err(TzError::InvalidFormat),
        }
    }
}

/// The value of a decimal digit character.
pub open spec fn decimal(c: char) -> int {
    c as int - '0' as int
}

/// The character is a decimal digit.
pub open spec fn is_decimal(c: char) -> bool {
    '0' <= c <= '9'
}

/// Two decimal digits parse as the number they spell.
proof fn lemma_two_digits(s: Seq<char>)
    requires
        s.len() == 2,
        is_decimal(s[0]),
        is_decimal(s[1]),
    ensures
        parse_signed(s, 0x7fff_ffff) == Some(10 * decimal(s[0]) + decimal(s[1])),
{
    assert(unsigned_digits(s) == s);
    assert(all_digits(s, 10));
    assert(s.drop_last().drop_last().len() == 0);
    let t = s.drop_last();
    assert(t.last() == s[0]);
    assert(digits_value(t.drop_last(), 10) == 0);
    assert(crate::text::digit_value(s[0], 10) == Some((decimal(s[0])) as nat));
    assert(crate::text::digit_value(s[1], 10) == Some((decimal(s[1])) as nat));
    assert(digits_value(t, 10) == decimal(s[0]));
}

/// Every `+HH:MM` or `-HH:MM` offset with hours below 24 and minutes below 60 parses, as
/// `HH` hours and `MM` minutes east or west of UTC.
pub proof fn lemma_colon_offset(tz: Seq<char>)
    requires
        tz.len() == 6,
        tz[0] == '+' || tz[0] == '-',
        is_decimal(tz[1]) && is_decimal(tz[2]) && tz[3] == ':' && is_decimal(tz[4]) && is_decimal(tz[5]),
        10 * decimal(tz[1]) + decimal(tz[2]) < 24,
        10 * decimal(tz[4]) + decimal(tz[5]) < 60,
    ensures
        ({
            let secs = (10 * decimal(tz[1]) + decimal(tz[2])) * 3600 + (10 * decimal(tz[4])
                + decimal(tz[5])) * 60;
            parse_timezone_spec(tz) == Ok::<int, TzError>(if tz[0] == '+' { secs } else { -secs })
        }),
{
    reveal_strlit("UTC");
    reveal_strlit("GMT");
    lemma_two_digits(tz.subrange(1, 3));
    lemma_two_digits(tz.subrange(4, 6));
}

/// Every `+HHMM` or `-HHMM` offset with hours below 24 and minutes below 60 parses, as `HH`
/// hours and `MM` minutes east or west of UTC.
pub proof fn lemma_compact_offset(tz: Seq<char>)
    requires
        tz.len() == 5,
        tz[0] == '+' || tz[0] == '-',
        is_decimal(tz[1]) && is_decimal(tz[2]) && is_decimal(tz[3]) && is_decimal(tz[4]),
        10 * decimal(tz[1]) + decimal(tz[2]) < 24,
        10 * decimal(tz[3]) + decimal(tz[4]) < 60,
    ensures
        ({
            let secs = (10 * decimal(tz[1]) + decimal(tz[2])) * 3600 + (10 * decimal(tz[3])
                + decimal(tz[4])) * 60;
            parse_timezone_spec(tz) == Ok::<int, TzError>(if tz[0] == '+' { secs } else { -secs })
        }),
{
    reveal_strlit("UTC");
    reveal_strlit("GMT");
    lemma_two_digits(tz.subrange(1, 3));
    lemma_two_digits(tz.subrange(3, 5));
}

/// A number of seconds that is not in one of the hour forms (it begins with a digit, or has
/// neither 5 nor 6 characters) is an offset in seconds: taken when it is less than a day either
/// way, refused as out of bounds otherwise.
pub proof fn lemma_seconds_offset(tz: Seq<char>, n: int)
    requires
        parse_signed(tz, 0x7fff_ffff) == Some(n),
        is_decimal(tz[0]) || !(tz.len() == 5 || tz.len() == 6),
    ensures
        -86400 < n < 86400 ==> parse_timezone_spec(tz) == Ok::<int, TzError>(n),
        !(-86400 < n < 86400) ==> parse_timezone_spec(tz) == Err::<int, TzError>(
            TzError::OutOfBounds,
        ),
{
    reveal_strlit("UTC");
    reveal_strlit("GMT");
    if tz == "UTC"@ || tz == "GMT"@ {
        assert(crate::text::digit_value(tz[0], 10) is None);
        assert(unsigned_digits(tz) == tz);
    }
}

/// Parses a time zone offset into seconds east of UTC.
pub fn parse_timezone(tz: &str) -> (r: Result<i32, TzError>)
    requires
        parse_signed(tz@, 0x7fff_ffff) != Some(-0x8000_0000int),
    ensures
        match r {
            Ok(n) => parse_timezone_spec(tz@) == Ok::<int, TzError>(n as int),
            Err(e) => parse_timezone_spec(tz@) == Err::<int, TzError>(e),
        },
{
    if str_eq(tz, "UTC") || str_eq(tz, "GMT") {
        return Ok(0);
    }
    let c = chars_of(tz);
    if c.len() == 6 && (c[0] == '+' || c[0] == '-') && c[3] == ':' {
        let hs = tz.substring_char(1, 3);
        let ms = tz.substring_char(4, 6);
        match (parse_signed_chars(&chars_of(hs), 0x7fff_ffff), parse_signed_chars(&chars_of(ms), 0x7fff_ffff)) {
            (Some(h), Some(m)) => {
                if 0 <= h && h < 24 && 0 <= m && m < 60 {
                    let secs = (h * 3600 + m * 60) as i32;
                    return if c[0] == '+' {
                        Ok(secs)
                    } else {
                        Ok(-secs)
                    };
                }
            },
            _ => {},
        }
    }
    if c.len() == 5 && (c[0] == '+' || c[0] == '-') {
        let hs = tz.substring_char(1, 3);
        let ms = tz.substring_char(3, 5);
        match (parse_signed_chars(&chars_of(hs), 0x7fff_ffff), parse_signed_chars(&chars_of(ms), 0x7fff_ffff)) {
            (Some(h), Some(m)) => {
                if 0 <= h && h < 24 && 0 <= m && m < 60 {
                    let secs = (h * 3600 + m * 60) as i32;
                    return if c[0] == '+' {
                        Ok(secs)
                    } else {
                        Ok(-secs)
                    };
                }
            },
            _ => {},
        }
    }
    match parse_signed_chars(&c, 0x7fff_ffff) {
        Some(n) => {
            if n >= 0 {
                if n < 86400 {
                    Ok(n as i32)
                } else {
                    Err(TzError::OutOfBounds)
                }
            } else {
                if -n < 86400 {
                    Ok(n as i32)
                } else {
                    Err(TzError::OutOfBounds)
                }
            }
        },
        None => Err(TzError::InvalidFormat),
    }
}

} // verus!
