//! MAC addresses, Discord user ids and the association of one with the other.
use vstd::prelude::*;

use crate::text::{
    chars_of, digit_value, digits_value, lemma_split_on_concat, lemma_split_on_no_sep, parse_unsigned,
    parse_unsigned_spec, push_char, split_chars, split_on,
};

verus! {

/// A hardware (MAC) address of six bytes.
#[derive(Debug, Clone, Copy, PartialEq, Eq, Hash)]
pub struct MacAddress(pub [u8; 6]);

/// The lower-case hexadecimal digit for `n` (less than 16).
pub open spec fn hex_digit_char(n: nat) -> char {
    if n < 10 {
        ('0' as int + n) as char
    } else {
        ('a' as int + n - 10) as char
    }
}

/// Two lower-case hexadecimal digits for a byte, as `{:02x}` writes it.
pub open spec fn hex2(b: u8) -> Seq<char> {
    seq![hex_digit_char(b as nat / 16), hex_digit_char(b as nat % 16)]
}

/// The text of a MAC address: six two-digit lower-case hex bytes joined by `:`.
pub open spec fn mac_text(b: Seq<u8>) -> Seq<char> {
    hex2(b[0]) + seq![':'] + hex2(b[1]) + seq![':'] + hex2(b[2]) + seq![':'] + hex2(b[3]) + seq![
        ':',
    ] + hex2(b[4]) + seq![':'] + hex2(b[5])
}

/// The bytes that `MacAddress::parse` reads from `s`: `s` split at `:` must give exactly six
/// pieces, each an unsigned hexadecimal number below 256 as `u8::from_str_radix` reads it.
pub open spec fn parse_mac_spec(s: Seq<char>) -> Option<Seq<u8>> {
    let parts = split_on(s, ':');
    if parts.len() == 6 && forall|i: int|
        0 <= i < 6 ==> #[trigger] parse_unsigned_spec(parts[i], 16, 255) is Some {
        Some(Seq::new(6, |i: int| parse_unsigned_spec(parts[i], 16, 255).unwrap() as u8))
    } else {
        None
    }
}

impl MacAddress {
    /// The six bytes of the address.
    pub open spec fn bytes(self) -> Seq<u8> {
        self.0@
    }

    /// Reads a MAC address written as six `:`-separated hexadecimal bytes.
    /// Loose forms such as `0:0:0:0:0:0` or `+a:...` are accepted, as `from_str_radix` accepts them.
    pub fn parse(s: &str) -> (r: Option<MacAddress>)
        ensures
            match r {
                Some(m) => parse_mac_spec(s@) == Some(m.bytes()),
                None => parse_mac_spec(s@) is None,
            },
    {
        let chars = chars_of(s);
        MacAddress::parse_chars(&chars)
    }

    /// Reads a MAC address from the characters `chars`, as `parse` does.
    pub fn parse_chars(chars: &Vec<char>) -> (r: Option<MacAddress>)
        ensures
            match r {
                Some(m) => parse_mac_spec(chars@) == Some(m.bytes()),
                None => parse_mac_spec(chars@) is None,
            },
    {
        let parts = split_chars(chars, ':');
        if parts.len() != 6 {
            return None;
        }
        let ghost spec_parts = split_on(chars@, ':');
        let mut bytes: Vec<u8> = Vec::new();
        let mut i: usize = 0;
        while i < 6
            invariant
                i <= 6,
                parts@.len() == 6,
                spec_parts == split_on(chars@, ':'),
                spec_parts.len() == 6,
                forall|j: int| 0 <= j < 6 ==> #[trigger] parts@[j]@ == spec_parts[j],
                bytes@.len() == i,
                forall|j: int|
                    0 <= j < i ==> #[trigger] parse_unsigned_spec(spec_parts[j], 16, 255) is Some,
                forall|j: int|
                    0 <= j < i ==> bytes@[j] == parse_unsigned_spec(spec_parts[j], 16, 255).unwrap()
                        as u8,
            decreases 6 - i,
        {
            assert(parts@[i as int]@ == spec_parts[i as int]);
            match parse_unsigned(&parts[i], 16, 255) {
                None => {
                    return None;
                },
                Some(v) => {
                    bytes.push(v as u8);
                },
            }
            i = i + 1;
        }
        let m = MacAddress([bytes[0], bytes[1], bytes[2], bytes[3], bytes[4], bytes[5]]);
        assert(m.bytes() =~= parse_mac_spec(chars@).unwrap());
        Some(m)
    }

    /// The address written as six two-digit lower-case hex bytes joined by `:`
    /// (as `{:02x}` writes each byte).
    pub fn to_string(&self) -> (r: String)
        ensures
            r@ == mac_text(self.bytes()),
    {
        let mut s = String::new();
        push_hex2(&mut s, self.0[0]);
        push_char(&mut s, ':');
        push_hex2(&mut s, self.0[1]);
        push_char(&mut s, ':');
        push_hex2(&mut s, self.0[2]);
        push_char(&mut s, ':');
        push_hex2(&mut s, self.0[3]);
        push_char(&mut s, ':');
        push_hex2(&mut s, self.0[4]);
        push_char(&mut s, ':');
        push_hex2(&mut s, self.0[5]);
        assert(s@ =~= mac_text(self.bytes()));
        s
    }

    /// Whether two addresses are the same.
    pub fn same_as(&self, other: &MacAddress) -> (r: bool)
        ensures
            r == (*self == *other),
    {
        let mut i: usize = 0;
        while i < 6
            invariant
                i <= 6,
                forall|j: int| 0 <= j < i ==> self.0@[j] == other.0@[j],
            decreases 6 - i,
        {
            if self.0[i] != other.0[i] {
                return false;
            }
            i = i + 1;
        }
        proof {
            broadcast use vstd::array::group_array_axioms;

            assert(self.0 =~= other.0);
        }
        true
    }
}

impl From<[u8; 6]> for MacAddress {
    fn from(bytes: [u8; 6]) -> (r: MacAddress) {
        MacAddress(bytes)
    }
}

impl vstd::std_specs::convert::FromSpecImpl<[u8; 6]> for MacAddress {
    open spec fn obeys_from_spec() -> bool {
        true
    }

    open spec fn from_spec(v: [u8; 6]) -> MacAddress {
        MacAddress(v)
    }
}

/// The id of a Discord user.
#[derive(Debug, Clone, Copy, PartialEq, Eq, Hash, Structural)]
pub struct DiscordUserId(pub u64);

impl From<u64> for DiscordUserId {
    fn from(id: u64) -> (r: DiscordUserId) {
        DiscordUserId(id)
    }
}

impl vstd::std_specs::convert::FromSpecImpl<u64> for DiscordUserId {
    open spec fn obeys_from_spec() -> bool {
        true
    }

    open spec fn from_spec(v: u64) -> DiscordUserId {
        DiscordUserId(v)
    }
}

/// What a user asked for about a device that the monitor saw.
#[derive(Debug, Clone, Copy)]
pub enum UserAssociationRequest {
    /// The user says that the device at this address is theirs.
    AssociateRequest(MacAddress, DiscordUserId),
    /// Never ask about (nor report) the device at this address again.
    NeverAskForAssociationInFutureRequest(MacAddress),
}

/// What is known of the owner of a device.
#[derive(Debug, Clone, Copy, PartialEq, Eq, Structural)]
pub enum DiscordUserAssociation {
    /// The device belongs to this user.
    Associated(DiscordUserId),
    /// A user has requested to never be asked for association again.
    /// In this case the events from this MAC address are muted entirely.
    AskedNotToAssociateUser,
}

/// The user of an association, if it names one.
pub open spec fn associated_user_spec(a: DiscordUserAssociation) -> Option<DiscordUserId> {
    match a {
        DiscordUserAssociation::Associated(u) => Some(u),
        DiscordUserAssociation::AskedNotToAssociateUser => None,
    }
}

impl DiscordUserAssociation {
    /// The user that this association names, if any.
    pub fn associated_user(&self) -> (r: Option<DiscordUserId>)
        ensures
            r == associated_user_spec(*self),
    {
        match self {
            DiscordUserAssociation::Associated(user_id) => Some(*user_id),
            DiscordUserAssociation::AskedNotToAssociateUser => None,
        }
    }
}

/// The hexadecimal digit for `n`.
fn hex_digit(n: u8) -> (c: char)
    requires
        n < 16,
    ensures
        c == hex_digit_char(n as nat),
{
    if n < 10 {
        (('0' as u8) + n) as char
    } else {
        (('a' as u8) + n - 10) as char
    }
}

/// Appends the two hex digits of `b`.
fn push_hex2(s: &mut String, b: u8)
    ensures
        final(s)@ == old(s)@ + hex2(b),
{
    push_char(s, hex_digit(b / 16));
    push_char(s, hex_digit(b % 16));
    assert(final(s)@ =~= old(s)@ + hex2(b));
}

proof fn lemma_hex2_no_colon(b: u8)
    ensures
        !hex2(b).contains(':'),
{
    let h = hex2(b);
    assert(h[0] != ':' && h[1] != ':');
    if h.contains(':') {
        let j = choose|j: int| 0 <= j < h.len() && h[j] == ':';
        assert(j == 0 || j == 1);
    }
}

proof fn lemma_hex2_parses(b: u8)
    ensures
        parse_unsigned_spec(hex2(b), 16, 255) == Some(b as nat),
{
    let h = hex2(b);
    assert(h.drop_last().drop_last() =~= Seq::<char>::empty());
    assert(h.drop_last() =~= seq![h[0]]);
    assert(h.drop_last().last() == h[0]);
    assert(digits_value(h.drop_last().drop_last(), 16) == Some(0nat));
    assert(digit_value(h[0], 16) == Some(b as nat / 16));
    assert(digit_value(h[1], 16) == Some(b as nat % 16));
    assert(digits_value(h.drop_last(), 16) == Some(b as nat / 16));
    assert(digits_value(h, 16) == Some((b as nat / 16) * 16 + b as nat % 16));
    assert(h[0] != '+');
}

/// Reading back the text of an address gives the same address.
pub proof fn lemma_parse_mac_text(b: Seq<u8>)
    requires
        b.len() == 6,
    ensures
        parse_mac_spec(mac_text(b)) == Some(b),
{
    let p = seq![hex2(b[0]), hex2(b[1]), hex2(b[2]), hex2(b[3]), hex2(b[4]), hex2(b[5])];
    let t1 = hex2(b[0]);
    let t2 = t1 + seq![':'] + hex2(b[1]);
    let t3 = t2 + seq![':'] + hex2(b[2]);
    let t4 = t3 + seq![':'] + hex2(b[3]);
    let t5 = t4 + seq![':'] + hex2(b[4]);
    let t6 = t5 + seq![':'] + hex2(b[5]);
    assert(t6 == mac_text(b));
    lemma_hex2_no_colon(b[0]);
    lemma_hex2_no_colon(b[1]);
    lemma_hex2_no_colon(b[2]);
    lemma_hex2_no_colon(b[3]);
    lemma_hex2_no_colon(b[4]);
    lemma_hex2_no_colon(b[5]);
    lemma_split_on_no_sep(hex2(b[0]), ':');
    lemma_split_on_no_sep(hex2(b[1]), ':');
    lemma_split_on_no_sep(hex2(b[2]), ':');
    lemma_split_on_no_sep(hex2(b[3]), ':');
    lemma_split_on_no_sep(hex2(b[4]), ':');
    lemma_split_on_no_sep(hex2(b[5]), ':');
    lemma_split_on_concat(t1, hex2(b[1]), ':');
    lemma_split_on_concat(t2, hex2(b[2]), ':');
    lemma_split_on_concat(t3, hex2(b[3]), ':');
    lemma_split_on_concat(t4, hex2(b[4]), ':');
    lemma_split_on_concat(t5, hex2(b[5]), ':');
    assert(split_on(t6, ':') =~= p);
    lemma_hex2_parses(b[0]);
    lemma_hex2_parses(b[1]);
    lemma_hex2_parses(b[2]);
    lemma_hex2_parses(b[3]);
    lemma_hex2_parses(b[4]);
    lemma_hex2_parses(b[5]);
    assert(forall|i: int| 0 <= i < 6 ==> #[trigger] parse_unsigned_spec(p[i], 16, 255) == Some(
        b[i] as nat,
    ));
    assert(parse_mac_spec(mac_text(b)).unwrap() =~= b);
}

/// Two addresses with the same text are the same address.
pub proof fn lemma_mac_text_injective(a: MacAddress, b: MacAddress)
    requires
        mac_text(a.bytes()) == mac_text(b.bytes()),
    ensures
        a == b,
{
    broadcast use vstd::array::group_array_axioms;

    lemma_parse_mac_text(a.bytes());
    lemma_parse_mac_text(b.bytes());
    assert(a.bytes() == b.bytes());
    assert forall|i: int| 0 <= i < 6 implies a.0[i] == b.0[i] by {
        assert(a.0@[i] == b.0@[i]);
    }
    assert(a.0 =~= b.0);
}

/// A MAC address written by `to_string` is read back by `parse` as the same address.
pub proof fn lemma_mac_roundtrip(m: MacAddress)
    ensures
        parse_mac_spec(mac_text(m.bytes())) == Some(m.bytes()),
{
    lemma_parse_mac_text(m.bytes());
}

} // verus!
