//! Strongly typed database UUIDs and their wire encoding.
//!
//! A library database instance is identified by a UUID. The schema stores
//! UUIDs as lowercase hyphenated text, with one quirk kept for
//! compatibility: the nil UUID is written as the empty string.

use core::marker::PhantomData;
use vstd::prelude::*;

verus! {

/// 128-bit UUID of the entity selected by `Kind`.
///
/// The nil UUID (all zero) is a valid "unset" marker.
#[derive(Debug)]
pub struct Uuid<Kind> {
    pub value: u128,
    pub kind: PhantomData<Kind>,
}

impl<Kind> Clone for Uuid<Kind> {
    fn clone(&self) -> (r: Self)
        ensures
            r == *self,
    {
        *self
    }
}

impl<Kind> Copy for Uuid<Kind> {

}

impl<Kind> PartialEq for Uuid<Kind> {
    fn eq(&self, other: &Self) -> (r: bool) {
        self.value == other.value
    }
}

impl<Kind> vstd::std_specs::cmp::PartialEqSpecImpl for Uuid<Kind> {
    open spec fn obeys_eq_spec() -> bool {
        true
    }

    open spec fn eq_spec(&self, other: &Self) -> bool {
        self.value == other.value
    }
}

impl<Kind> Eq for Uuid<Kind> {

}

/// Two UUIDs of one kind with the same 128-bit value are the same UUID.
pub proof fn lemma_uuid_field_eq<Kind>(a: Uuid<Kind>, b: Uuid<Kind>)
    requires
        a.value == b.value,
    ensures
        a == b,
{
}

impl<Kind> Default for Uuid<Kind> {
    /// The default is the nil UUID.
    fn default() -> (r: Self)
        ensures
            r.value == 0,
    {
        Uuid { value: 0, kind: PhantomData }
    }
}

impl<Kind> Uuid<Kind> {
    /// Wraps a 128-bit value, most significant byte first.
    pub fn new(value: u128) -> (r: Self)
        ensures
            r.value == value,
    {
        Uuid { value, kind: PhantomData }
    }

    /// The nil UUID.
    pub fn nil() -> (r: Self)
        ensures
            r.value == 0,
    {
        Uuid { value: 0, kind: PhantomData }
    }

    pub open spec fn spec_is_nil(&self) -> bool {
        self.value == 0
    }

    /// Checks for the nil UUID.
    #[verifier::when_used_as_spec(spec_is_nil)]
    pub fn is_nil(&self) -> (r: bool)
        ensures
            r == self.spec_is_nil(),
    {
        self.value == 0
    }

    /// Encodes the UUID the way the schema stores it: lowercase hyphenated
    /// text, or the empty string for the nil UUID.
    pub fn to_wire_text(&self) -> (r: String)
        ensures
            self.value == 0 ==> r@ == Seq::<char>::empty(),
            self.value != 0 ==> r@ == uuid_hyphenated_text(self.value),
    {
        if self.value == 0 {
            String::new()
        } else {
            format_hyphenated(self.value)
        }
    }

    /// Decodes a stored column value: the empty string is the nil UUID,
    /// anything else must parse as a UUID.
    pub fn from_wire_text(s: &str) -> (r: Option<Self>)
        ensures
            s@.len() == 0 ==> (r matches Some(u) && u.value == 0),
            forall|v: u128| s@ == uuid_hyphenated_text(v) ==> (r matches Some(u) && u.value == v),
    {
        if s.is_empty() {
            proof {
                assert forall|v: u128| s@ == uuid_hyphenated_text(v) implies false by {
                    lemma_hex_digits_len(v as int, 32);
                }
            }
            Some(Uuid::nil())
        } else {
            match parse_uuid_text(s) {
                Some(value) => Some(Uuid::new(value)),
                None => None,
            }
        }
    }
}

/// The lowercase hexadecimal digit of a value below 16.
pub open spec fn hex_char_of(d: int) -> char {
    if d == 0 {
        '0'
    } else if d == 1 {
        '1'
    } else if d == 2 {
        '2'
    } else if d == 3 {
        '3'
    } else if d == 4 {
        '4'
    } else if d == 5 {
        '5'
    } else if d == 6 {
        '6'
    } else if d == 7 {
        '7'
    } else if d == 8 {
        '8'
    } else if d == 9 {
        '9'
    } else if d == 10 {
        'a'
    } else if d == 11 {
        'b'
    } else if d == 12 {
        'c'
    } else if d == 13 {
        'd'
    } else if d == 14 {
        'e'
    } else {
        'f'
    }
}

/// The lowest `count` hexadecimal digits of `v`, most significant first.
pub open spec fn hex_digits(v: int, count: nat) -> Seq<char>
    decreases count,
{
    if count == 0 {
        Seq::empty()
    } else {
        hex_digits(v / 16, (count - 1) as nat).push(hex_char_of(v % 16))
    }
}

pub proof fn lemma_hex_digits_len(v: int, count: nat)
    ensures
        hex_digits(v, count).len() == count,
    decreases count,
{
    if count > 0 {
        lemma_hex_digits_len(v / 16, (count - 1) as nat);
    }
}

/// The canonical lowercase hyphenated text of a 128-bit UUID value:
/// 32 hexadecimal digits in groups of 8, 4, 4, 4 and 12.
pub open spec fn uuid_hyphenated_text(v: u128) -> Seq<char> {
    let h = hex_digits(v as int, 32);
    h.subrange(0, 8) + seq!['-'] + h.subrange(8, 12) + seq!['-'] + h.subrange(12, 16) + seq!['-']
        + h.subrange(16, 20) + seq!['-'] + h.subrange(20, 32)
}

/// Relies on `uuid::Uuid::from_u128` and its `Hyphenated` formatter: the
/// result is the canonical lowercase hyphenated text of the byte-wise
/// big-endian 128-bit value.
#[verifier::external_body]
fn format_hyphenated(value: u128) -> (r: String)
    ensures
        r@ == uuid_hyphenated_text(value),
{
    format!("{}", uuid::Uuid::from_u128(value).hyphenated())
}

/// Relies on `uuid::Uuid::parse_str` and `uuid::Uuid::as_u128`: a string in
/// canonical hyphenated form parses to the value it spells. Nothing is
/// claimed of other inputs, which the parser may accept or reject.
#[verifier::external_body]
fn parse_uuid_text(s: &str) -> (r: Option<u128>)
    ensures
        forall|v: u128| s@ == uuid_hyphenated_text(v) ==> r == Some(v),
{
    match uuid::Uuid::parse_str(s) {
        Ok(parsed) => Some(parsed.as_u128()),
        Err(_) => None,
    }
}

/// Entity kind of [`DbUuid`].
#[derive(Debug, Clone, Copy)]
pub struct DatabaseUuidKind {}

/// Entity kind of [`SmartlistUuid`].
#[derive(Debug, Clone, Copy)]
pub struct SmartlistUuidKind {}

/// Entity kind of [`PackUuid`].
#[derive(Debug, Clone, Copy)]
pub struct PackUuidKind {}

pub type DbUuid = Uuid<DatabaseUuidKind>;

pub type SmartlistUuid = Uuid<SmartlistUuidKind>;

pub type PackUuid = Uuid<PackUuidKind>;

} // verus!
