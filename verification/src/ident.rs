//! Time-ordered 128-bit identifiers: the byte layout, generation, and the
//! extraction of the embedded timestamp.

use vstd::prelude::*;
use crate::calendar::MAX_SECONDS;
use crate::timestamp::{
    lemma_millis_of_timestamp, lemma_timestamp_unique, millis_in_range, timestamp_at,
    timestamp_from_millis, Timestamp,
};

verus! {

/// The version marker of a time-ordered identifier.
pub const TIME_ORDERED_VERSION: u8 = 7;

/// The version field of a 16-byte layout: the upper four bits of byte 6.
pub open spec fn version_of(bytes: Seq<u8>) -> int {
    bytes[6] as int / 16
}

/// The variant field of a 16-byte layout: the upper two bits of byte 8.
pub open spec fn variant_of(bytes: Seq<u8>) -> int {
    bytes[8] as int / 64
}

/// The timestamp field of a 16-byte layout: bytes 0 to 5 read as one
/// big-endian number.
pub open spec fn timestamp_field(bytes: Seq<u8>) -> int {
    bytes[0] as int * 0x100_0000_0000 + bytes[1] as int * 0x1_0000_0000 + bytes[2] as int
        * 0x100_0000 + bytes[3] as int * 0x1_0000 + bytes[4] as int * 0x100 + bytes[5] as int
}

/// The six bytes that hold `millis` in the timestamp field, most significant
/// first.
pub open spec fn millis_bytes(millis: int) -> Seq<u8> {
    seq![
        (millis / 0x100_0000_0000 % 256) as u8,
        (millis / 0x1_0000_0000 % 256) as u8,
        (millis / 0x100_0000 % 256) as u8,
        (millis / 0x1_0000 % 256) as u8,
        (millis / 0x100 % 256) as u8,
        (millis % 256) as u8,
    ]
}

/// A 128-bit identifier, held as sixteen bytes in network order.
#[derive(Clone, Copy, Debug, PartialEq, Eq)]
pub struct Uuid {
    bytes: [u8; 16],
}

impl View for Uuid {
    type V = Seq<u8>;

    closed spec fn view(&self) -> Seq<u8> {
        self.bytes@
    }
}

impl Uuid {
    /// The identifier with the given bytes.
    pub fn from_bytes(bytes: [u8; 16]) -> (r: Uuid)
        ensures
            r@ == bytes@,
    {
        Uuid { bytes }
    }

    /// The sixteen bytes of the identifier.
    pub fn as_bytes(&self) -> (r: &[u8; 16])
        ensures
            r@ == self@,
    {
        &self.bytes
    }

    /// The version nibble of the identifier.
    pub fn version(&self) -> (v: u8)
        ensures
            v == version_of(self@),
    {
        let b: u8 = self.bytes[6];
        let v: u8 = (b >> 4) & 0x0F;
        assert((b >> 4) & 0x0F == b / 16) by (bit_vector);
        v
    }

    /// The milliseconds since 1970-01-01T00:00:00 UTC that the first six bytes
    /// of the identifier hold.
    pub fn unix_millis(&self) -> (ms: u64)
        ensures
            ms == timestamp_field(self@),
            ms < 0x1_0000_0000_0000,
    {
        let b0: u64 = self.bytes[0] as u64;
        let b1: u64 = self.bytes[1] as u64;
        let b2: u64 = self.bytes[2] as u64;
        let b3: u64 = self.bytes[3] as u64;
        let b4: u64 = self.bytes[4] as u64;
        let b5: u64 = self.bytes[5] as u64;
        let ms: u64 = (b0 << 40) | (b1 << 32) | (b2 << 24) | (b3 << 16) | (b4 << 8) | b5;
        assert(ms == b0 * 0x100_0000_0000 + b1 * 0x1_0000_0000 + b2 * 0x100_0000 + b3 * 0x1_0000
            + b4 * 0x100 + b5 && ms < 0x1_0000_0000_0000) by (bit_vector)
            requires
                ms == (b0 << 40) | (b1 << 32) | (b2 << 24) | (b3 << 16) | (b4 << 8) | b5,
                b0 < 256,
                b1 < 256,
                b2 < 256,
                b3 < 256,
                b4 < 256,
                b5 < 256,
        ;
        ms
    }

    /// Tells whether two identifiers hold the same bytes.
    pub fn same_bytes(&self, other: &Uuid) -> (r: bool)
        ensures
            r == (self@ == other@),
    {
        let mut i: usize = 0;
        while i < 16
            invariant
                i <= 16,
                forall|j: int| 0 <= j < i ==> self@[j] == other@[j],
            decreases 16 - i,
        {
            if self.bytes[i] != other.bytes[i] {
                return false;
            }
            i += 1;
        }
        assert(self@ =~= other@);
        true
    }

    /// An identifier always has sixteen bytes.
    pub proof fn lemma_len(self)
        ensures
            self@.len() == 16,
    {
    }

    /// Two identifiers with the same bytes are the same identifier.
    pub proof fn lemma_view_injective(self, other: Uuid)
        requires
            self@ == other@,
        ensures
            self == other,
    {
        assert(self.bytes@ =~= other.bytes@);
        assert(self.bytes =~= other.bytes);
    }
}

/// What `uuid_to_ts` returns for an identifier: the timestamp of the instant
/// in its timestamp field where the version is 7 and the instant falls in
/// the years 1 to 9999, and nothing otherwise.
pub open spec fn decodes_to(id: Seq<u8>, r: Option<Timestamp>) -> bool {
    &&& r is Some <==> version_of(id) == 7 && millis_in_range(timestamp_field(id))
    &&& r matches Some(t) ==> timestamp_at(timestamp_field(id), t)
}

/// Extracts the timestamp that a version-7 identifier carries.
///
/// Returns nothing for an identifier of another version, and for one whose
/// timestamp field names an instant after the year 9999.
pub fn uuid_to_ts(uuid: Uuid) -> (r: Option<Timestamp>)
    ensures
        decodes_to(uuid@, r),
{
    if uuid.version() != TIME_ORDERED_VERSION {
        return None;
    }
    timestamp_from_millis(uuid.unix_millis())
}

/// Calls the uuid crate's `Uuid::now_v7` and takes the bytes of what it
/// makes.
///
/// Trusted: whatever the clock and the random source gave, the uuid crate
/// sets the version field to 7 and the variant field to binary 10. The call
/// panics only where the system clock stands before 1970.
#[verifier::external_body]
fn now_v7_bytes() -> (bytes: [u8; 16])
    ensures
        version_of(bytes@) == 7,
        variant_of(bytes@) == 2,
{
    uuid::Uuid::now_v7().into_bytes()
}

/// Generates a fresh time-ordered identifier: the current time in its
/// timestamp field, version 7, and random fill in the rest.
pub fn new_uuid() -> (r: Uuid)
    ensures
        version_of(r@) == 7,
        variant_of(r@) == 2,
{
    Uuid::from_bytes(now_v7_bytes())
}

/// Bytes 0 to 5 of a layout hold whatever count of milliseconds below 2^48
/// was written to them, most significant byte first.
pub proof fn lemma_timestamp_field_of_millis_bytes(millis: int, id: Seq<u8>)
    requires
        0 <= millis < 0x1_0000_0000_0000,
        id.len() == 16,
        id.subrange(0, 6) == millis_bytes(millis),
    ensures
        timestamp_field(id) == millis,
{
    let m = millis as u64;
    assert((m / 0x100_0000_0000 % 256) * 0x100_0000_0000 + (m / 0x1_0000_0000 % 256)
        * 0x1_0000_0000 + (m / 0x100_0000 % 256) * 0x100_0000 + (m / 0x1_0000 % 256) * 0x1_0000 + (m
        / 0x100 % 256) * 0x100 + m % 256 == m) by (bit_vector)
        requires
            m < 0x1_0000_0000_0000,
    ;
    assert(id[0] == id.subrange(0, 6)[0]);
    assert(id[1] == id.subrange(0, 6)[1]);
    assert(id[2] == id.subrange(0, 6)[2]);
    assert(id[3] == id.subrange(0, 6)[3]);
    assert(id[4] == id.subrange(0, 6)[4]);
    assert(id[5] == id.subrange(0, 6)[5]);
}

/// An identifier decodes to one result only.
pub proof fn lemma_decodes_to_unique(id: Seq<u8>, a: Option<Timestamp>, b: Option<Timestamp>)
    requires
        decodes_to(id, a),
        decodes_to(id, b),
    ensures
        a == b,
{
    if a is Some {
        lemma_timestamp_unique(timestamp_field(id), a->0, b->0);
    }
}

/// An identifier of another version than 7 carries no timestamp.
pub proof fn lemma_other_version_has_no_timestamp(id: Seq<u8>, r: Option<Timestamp>)
    requires
        version_of(id) != 7,
        decodes_to(id, r),
    ensures
        r is None,
{
}

/// A version-7 identifier whose timestamp field lies past the last second of
/// the year 9999 carries no timestamp.
pub proof fn lemma_out_of_range_has_no_timestamp(id: Seq<u8>, r: Option<Timestamp>)
    requires
        timestamp_field(id) / 1000 > MAX_SECONDS,
        decodes_to(id, r),
    ensures
        r is None,
{
}

/// Round trip: write the instant of a valid timestamp of the years 1970 to
/// 9999, whole milliseconds only, into the timestamp field of a version-7
/// layout; decoding that layout gives the timestamp back, field for field.
pub proof fn lemma_decode_after_encode(t: Timestamp, id: Seq<u8>, r: Option<Timestamp>)
    requires
        t.wf(),
        1970 <= t@.year <= 9999,
        t@.nanosecond % 1_000_000 == 0,
        id.len() == 16,
        version_of(id) == 7,
        id.subrange(0, 6) == millis_bytes(t@.unix_millis()),
        decodes_to(id, r),
    ensures
        r == Some(t),
{
    lemma_millis_of_timestamp(t);
    lemma_timestamp_field_of_millis_bytes(t@.unix_millis(), id);
    lemma_timestamp_unique(timestamp_field(id), t, r->0);
}

/// The hexadecimal digit for a value from 0 to 15, in small letters.
pub open spec fn hex_digit(n: int) -> char {
    if n < 10 {
        (48 + n) as char
    } else {
        (87 + n) as char
    }
}

/// Whether a character is a hexadecimal digit in small letters.
pub open spec fn is_hex_digit(c: char) -> bool {
    '0' <= c <= '9' || 'a' <= c <= 'f'
}

/// The text of the first `n` bytes of a layout: two hexadecimal digits for
/// each byte, and a hyphen before the bytes 4, 6, 8 and 10.
pub open spec fn rendered(id: Seq<u8>, n: int) -> Seq<char>
    decreases n,
{
    if n <= 0 {
        Seq::empty()
    } else {
        let head = rendered(id, n - 1);
        let joined = if n == 5 || n == 7 || n == 9 || n == 11 {
            head.push('-')
        } else {
            head
        };
        joined.push(hex_digit(id[n - 1] as int / 16)).push(hex_digit(id[n - 1] as int % 16))
    }
}

/// The text of a 16-byte layout in groups of 8, 4, 4, 4 and 12 hexadecimal
/// digits with hyphens between them.
pub open spec fn hyphenated(id: Seq<u8>) -> Seq<char> {
    rendered(id, 16)
}

/// Where the two digits of byte `k` stand in the text.
pub open spec fn digit_index(k: int) -> int {
    2 * k + if k < 4 {
        0int
    } else if k < 6 {
        1
    } else if k < 8 {
        2
    } else if k < 10 {
        3
    } else {
        4
    }
}

/// The first `n` bytes give two characters each and one more for each
/// hyphen, and all but the hyphens are hexadecimal digits.
pub proof fn lemma_rendered(id: Seq<u8>, n: int)
    requires
        0 <= n <= 16,
    ensures
        rendered(id, n).len() == (if n == 0 { 0 } else { digit_index(n - 1) + 2 }),
        forall|k: int|
            0 <= k < n ==> #[trigger] rendered(id, n)[digit_index(k)] == hex_digit(
                id[k] as int / 16,
            ) && rendered(id, n)[digit_index(k) + 1] == hex_digit(id[k] as int % 16),
        forall|k: int|
            (k == 4 || k == 6 || k == 8 || k == 10) && k < n ==> rendered(id, n)[
                #[trigger] digit_index(k) - 1
            ] == '-',
    decreases n,
{
    if n > 0 {
        lemma_rendered(id, n - 1);
        let head = rendered(id, n - 1);
        let full = rendered(id, n);
        assert forall|k: int| 0 <= k < n implies #[trigger] full[digit_index(k)] == hex_digit(
            id[k] as int / 16,
        ) && full[digit_index(k) + 1] == hex_digit(id[k] as int % 16) by {
            if k < n - 1 {
                assert(full[digit_index(k)] == head[digit_index(k)]);
                assert(full[digit_index(k) + 1] == head[digit_index(k) + 1]);
            }
        }
        assert forall|k: int| (k == 4 || k == 6 || k == 8 || k == 10) && k < n implies full[
            #[trigger] digit_index(k) - 1
        ] == '-' by {
            if k < n - 1 {
                assert(full[digit_index(k) - 1] == head[digit_index(k) - 1]);
            }
        }
    }
}

/// The canonical grouping: the text of an identifier has 36 characters,
/// hyphens at the places 8, 13, 18 and 23 and hexadecimal digits at all
/// others, and the digit at place 14 is the version.
pub proof fn lemma_hyphenated_shape(id: Seq<u8>)
    requires
        id.len() == 16,
    ensures
        hyphenated(id).len() == 36,
        forall|i: int|
            0 <= i < 36 ==> if i == 8 || i == 13 || i == 18 || i == 23 {
                #[trigger] hyphenated(id)[i] == '-'
            } else {
                is_hex_digit(hyphenated(id)[i])
            },
        hyphenated(id)[14] == hex_digit(version_of(id)),
{
    lemma_rendered(id, 16);
    let r = hyphenated(id);
    assert(r[digit_index(4) - 1] == '-');
    assert(r[digit_index(6) - 1] == '-');
    assert(r[digit_index(8) - 1] == '-');
    assert(r[digit_index(10) - 1] == '-');
    assert forall|i: int| 0 <= i < 36 implies if i == 8 || i == 13 || i == 18 || i == 23 {
        #[trigger] r[i] == '-'
    } else {
        is_hex_digit(r[i])
    } by {
        if !(i == 8 || i == 13 || i == 18 || i == 23) {
            let j = if i < 8 {
                i
            } else if i < 13 {
                i - 1
            } else if i < 18 {
                i - 2
            } else if i < 23 {
                i - 3
            } else {
                i - 4
            };
            let k = j / 2;
            assert(0 <= k < 16);
            assert(i == digit_index(k) || i == digit_index(k) + 1);
            assert(r[digit_index(k)] == hex_digit(id[k] as int / 16));
            assert(0 <= id[k] as int / 16 < 16 && 0 <= id[k] as int % 16 < 16);
        }
    }
    assert(r[digit_index(6)] == hex_digit(id[6] as int / 16));
}

/// The hexadecimal digit for a value from 0 to 15.
fn hex_char(n: u8) -> (c: char)
    requires
        n < 16,
    ensures
        c == hex_digit(n as int),
{
    if n < 10 {
        (48 + n) as char
    } else {
        (87 + n) as char
    }
}

impl Uuid {
    /// The text of the identifier: 32 hexadecimal digits in small letters,
    /// grouped 8-4-4-4-12 by hyphens.
    pub fn to_string(&self) -> (r: String)
        ensures
            r@ == hyphenated(self@),
    {
        let mut r = String::new();
        let mut i: usize = 0;
        while i < 16
            invariant
                i <= 16,
                r@ == rendered(self@, i as int),
            decreases 16 - i,
        {
            if i == 4 || i == 6 || i == 8 || i == 10 {
                r.push('-');
            }
            let b: u8 = self.bytes[i];
            r.push(hex_char(b / 16));
            r.push(hex_char(b % 16));
            i += 1;
        }
        r
    }
}

} // verus!
