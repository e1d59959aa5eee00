//! Utility functions.

use crate::errors::ValidationError;
use chrono::offset::Utc;
use rand::rngs::OsRng;
use rand::seq::SliceRandom;
use uuid::BytesError;
use uuid::Uuid;
use vstd::prelude::*;

verus! {

/// `uuid::Uuid`: an identifier of sixteen octets.
#[verifier::external_type_specification]
#[verifier::external_body]
pub struct ExUuid(Uuid);

/// `uuid::BytesError`: what `Uuid::from_slice` fails with.
#[verifier::external_type_specification]
#[verifier::external_body]
pub struct ExBytesError(BytesError);

/// `rand::rngs::OsRng`: the random number generator of the operating
/// system.
#[verifier::external_type_specification]
#[verifier::external_body]
pub struct ExOsRng(OsRng);

/// The sixteen octets that a `Uuid` holds, most significant first.
pub uninterp spec fn uuid_bytes(id: Uuid) -> Seq<u8>;

/// `Uuid::as_bytes` hands out the sixteen octets the identifier is made of.
pub assume_specification[ Uuid::as_bytes ](id: &Uuid) -> (bytes: &[u8; 16])
    ensures
        bytes@ == uuid_bytes(*id),
;

/// `Uuid::from_slice` accepts exactly the slices of sixteen octets, and the
/// identifier it builds holds those octets unchanged.
pub assume_specification[ Uuid::from_slice ](b: &[u8]) -> (made: Result<Uuid, BytesError>)
    ensures
        made is Ok <==> b@.len() == 16,
        made is Ok ==> uuid_bytes(made->Ok_0) == b@,
;

/// `Uuid::from_bytes` builds the identifier that holds the given sixteen
/// octets unchanged.
pub assume_specification[ Uuid::from_bytes ](bytes: [u8; 16]) -> (made: Uuid)
    ensures
        uuid_bytes(made) == bytes@,
;

/// The number that a sequence of octets denotes when read most significant
/// octet first.
pub open spec fn big_endian(bytes: Seq<u8>) -> nat
    decreases bytes.len(),
{
    if bytes.len() == 0 {
        0
    } else {
        big_endian(bytes.drop_last()) * 256 + bytes.last() as nat
    }
}

/// The position of an identifier in the total order of identifiers.
pub open spec fn uuid_value(id: Uuid) -> nat {
    big_endian(uuid_bytes(id))
}

/// The number of sequences of `n` octets.
pub open spec fn octet_span(n: nat) -> nat
    decreases n,
{
    if n == 0 {
        1
    } else {
        octet_span((n - 1) as nat) * 256
    }
}

/// A sequence of octets denotes a number below the span of its length.
pub proof fn lemma_big_endian_bound(bytes: Seq<u8>)
    ensures
        big_endian(bytes) < octet_span(bytes.len()),
    decreases bytes.len(),
{
    if bytes.len() > 0 {
        lemma_big_endian_bound(bytes.drop_last());
    }
}

/// A sequence made of the greatest octet alone denotes the greatest number
/// of its length.
pub proof fn lemma_big_endian_all_ones(bytes: Seq<u8>)
    requires
        forall|j: int| 0 <= j < bytes.len() ==> bytes[j] == 255,
    ensures
        big_endian(bytes) + 1 == octet_span(bytes.len()),
    decreases bytes.len(),
{
    if bytes.len() > 0 {
        lemma_big_endian_all_ones(bytes.drop_last());
    }
}

/// Adding one with carry: raising the octet at `at` by one and clearing the
/// saturated octets behind it raises the number denoted by one.
pub proof fn lemma_big_endian_carry(before: Seq<u8>, after: Seq<u8>, at: int)
    requires
        before.len() == after.len(),
        0 <= at < before.len(),
        before[at] < 255,
        after[at] == before[at] + 1,
        forall|j: int| 0 <= j < at ==> after[j] == before[j],
        forall|j: int| at < j < before.len() ==> before[j] == 255 && after[j] == 0,
    ensures
        big_endian(after) == big_endian(before) + 1,
    decreases before.len(),
{
    if at == before.len() - 1 {
        assert(after.drop_last() =~= before.drop_last());
    } else {
        lemma_big_endian_carry(before.drop_last(), after.drop_last(), at);
    }
}

/// The span of sixteen octets is one more than the greatest `u128`.
pub proof fn lemma_octet_span_sixteen()
    ensures
        octet_span(16) == u128::MAX + 1,
{
    reveal_with_fuel(octet_span, 17);
}

/// The span grows with the length.
pub proof fn lemma_octet_span_monotonic(a: nat, b: nat)
    requires
        a <= b,
    ensures
        octet_span(a) <= octet_span(b),
        octet_span(a) >= 1,
    decreases b,
{
    if a < b {
        lemma_octet_span_monotonic(a, (b - 1) as nat);
    } else if a > 0 {
        lemma_octet_span_monotonic((a - 1) as nat, (a - 1) as nat);
    }
}

/// Reads an identifier as a number: its sixteen octets, most significant
/// first.
pub fn uuid_to_u128(id: &Uuid) -> (value: u128)
    ensures
        value == uuid_value(*id),
{
    let bytes = id.as_bytes();
    let mut value: u128 = 0;
    let mut i: usize = 0;
    while i < 16
        invariant
            i <= 16,
            bytes@.len() == 16,
            value == big_endian(bytes@.take(i as int)),
        decreases 16 - i,
    {
        proof {
            let head = bytes@.take(i as int);
            let next = bytes@.take(i + 1);
            assert(next.drop_last() =~= head);
            assert(next.last() == bytes@[i as int]);
            lemma_big_endian_bound(next);
            lemma_octet_span_monotonic((i + 1) as nat, 16);
            lemma_octet_span_sixteen();
        }
        value = value * 256 + bytes[i] as u128;
        i += 1;
    }
    proof {
        assert(bytes@.take(16) =~= bytes@);
    }
    value
}

/// A sequence that starts with the octet `first` denotes `first` times the
/// span of the rest, plus what the rest denotes.
pub proof fn lemma_big_endian_prepend(first: u8, rest: Seq<u8>)
    ensures
        big_endian(seq![first] + rest) == first * octet_span(rest.len()) + big_endian(rest),
    decreases rest.len(),
{
    let whole = seq![first] + rest;
    assert(whole.len() == rest.len() + 1);
    if rest.len() == 0 {
        assert(whole.drop_last() =~= Seq::<u8>::empty());
        assert(big_endian(whole.drop_last()) == 0);
        assert(whole.last() == first);
        assert(octet_span(0) == 1);
        assert(big_endian(rest) == 0);
        assert(big_endian(whole) == big_endian(whole.drop_last()) * 256 + whole.last() as nat);
    } else {
        lemma_big_endian_prepend(first, rest.drop_last());
        assert(whole.drop_last() =~= seq![first] + rest.drop_last());
        assert(whole.last() == rest.last());
        assert(big_endian(whole) == big_endian(whole.drop_last()) * 256 + whole.last() as nat);
        assert(big_endian(rest) == big_endian(rest.drop_last()) * 256 + rest.last() as nat);
        assert(octet_span(rest.len()) == octet_span((rest.len() - 1) as nat) * 256);
        assert((first * octet_span((rest.len() - 1) as nat) + big_endian(rest.drop_last())) * 256
            == first * (octet_span((rest.len() - 1) as nat) * 256) + big_endian(rest.drop_last())
            * 256) by (nonlinear_arith);
    }
}

/// Makes the identifier that a number denotes: the identifier whose sixteen
/// octets, most significant first, spell the number.
pub fn uuid_from_u128(value: u128) -> (id: Uuid)
    ensures
        uuid_value(id) == value,
{
    let mut bytes: [u8; 16] = [0; 16];
    let mut rest: u128 = value;
    let mut i: usize = 16;
    proof {
        assert(bytes@.subrange(16, 16) =~= Seq::<u8>::empty());
        assert(big_endian(bytes@.subrange(16, 16)) == 0);
        assert(octet_span(0) == 1);
        assert(((16 - i) as nat) == 0);
        assert(rest * octet_span(0) == rest) by (nonlinear_arith)
            requires
                octet_span(0) == 1,
        ;
    }
    while i > 0
        invariant
            i <= 16,
            value == rest * octet_span((16 - i) as nat) + big_endian(bytes@.subrange(i as int, 16)),
        decreases i,
    {
        let ghost tail = bytes@.subrange(i as int, 16);
        i -= 1;
        let low: u8 = (rest % 256) as u8;
        bytes[i] = low;
        proof {
            let grown = bytes@.subrange(i as int, 16);
            assert(grown =~= seq![low] + tail);
            lemma_big_endian_prepend(low, tail);
            let span = octet_span((15 - i) as nat);
            assert(octet_span((16 - i) as nat) == span * 256);
            assert(rest == (rest / 256) * 256 + low);
            assert(((rest / 256) * 256 + low) * span == (rest / 256) * (span * 256) + low * span)
                by (nonlinear_arith);
        }
        rest = rest / 256;
    }
    proof {
        assert(bytes@.subrange(0, 16) =~= bytes@);
        lemma_big_endian_bound(bytes@);
        lemma_octet_span_sixteen();
        assert(rest == 0) by (nonlinear_arith)
            requires
                value == rest * octet_span(16) + big_endian(bytes@),
                octet_span(16) == u128::MAX + 1,
                value <= u128::MAX,
                big_endian(bytes@) >= 0,
                rest >= 0,
        ;
    }
    Uuid::from_bytes(bytes)
}

/// Gets the next UUID that would occur after the given one.
///
/// Fails with `CannotIncrementUuid` exactly when the input is the greatest
/// identifier, ffffffff-ffff-ffff-ffff-ffffffffffff.
pub fn next_uuid(uuid: Uuid) -> (next: Result<Uuid, ValidationError>)
    ensures
        next is Err <==> uuid_value(uuid) == u128::MAX,
        match next {
            Ok(id) => uuid_value(id) == uuid_value(uuid) + 1,
            Err(e) => e == ValidationError::CannotIncrementUuid,
        },
{
    let mut bytes: [u8; 16] = *uuid.as_bytes();
    let mut i: usize = 16;
    while i > 0
        invariant
            i <= 16,
            uuid_bytes(uuid).len() == 16,
            forall|j: int| 0 <= j < i ==> bytes@[j] == uuid_bytes(uuid)[j],
            forall|j: int| i <= j < 16 ==> uuid_bytes(uuid)[j] == 255 && bytes@[j] == 0,
        decreases i,
    {
        i -= 1;
        if bytes[i] < 255 {
            let raised: u8 = bytes[i] + 1;
            bytes[i] = raised;
            let made = Uuid::from_slice(bytes.as_slice());
            proof {
                lemma_big_endian_carry(uuid_bytes(uuid), bytes@, i as int);
                lemma_big_endian_bound(bytes@);
                lemma_octet_span_sixteen();
            }
            return match made {
                Ok(id) => Ok(id),
                Err(_) => Err(ValidationError::CannotIncrementUuid),
            };
        } else {
            bytes[i] = 0;
        }
    }
    proof {
        lemma_big_endian_all_ones(uuid_bytes(uuid));
        lemma_octet_span_sixteen();
    }
    Err(ValidationError::CannotIncrementUuid)
}

/// An instant, as the whole seconds since the Unix epoch (negative before
/// it) and the nanoseconds past that second.
#[derive(Debug, Clone, Copy, PartialEq, Eq, Structural)]
pub struct Timestamp {
    pub seconds: i64,
    pub nanoseconds: u32,
}

/// The nanoseconds in a second.
pub const NANOS_PER_SECOND: u64 = 1_000_000_000;

impl Timestamp {
    /// The nanoseconds between the epoch and this instant.
    pub open spec fn nanos(self) -> int {
        self.seconds * 1_000_000_000 + self.nanoseconds
    }

    /// Whether the instant is at or after the epoch and its nanosecond count
    /// fits in 64 bits.
    pub open spec fn in_range(self) -> bool {
        0 <= self.seconds && self.nanos() <= u64::MAX
    }
}

/// `Utc::now` reads the system clock; `DateTime::timestamp` and
/// `DateTime::timestamp_subsec_nanos` split the instant into its parts.
/// Nothing is claimed of the instant read. `Utc::now` panics where the
/// system clock stands before the epoch: a state of the machine that no
/// condition on a caller can name.
#[verifier::external_body]
pub(crate) fn wall_clock() -> (now: Timestamp) {
    let now = Utc::now();
    Timestamp { seconds: now.timestamp(), nanoseconds: now.timestamp_subsec_nanos() }
}

/// Gets the number of nanoseconds since unix epoch for a given datetime.
pub fn nanos_since_epoch(datetime: &Timestamp) -> (total: u64)
    requires
        datetime.in_range(),
    ensures
        total == datetime.nanos(),
{
    let timestamp: u64 = datetime.seconds as u64;
    let nanoseconds: u64 = datetime.nanoseconds as u64;
    assert(timestamp * 1_000_000_000 <= u64::MAX) by (nonlinear_arith)
        requires
            timestamp * 1_000_000_000 + nanoseconds <= u64::MAX,
            nanoseconds >= 0,
    ;
    timestamp * NANOS_PER_SECOND + nanoseconds
}

/// Gets the number of nanoseconds since unix epoch for a given datetime, or
/// `None` for an instant before the epoch or too far after it to count.
pub fn checked_nanos_since_epoch(datetime: &Timestamp) -> (total: Option<u64>)
    ensures
        total is Some <==> datetime.in_range(),
        total is Some ==> total->Some_0 == datetime.nanos(),
{
    if datetime.seconds < 0 {
        return None;
    }
    let timestamp: u64 = datetime.seconds as u64;
    match timestamp.checked_mul(NANOS_PER_SECOND) {
        Some(scaled) => scaled.checked_add(datetime.nanoseconds as u64),
        None => None,
    }
}

/// Whether sixteen octets are laid out as a random identifier is: the
/// higher half of the seventh octet holds the version, four, and the two
/// highest bits of the ninth hold the variant of RFC 4122, one and zero.
/// The other bits are free.
pub open spec fn is_random_layout(bytes: Seq<u8>) -> bool {
    &&& bytes.len() == 16
    &&& 0x40 <= bytes[6] <= 0x4f
    &&& 0x80 <= bytes[8] <= 0xbf
}

/// `Uuid::new_v4` fills sixteen octets from the thread's random number
/// generator, then sets the version to four and the variant to that of RFC
/// 4122. Of the other bits nothing is claimed. It panics where the thread's
/// generator cannot be seeded: a state of the machine, like running out
/// of memory, that no condition on a caller can name.
pub assume_specification[ Uuid::new_v4 ]() -> (id: Uuid)
    ensures
        is_random_layout(uuid_bytes(id)),
;

/// Whether a number is one that a random identifier can denote: some
/// identifier in the layout of random identifiers reads as it.
pub open spec fn is_random_value(value: u128) -> bool {
    exists|drawn: Uuid|
        is_random_layout(#[trigger] uuid_bytes(drawn)) && uuid_value(drawn) == value
}

/// Generates a UUID: a random identifier of version four, in the layout
/// of RFC 4122. Each call draws its octets afresh.
pub fn generate_uuid_v1() -> (id: Uuid)
    ensures
        is_random_layout(uuid_bytes(id)),
{
    Uuid::new_v4()
}

/// `OsRng::new` opens the operating system's random number generator, and
/// fails where the system offers none: then the result is `None`. Nothing is
/// claimed of when it succeeds.
#[verifier::external_body]
fn open_os_rng() -> (opened: Option<OsRng>) {
    OsRng::new().ok()
}

/// `SliceRandom::choose` picks one element of a slice at random: it returns
/// `None` exactly for the empty slice, and otherwise an element of the slice.
/// It panics where the system's generator fails after it was opened: a
/// state of the machine that no condition on a caller can name.
#[verifier::external_body]
fn choose_octet(options: &[u8], rng: &mut OsRng) -> (picked: Option<u8>)
    ensures
        picked is Some <==> options@.len() > 0,
        picked is Some ==> options@.contains(picked->Some_0),
{
    options.choose(rng).copied()
}

/// `String::from_utf8` accepts exactly the octet sequences that are valid
/// UTF-8, and the string it makes holds those octets unchanged. Where the
/// octets are refused the result is `None`.
#[verifier::external_body]
pub(crate) fn string_from_utf8(bytes: Vec<u8>) -> (made: Option<String>)
    ensures
        made is Some <==> vstd::utf8::valid_utf8(bytes@),
        made is Some ==> vstd::utf8::encode_utf8(made->Some_0@) == bytes@,
{
    String::from_utf8(bytes).ok()
}

/// Whether an octet is an ASCII digit or letter.
pub open spec fn is_secret_octet(b: u8) -> bool {
    (0x30 <= b <= 0x39) || (0x61 <= b <= 0x7a) || (0x41 <= b <= 0x5a)
}

/// Whether a character is an ASCII digit or letter.
pub open spec fn is_secret_char(c: char) -> bool {
    ('0' <= c <= '9') || ('a' <= c <= 'z') || ('A' <= c <= 'Z')
}

/// The text that a sequence of ASCII octets encodes: one character for each
/// octet.
pub open spec fn ascii_text(bytes: Seq<u8>) -> Seq<char> {
    Seq::new(bytes.len(), |i: int| bytes[i] as char)
}

/// A sequence of ASCII octets is valid UTF-8 and decodes to one character
/// for each octet.
pub proof fn lemma_ascii_is_utf8(bytes: Seq<u8>)
    requires
        forall|i: int| 0 <= i < bytes.len() ==> bytes[i] < 128,
    ensures
        vstd::utf8::valid_utf8(bytes),
        vstd::utf8::decode_utf8(bytes) == ascii_text(bytes),
{
    let chars = ascii_text(bytes);
    assert(vstd::utf8::is_ascii_chars(chars));
    vstd::utf8::is_ascii_chars_encode_utf8(chars);
    assert(vstd::utf8::encode_utf8(chars) =~= bytes);
    vstd::utf8::encode_utf8_valid_utf8(chars);
    vstd::utf8::encode_utf8_decode_utf8(chars);
}

/// The digits and letters that secrets are drawn from, each once: `0` to
/// `9`, `a` to `z`, then `A` to `Z`, as ASCII codes.
fn secret_alphabet() -> (options: [u8; 62])
    ensures
        forall|i: int| 0 <= i < 10 ==> #[trigger] options@[i] == 48 + i,
        forall|i: int| 10 <= i < 36 ==> #[trigger] options@[i] == 87 + i,
        forall|i: int| 36 <= i < 62 ==> #[trigger] options@[i] == 29 + i,
{
    [
        48, 49, 50, 51, 52, 53, 54, 55, 56, 57,
        97, 98, 99, 100, 101, 102, 103, 104, 105, 106, 107, 108, 109,
        110, 111, 112, 113, 114, 115, 116, 117, 118, 119, 120, 121, 122,
        65, 66, 67, 68, 69, 70, 71, 72, 73, 74, 75, 76, 77,
        78, 79, 80, 81, 82, 83, 84, 85, 86, 87, 88, 89, 90,
    ]
}

/// Makes a secret of the octets drawn for it: the text with one character
/// for each octet. Returns `None` unless every octet is an ASCII digit or
/// letter.
pub fn secret_from_octets(octets: Vec<u8>) -> (secret: Option<String>)
    ensures
        secret is Some <==> forall|i: int|
            0 <= i < octets@.len() ==> is_secret_octet(#[trigger] octets@[i]),
        secret is Some ==> secret->Some_0@ == ascii_text(octets@),
{
    let mut i: usize = 0;
    while i < octets.len()
        invariant
            i <= octets@.len(),
            forall|j: int| 0 <= j < i ==> is_secret_octet(#[trigger] octets@[j]),
        decreases octets@.len() - i,
    {
        let b = octets[i];
        if !((0x30 <= b && b <= 0x39) || (0x61 <= b && b <= 0x7a) || (0x41 <= b && b <= 0x5a)) {
            return None;
        }
        i += 1;
    }
    let ghost given = octets@;
    let secret = string_from_utf8(octets);
    proof {
        lemma_ascii_is_utf8(given);
        if secret is Some {
            vstd::utf8::encode_utf8_decode_utf8(secret->Some_0@);
        }
    }
    secret
}

/// Draws a secret from the operating system's random number generator,
/// given the outcome of opening it: where the generator is open, a string
/// of `count` characters, each a letter (uppercase or lowercase) or a
/// digit drawn from it; where it is not, `None`.
pub fn secret_from_generator(opened: Option<OsRng>, count: usize) -> (secret: Option<String>)
    ensures
        secret is Some <==> opened is Some,
        secret is Some ==> secret->Some_0@.len() == count,
        secret is Some ==> forall|i: int|
            0 <= i < count ==> is_secret_char(#[trigger] secret->Some_0@[i]),
{
    let mut rng = match opened {
        Some(rng) => rng,
        None => {
            return None;
        },
    };
    let options = secret_alphabet();
    assert forall|i: int| 0 <= i < 62 implies is_secret_octet(#[trigger] options@[i]) by {
        if i < 10 {
            assert(options@[i] == 48 + i);
        } else if i < 36 {
            assert(options@[i] == 87 + i);
        } else {
            assert(options@[i] == 29 + i);
        }
    }
    let mut chars: Vec<u8> = Vec::new();
    let mut n: usize = 0;
    while n < count
        invariant
            n <= count,
            chars@.len() == n,
            options@.len() == 62,
            forall|i: int| 0 <= i < 62 ==> is_secret_octet(#[trigger] options@[i]),
            forall|i: int| 0 <= i < n ==> is_secret_octet(#[trigger] chars@[i]),
        decreases count - n,
    {
        match choose_octet(options.as_slice(), &mut rng) {
            Some(c) => {
                chars.push(c);
            },
            // The alphabet is not empty, so an octet is always drawn.
            None => {
                return None;
            },
        }
        n += 1;
    }
    secret_from_octets(chars)
}

/// Generates a securely random string consisting of letters (uppercase and
/// lowercase) and digits, `count` characters long. Returns `None` where the
/// operating system's random number generator cannot be opened, and only
/// there: see `secret_from_generator`.
pub fn generate_random_secret(count: usize) -> (secret: Option<String>)
    ensures
        secret is Some ==> secret->Some_0@.len() == count,
        secret is Some ==> forall|i: int|
            0 <= i < count ==> is_secret_char(#[trigger] secret->Some_0@[i]),
{
    secret_from_generator(open_os_rng(), count)
}

} // verus!
