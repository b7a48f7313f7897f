//! Request identifiers: 26 characters that pack the site, the environment, the second of
//! creation, the broker slot and five random bytes.

use vstd::prelude::*;

use crate::numeral::{
    comes_before, drops_below_at, lemma_leading_digit, lemma_numeral_len, lemma_numeral_of_value,
    lemma_numeral_order, lemma_numeral_roundtrip, lemma_power_monotone, numeral, numeral_value,
    power,
};
use crate::text::{cat2, cat3, chars_of, decimal, decimal_text};
use crate::time::{parse_rfc3339, Timestamp};

verus! {

pub const ID_VERSION: u8 = 1;

pub const CUSTOM_EPOCH: &'static str = "2025-01-01T00:00:00Z";

/// `CUSTOM_EPOCH` in seconds since the Unix epoch.
pub const CUSTOM_EPOCH_SECS: i64 = 1_735_689_600;

pub const ID_LEN: usize = 26;

pub const PACKED_LEN: usize = 16;

pub const BASE37_SENTINEL: u16 = 36;

pub const BASE37_RADIX: u16 = 37;

pub const BASE37_MAX: u16 = 50_653;

#[derive(Debug, Clone, PartialEq, Eq)]
pub struct DecodedId {
    pub version: u8,
    pub site: String,
    pub env: String,
    pub timestamp: Timestamp,
    pub broker_slot: u16,
    pub random: [u8; 5],
}

/// The mathematical contents of a [`DecodedId`].
#[verifier::ext_equal]
pub struct IdFields {
    pub version: u8,
    pub site: Seq<char>,
    pub env: Seq<char>,
    pub timestamp: Timestamp,
    pub broker_slot: u16,
    pub random: Seq<u8>,
}

impl View for DecodedId {
    type V = IdFields;

    open spec fn view(&self) -> IdFields {
        IdFields {
            version: self.version,
            site: self.site@,
            env: self.env@,
            timestamp: self.timestamp,
            broker_slot: self.broker_slot,
            random: self.random@,
        }
    }
}

#[derive(Debug, Clone, Copy, PartialEq, Eq, Structural)]
pub enum DecodeError {
    WrongLength { actual: usize },
    DisallowedCrockfordCharacter { ch: char },
    Base32ValueOutOfRange,
    UnknownVersion { version: u8 },
    TagPackedValueOutOfRange { value: u16 },
    EmptyTag,
    EmbeddedSentinel,
}

#[derive(Debug, Clone, Copy, PartialEq, Eq, Structural)]
pub enum EncodeError {
    EmptyTag,
    TagTooLong { actual: usize },
    InvalidTagCharacter { ch: char },
    TimestampBeforeCustomEpoch,
    TimestampTooLarge,
}

// ---------------------------------------------------------------------------------------------
// Tags
// ---------------------------------------------------------------------------------------------

/// A character that a tag may hold.
pub open spec fn is_tag_char(ch: char) -> bool {
    ||| '0' <= ch <= '9'
    ||| 'a' <= ch <= 'z'
}

/// The base-37 digit of a tag character.
pub open spec fn tag_digit(ch: char) -> nat {
    if '0' <= ch <= '9' {
        (ch as nat - '0' as nat) as nat
    } else {
        (ch as nat - 'a' as nat + 10) as nat
    }
}

/// The tag character of a base-37 digit below the sentinel.
pub open spec fn digit_tag_char(d: nat) -> char {
    if d < 10 {
        ('0' as nat + d) as char
    } else {
        ('a' as nat + d - 10) as char
    }
}

/// A tag is one to three characters out of `0-9` and `a-z`.
pub open spec fn valid_tag(tag: Seq<char>) -> bool {
    &&& 1 <= tag.len() <= 3
    &&& forall|i: int| 0 <= i < tag.len() ==> is_tag_char(#[trigger] tag[i])
}

/// Position `i` of a tag padded with sentinels to three digits.
pub open spec fn padded_digit(tag: Seq<char>, i: int) -> nat {
    if i < tag.len() {
        tag_digit(tag[i])
    } else {
        BASE37_SENTINEL as nat
    }
}

/// The three padded digits read as one base-37 number.
pub open spec fn packed_tag(tag: Seq<char>) -> nat {
    padded_digit(tag, 0) * 1369 + padded_digit(tag, 1) * 37 + padded_digit(tag, 2)
}

/// `ch` is the leftmost character of `tag` that no tag may hold.
pub open spec fn first_invalid(tag: Seq<char>, ch: char) -> bool {
    exists|i: int|
        #![trigger tag[i]]
        {
            &&& 0 <= i < tag.len()
            &&& tag[i] == ch
            &&& !is_tag_char(ch)
            &&& forall|k: int| 0 <= k < i ==> is_tag_char(#[trigger] tag[k])
        }
}

/// What [`pack_tag`] returns.
pub open spec fn pack_tag_result(tag: Seq<char>, r: Result<u16, EncodeError>) -> bool {
    match r {
        Ok(packed) => valid_tag(tag) && packed == packed_tag(tag),
        Err(EncodeError::EmptyTag) => tag.len() == 0,
        Err(EncodeError::TagTooLong { actual }) => tag.len() > 3 && actual == tag.len(),
        Err(EncodeError::InvalidTagCharacter { ch }) => 1 <= tag.len() <= 3 && first_invalid(
            tag,
            ch,
        ),
        Err(_) => false,
    }
}

/// The tag that a packed value stands for, or why it stands for none.
pub open spec fn unpacked_tag(value: nat) -> Result<Seq<char>, DecodeError> {
    let a = value / 1369;
    let b = (value / 37) % 37;
    let c = value % 37;
    if value >= BASE37_MAX {
        Err(DecodeError::TagPackedValueOutOfRange { value: value as u16 })
    } else if a == BASE37_SENTINEL {
        Err(DecodeError::EmptyTag)
    } else if b == BASE37_SENTINEL {
        if c == BASE37_SENTINEL {
            Ok(seq![digit_tag_char(a)])
        } else {
            Err(DecodeError::EmbeddedSentinel)
        }
    } else if c == BASE37_SENTINEL {
        Ok(seq![digit_tag_char(a), digit_tag_char(b)])
    } else {
        Ok(seq![digit_tag_char(a), digit_tag_char(b), digit_tag_char(c)])
    }
}

fn tag_char_value(ch: char) -> (r: Result<u16, EncodeError>)
    ensures
        match r {
            Ok(digit) => is_tag_char(ch) && digit == tag_digit(ch) && digit < BASE37_SENTINEL,
            Err(e) => !is_tag_char(ch) && e == (EncodeError::InvalidTagCharacter { ch }),
        },
{
    if '0' <= ch && ch <= '9' {
        Ok((ch as u32 - 48) as u16)
    } else if 'a' <= ch && ch <= 'z' {
        Ok((ch as u32 - 97 + 10) as u16)
    } else {
        Err(EncodeError::InvalidTagCharacter { ch })
    }
}

fn value_char(value: u16) -> (ch: char)
    requires
        value < BASE37_SENTINEL,
    ensures
        ch == digit_tag_char(value as nat),
{
    if value < 10 {
        (48 + value as u8) as char
    } else {
        (97 + (value as u8 - 10)) as char
    }
}

/// Packs a site or environment tag into 16 bits.
pub fn pack_tag(tag: &str) -> (r: Result<u16, EncodeError>)
    ensures
        pack_tag_result(tag@, r),
{
    let chars = chars_of(tag);
    let len: usize = chars.len();
    if len == 0 {
        return Err(EncodeError::EmptyTag);
    }
    if len > 3 {
        return Err(EncodeError::TagTooLong { actual: len });
    }
    let mut digits: [u16; 3] = [BASE37_SENTINEL, BASE37_SENTINEL, BASE37_SENTINEL];
    let mut index: usize = 0;
    while index < len
        invariant
            index <= len,
            len == chars.len(),
            1 <= len <= 3,
            chars@ == tag@,
            forall|k: int| 0 <= k < index ==> is_tag_char(#[trigger] tag@[k]),
            forall|k: int|
                #![trigger digits@[k]]
                0 <= k < 3 ==> digits@[k] <= BASE37_SENTINEL && digits@[k] == if k < index {
                    tag_digit(tag@[k])
                } else {
                    BASE37_SENTINEL as nat
                },
        decreases len - index,
    {
        match tag_char_value(chars[index]) {
            Ok(digit) => {
                digits[index] = digit;
            },
            Err(e) => {
                assert(tag@[index as int] == chars@[index as int]);
                return Err(e);
            },
        }
        index = index + 1;
    }
    assert(digits@[0] == padded_digit(tag@, 0));
    assert(digits@[1] == padded_digit(tag@, 1));
    assert(digits@[2] == padded_digit(tag@, 2));
    Ok(digits[0] * BASE37_RADIX * BASE37_RADIX + digits[1] * BASE37_RADIX + digits[2])
}

/// Reads a packed tag back.
pub fn unpack_tag(value: u16) -> (r: Result<String, DecodeError>)
    ensures
        match r {
            Ok(tag) => unpacked_tag(value as nat) == Ok::<Seq<char>, DecodeError>(tag@),
            Err(e) => unpacked_tag(value as nat) == Err::<Seq<char>, DecodeError>(e),
        },
{
    if value >= BASE37_MAX {
        return Err(DecodeError::TagPackedValueOutOfRange { value });
    }
    let a: u16 = value / (BASE37_RADIX * BASE37_RADIX);
    let b: u16 = (value / BASE37_RADIX) % BASE37_RADIX;
    let c: u16 = value % BASE37_RADIX;
    assert(value as nat / 1369 <= 36) by (nonlinear_arith)
        requires
            value < 50_653,
    ;
    assert(a == value as nat / 1369 && b < 37 && c < 37);
    let mut tag = String::new();
    if a == BASE37_SENTINEL {
        return Err(DecodeError::EmptyTag);
    }
    tag.push(value_char(a));
    if b == BASE37_SENTINEL {
        if c != BASE37_SENTINEL {
            return Err(DecodeError::EmbeddedSentinel);
        }
        assert(tag@ =~= seq![digit_tag_char(a as nat)]);
        return Ok(tag);
    }
    tag.push(value_char(b));
    if c == BASE37_SENTINEL {
        assert(tag@ =~= seq![digit_tag_char(a as nat), digit_tag_char(b as nat)]);
        return Ok(tag);
    }
    tag.push(value_char(c));
    assert(tag@ =~= seq![
        digit_tag_char(a as nat),
        digit_tag_char(b as nat),
        digit_tag_char(c as nat),
    ]);
    Ok(tag)
}

/// Packing a valid tag and unpacking the value gives the tag back.
pub proof fn law_unpack_inverts_pack(tag: Seq<char>)
    requires
        valid_tag(tag),
    ensures
        packed_tag(tag) < BASE37_MAX,
        unpacked_tag(packed_tag(tag)) == Ok::<Seq<char>, DecodeError>(tag),
{
    let a = padded_digit(tag, 0);
    let b = padded_digit(tag, 1);
    let c = padded_digit(tag, 2);
    let v = packed_tag(tag);
    assert(is_tag_char(tag[0]));
    assert(tag.len() > 1 ==> is_tag_char(tag[1]));
    assert(tag.len() > 2 ==> is_tag_char(tag[2]));
    assert(v / 1369 == a && (v / 37) % 37 == b && v % 37 == c) by {
        assert(v / 37 == a * 37 + b);
    }
    if tag.len() == 1 {
        assert(tag =~= seq![digit_tag_char(a)]);
    } else if tag.len() == 2 {
        assert(tag =~= seq![digit_tag_char(a), digit_tag_char(b)]);
    } else {
        assert(tag =~= seq![digit_tag_char(a), digit_tag_char(b), digit_tag_char(c)]);
    }
}

/// Whatever a packed value unpacks to is a valid tag that packs to that very value.
pub proof fn law_pack_inverts_unpack(value: nat)
    requires
        unpacked_tag(value) is Ok,
    ensures
        valid_tag(unpacked_tag(value)->Ok_0),
        packed_tag(unpacked_tag(value)->Ok_0) == value,
{
    let tag = unpacked_tag(value)->Ok_0;
    let a = value / 1369;
    let b = (value / 37) % 37;
    let c = value % 37;
    assert(value == a * 1369 + b * 37 + c);
    assert(a < 37);
    assert forall|i: int| 0 <= i < tag.len() implies is_tag_char(#[trigger] tag[i]) by {}
    assert(tag_digit(tag[0]) == a);
}

// ---------------------------------------------------------------------------------------------
// Crockford base 32
// ---------------------------------------------------------------------------------------------

const CROCKFORD_ALPHABET: &'static str = "0123456789abcdefghjkmnpqrstvwxyz";

/// The 32 digits, in order.
pub open spec fn crockford_alphabet() -> Seq<char> {
    "0123456789abcdefghjkmnpqrstvwxyz"@
}

proof fn lemma_alphabet()
    ensures
        crockford_alphabet().len() == 32,
        crockford_alphabet().no_duplicates(),
        crockford_alphabet()[0] == '0',
        crockford_alphabet()[7] == '7',
        forall|i: int, j: int|
            0 <= i < j < 32 ==> (#[trigger] crockford_alphabet()[i] as nat) < (
            #[trigger] crockford_alphabet()[j] as nat),
{
    reveal_strlit("0123456789abcdefghjkmnpqrstvwxyz");
    let listed = seq![
        '0', '1', '2', '3', '4', '5', '6', '7', '8', '9', 'a', 'b', 'c', 'd', 'e', 'f', 'g', 'h',
        'j', 'k', 'm', 'n', 'p', 'q', 'r', 's', 't', 'v', 'w', 'x', 'y', 'z',
    ];
    assert(crockford_alphabet() =~= listed);
}

/// The digits of a text over the alphabet.
pub open spec fn crockford_digits(id: Seq<char>) -> Seq<nat> {
    Seq::new(id.len(), |i: int| crockford_alphabet().index_of(id[i]) as nat)
}

/// The leftmost character that is not in the alphabet.
pub open spec fn first_disallowed(id: Seq<char>) -> Option<char>
    decreases id.len(),
{
    if id.len() == 0 {
        None
    } else {
        match first_disallowed(id.drop_last()) {
            Some(ch) => Some(ch),
            None => if crockford_alphabet().contains(id.last()) {
                None
            } else {
                Some(id.last())
            },
        }
    }
}

/// Bytes as base-256 digits.
pub open spec fn byte_digits(bytes: Seq<u8>) -> Seq<nat> {
    Seq::new(bytes.len(), |i: int| bytes[i] as nat)
}

/// The 26 characters that stand for 16 bytes read as one big-endian number.
pub open spec fn crockford_text(bytes: Seq<u8>) -> Seq<char> {
    let digits = numeral(numeral_value(byte_digits(bytes), 256), 32, 26);
    Seq::new(26, |i: int| crockford_alphabet()[digits[i] as int])
}

/// The 16 big-endian bytes of a number below 2^128.
pub open spec fn value_bytes(value: nat) -> Seq<u8> {
    Seq::new(16, |i: int| numeral(value, 256, 16)[i] as u8)
}

/// The 16 bytes that a text stands for, or why it stands for none.
pub open spec fn crockford_bytes(id: Seq<char>) -> Result<Seq<u8>, DecodeError> {
    if id.len() != ID_LEN {
        Err(DecodeError::WrongLength { actual: id.len() as usize })
    } else {
        match first_disallowed(id) {
            Some(ch) => Err(DecodeError::DisallowedCrockfordCharacter { ch }),
            None => if numeral_value(crockford_digits(id), 32) > u128::MAX {
                Err(DecodeError::Base32ValueOutOfRange)
            } else {
                Ok(value_bytes(numeral_value(crockford_digits(id), 32)))
            },
        }
    }
}

proof fn lemma_powers()
    ensures
        power(256, 16) == u128::MAX + 1,
        power(32, 25) * 8 == u128::MAX + 1,
        power(32, 26) == power(32, 25) * 32,
{
    reveal_with_fuel(power, 27);
    assert(power(256, 16) == 0x1_0000_0000_0000_0000_0000_0000_0000_0000nat);
    assert(power(32, 25) == 0x2000_0000_0000_0000_0000_0000_0000_0000nat);
}

/// The text of sixteen bytes. It has 26 characters of the alphabet, the first no higher than seven,
/// and the bytes read back from it.
pub fn encode_crockford_base32(packed: &[u8; PACKED_LEN]) -> (id: String)
    ensures
        id@ == crockford_text(packed@),
        id@.len() == 26,
        forall|i: int| 0 <= i < 26 ==> crockford_alphabet().contains(#[trigger] id@[i]),
        '0' as nat <= id@[0] as nat <= '7' as nat,
        crockford_bytes(id@) == Ok::<Seq<u8>, DecodeError>(packed@),
{
    let mut value: u128 = 0;
    let mut i: usize = 0;
    proof {
        reveal_with_fuel(power, 1);
    }
    while i < PACKED_LEN
        invariant
            i <= PACKED_LEN,
            value == numeral_value(byte_digits(packed@).take(i as int), 256),
            value < power(256, i as nat),
        decreases PACKED_LEN - i,
    {
        let ghost digits = byte_digits(packed@);
        proof {
            lemma_powers();
            lemma_power_monotone(256, (i + 1) as nat, 16);
            assert(digits.take(i + 1).drop_last() =~= digits.take(i as int));
            assert(power(256, (i + 1) as nat) == 256 * power(256, i as nat));
        }
        value = value * 256 + packed[i] as u128;
        i = i + 1;
    }
    assert(byte_digits(packed@).take(16) =~= byte_digits(packed@));
    proof {
        lemma_alphabet();
    }
    let ghost whole = value as nat;
    let mut reversed: Vec<char> = Vec::new();
    let ghost mut shifted: nat = whole;
    let mut n: usize = 0;
    while n < ID_LEN
        invariant
            n <= ID_LEN,
            reversed.len() == n,
            crockford_alphabet().len() == 32,
            forall|k: int|
                0 <= k < n ==> reversed@[k] == crockford_alphabet()[#[trigger] numeral(
                    whole,
                    32,
                    26,
                )[25 - k] as int],
            forall|k: int|
                0 <= k < 26 - n ==> #[trigger] numeral(whole, 32, 26)[k] == numeral(
                    value as nat,
                    32,
                    (26 - n) as nat,
                )[k],
        decreases ID_LEN - n,
    {
        proof {
            lemma_numeral_len(value as nat, 32, (26 - n) as nat);
            lemma_numeral_len(value as nat / 32, 32, (25 - n) as nat);
            assert(numeral(whole, 32, 26)[25 - n] == value as nat % 32);
        }
        reversed.push(CROCKFORD_ALPHABET.get_char((value % 32) as usize));
        value = value / 32;
        n = n + 1;
    }
    let mut id = String::new();
    let mut k: usize = ID_LEN;
    while k > 0
        invariant
            k <= ID_LEN,
            reversed.len() == ID_LEN,
            id@.len() == ID_LEN - k,
            forall|j: int| 0 <= j < ID_LEN - k ==> id@[j] == #[trigger] reversed@[25 - j],
        decreases k,
    {
        k = k - 1;
        id.push(reversed[k]);
    }
    assert forall|j: int| 0 <= j < 26 implies id@[j] == crockford_text(packed@)[j] by {
        assert(reversed@[25 - j] == crockford_alphabet()[numeral(whole, 32, 26)[25 - (25 - j)]
            as int]);
    }
    assert(id@ =~= crockford_text(packed@));
    proof {
        law_crockford_text_shape(packed@);
        law_crockford_text_reads_back(packed@);
    }
    id
}

fn crockford_value(ch: char) -> (r: Option<u8>)
    ensures
        match r {
            Some(digit) => crockford_alphabet().contains(ch) && digit
                == crockford_alphabet().index_of(ch) && digit < 32,
            None => !crockford_alphabet().contains(ch),
        },
{
    let alphabet = chars_of(CROCKFORD_ALPHABET);
    proof {
        lemma_alphabet();
    }
    let mut i: usize = 0;
    while i < alphabet.len()
        invariant
            alphabet@ == crockford_alphabet(),
            crockford_alphabet().len() == 32,
            crockford_alphabet().no_duplicates(),
            forall|k: int| 0 <= k < i ==> crockford_alphabet()[k] != ch,
        decreases alphabet.len() - i,
    {
        if alphabet[i] == ch {
            assert(crockford_alphabet()[i as int] == ch);
            assert(crockford_alphabet().contains(ch));
            return Some(i as u8);
        }
        i = i + 1;
    }
    None
}

proof fn lemma_first_disallowed_prefix(id: Seq<char>, n: int)
    requires
        0 <= n <= id.len(),
        first_disallowed(id.take(n)) is Some,
    ensures
        first_disallowed(id) == first_disallowed(id.take(n)),
    decreases id.len(),
{
    if n < id.len() {
        assert(id.drop_last().take(n) =~= id.take(n));
        lemma_first_disallowed_prefix(id.drop_last(), n);
    } else {
        assert(id.take(n) =~= id);
    }
}

proof fn lemma_first_disallowed_none(id: Seq<char>)
    ensures
        first_disallowed(id) is None <==> forall|i: int|
            0 <= i < id.len() ==> crockford_alphabet().contains(#[trigger] id[i]),
    decreases id.len(),
{
    if id.len() > 0 {
        let front = id.drop_last();
        lemma_first_disallowed_none(front);
        assert(forall|i: int| 0 <= i < front.len() ==> front[i] == id[i]);
        if first_disallowed(id) is None {
            assert forall|i: int| 0 <= i < id.len() implies crockford_alphabet().contains(
                #[trigger] id[i],
            ) by {
                if i < front.len() {
                    assert(crockford_alphabet().contains(front[i]));
                }
            }
        }
        if forall|i: int|
            0 <= i < id.len() ==> crockford_alphabet().contains(#[trigger] id[i]) {
            assert forall|i: int| 0 <= i < front.len() implies crockford_alphabet().contains(
                #[trigger] front[i],
            ) by {
                assert(crockford_alphabet().contains(id[i]));
            }
            assert(crockford_alphabet().contains(id[id.len() - 1]));
        }
    }
}

proof fn lemma_crockford_digits_small(id: Seq<char>)
    requires
        forall|i: int| 0 <= i < id.len() ==> crockford_alphabet().contains(#[trigger] id[i]),
    ensures
        forall|i: int| 0 <= i < id.len() ==> #[trigger] crockford_digits(id)[i] < 32,
        forall|i: int|
            0 <= i < id.len() ==> crockford_alphabet()[#[trigger] crockford_digits(id)[i] as int]
                == id[i],
{
    lemma_alphabet();
    assert forall|i: int| 0 <= i < id.len() implies 0 <= crockford_alphabet().index_of(
        #[trigger] id[i],
    ) < 32 && crockford_alphabet()[crockford_alphabet().index_of(id[i])] == id[i] by {
        assert(crockford_alphabet().contains(id[i]));
    }
}

/// The sixteen bytes that a text stands for.
pub fn decode_crockford_base32(id: &str) -> (r: Result<[u8; PACKED_LEN], DecodeError>)
    ensures
        match r {
            Ok(packed) => crockford_bytes(id@) == Ok::<Seq<u8>, DecodeError>(packed@),
            Err(e) => crockford_bytes(id@) == Err::<Seq<u8>, DecodeError>(e),
        },
{
    let chars = chars_of(id);
    let actual_len: usize = chars.len();
    if actual_len != ID_LEN {
        return Err(DecodeError::WrongLength { actual: actual_len });
    }
    let mut value: u128 = 0;
    let mut i: usize = 0;
    while i < ID_LEN
        invariant
            i <= ID_LEN,
            chars@ == id@,
            chars.len() == ID_LEN,
            forall|k: int| 0 <= k < i ==> crockford_alphabet().contains(#[trigger] id@[k]),
            value == numeral_value(crockford_digits(id@).take(i as int), 32),
        decreases ID_LEN - i,
    {
        let ghost digits = crockford_digits(id@);
        proof {
            assert(id@.take(i + 1).drop_last() =~= id@.take(i as int));
            lemma_first_disallowed_none(id@.take(i as int));
            assert(digits.take(i + 1).drop_last() =~= digits.take(i as int));
        }
        let digit: u8 = match crockford_value(chars[i]) {
            Some(digit) => digit,
            None => {
                proof {
                    lemma_first_disallowed_prefix(id@, i + 1);
                }
                return Err(DecodeError::DisallowedCrockfordCharacter { ch: chars[i] });
            },
        };
        if value > (u128::MAX - digit as u128) / 32 {
            proof {
                lemma_early_overflow(id@, i as int, value as nat, digit as nat);
            }
            return Err(DecodeError::Base32ValueOutOfRange);
        }
        value = value * 32 + digit as u128;
        i = i + 1;
    }
    assert(crockford_digits(id@).take(26) =~= crockford_digits(id@));
    proof {
        lemma_first_disallowed_none(id@);
        lemma_powers();
        lemma_numeral_roundtrip(value as nat, 256, 16);
    }
    let ghost whole = value as nat;
    let mut packed: [u8; PACKED_LEN] = [0; 16];
    let mut n: usize = 0;
    while n < PACKED_LEN
        invariant
            n <= PACKED_LEN,
            forall|k: int|
                0 <= k < n ==> packed@[15 - k] == #[trigger] numeral(whole, 256, 16)[15 - k],
            forall|k: int|
                0 <= k < 16 - n ==> #[trigger] numeral(whole, 256, 16)[k] == numeral(
                    value as nat,
                    256,
                    (16 - n) as nat,
                )[k],
        decreases PACKED_LEN - n,
    {
        proof {
            lemma_numeral_len(value as nat, 256, (16 - n) as nat);
            lemma_numeral_len(value as nat / 256, 256, (15 - n) as nat);
            assert(numeral(whole, 256, 16)[15 - n] == value as nat % 256);
        }
        packed[PACKED_LEN - 1 - n] = (value % 256) as u8;
        value = value / 256;
        n = n + 1;
    }
    assert forall|j: int| 0 <= j < 16 implies packed@[j] == value_bytes(whole)[j] by {
        assert(packed@[15 - (15 - j)] == numeral(whole, 256, 16)[15 - (15 - j)]);
    }
    assert(packed@ =~= value_bytes(whole));
    Ok(packed)
}

/// A partial value that no longer fits can only come at the last character, where nothing but the
/// overflow is left to report.
proof fn lemma_early_overflow(id: Seq<char>, i: int, value: nat, digit: nat)
    requires
        id.len() == 26,
        0 <= i < 26,
        forall|k: int| 0 <= k <= i ==> crockford_alphabet().contains(#[trigger] id[k]),
        value == numeral_value(crockford_digits(id).take(i), 32),
        digit == crockford_digits(id)[i],
        value * 32 + digit > u128::MAX,
    ensures
        crockford_bytes(id) == Err::<Seq<u8>, DecodeError>(DecodeError::Base32ValueOutOfRange),
{
    let prefix = id.take(i);
    let digits = crockford_digits(id);
    assert forall|k: int| 0 <= k < prefix.len() implies crockford_alphabet().contains(
        #[trigger] prefix[k],
    ) by {
        assert(crockford_alphabet().contains(id[k]));
    }
    lemma_crockford_digits_small(prefix);
    assert(crockford_digits(prefix) =~= digits.take(i));
    lemma_numeral_of_value(crockford_digits(prefix), 32);
    lemma_powers();
    if i < 25 {
        lemma_power_monotone(32, i as nat, 24);
        reveal_with_fuel(power, 3);
        assert(crockford_alphabet().contains(id[i]));
        lemma_alphabet();
        assert(digit < 32);
        assert(power(32, 25) == 32 * power(32, 24));
        assert(false);
    }
    assert forall|k: int| 0 <= k < id.len() implies crockford_alphabet().contains(
        #[trigger] id[k],
    ) by {}
    lemma_first_disallowed_none(id);
    assert(digits.drop_last() =~= digits.take(25));
}

// ---------------------------------------------------------------------------------------------
// Identifiers
// ---------------------------------------------------------------------------------------------

/// A value of 16 bits as two big-endian bytes.
pub open spec fn be16(value: nat) -> Seq<u8> {
    seq![(value / 256) as u8, (value % 256) as u8]
}

/// A value of 32 bits as four big-endian bytes.
pub open spec fn be32(value: nat) -> Seq<u8> {
    be16(value / 65536) + be16(value % 65536)
}

/// The number that two big-endian bytes stand for.
pub open spec fn from_be16(bytes: Seq<u8>) -> nat {
    (bytes[0] as nat) * 256 + bytes[1] as nat
}

/// The 16 bytes of an identifier: version, site, environment, seconds since the custom epoch,
/// broker slot, random bytes.
pub open spec fn packed_id(
    site: Seq<char>,
    env: Seq<char>,
    secs: nat,
    broker_slot: nat,
    random: Seq<u8>,
) -> Seq<u8> {
    seq![ID_VERSION] + be16(packed_tag(site)) + be16(packed_tag(env)) + be32(secs) + be16(
        broker_slot,
    ) + random
}

/// What [`encode_with_fixed_random`] returns: the first of a bad site, a bad environment and a
/// bad timestamp, or else the identifier.
pub open spec fn encode_result(
    site: Seq<char>,
    env: Seq<char>,
    broker_slot: u16,
    timestamp: Timestamp,
    random: Seq<u8>,
    r: Result<String, EncodeError>,
) -> bool {
    let secs = timestamp.secs - CUSTOM_EPOCH_SECS;
    if !valid_tag(site) {
        r is Err && pack_tag_result(site, Err(r->Err_0))
    } else if !valid_tag(env) {
        r is Err && pack_tag_result(env, Err(r->Err_0))
    } else if secs < 0 {
        r == Err::<String, EncodeError>(EncodeError::TimestampBeforeCustomEpoch)
    } else if secs > u32::MAX {
        r == Err::<String, EncodeError>(EncodeError::TimestampTooLarge)
    } else {
        r is Ok && r->Ok_0@ == crockford_text(
            packed_id(site, env, secs as nat, broker_slot as nat, random),
        )
    }
}

/// The fields of an identifier, or why the text is none.
pub open spec fn decoded_id(id: Seq<char>) -> Result<IdFields, DecodeError> {
    match crockford_bytes(id) {
        Err(e) => Err(e),
        Ok(bytes) => {
            if bytes[0] != ID_VERSION {
                Err(DecodeError::UnknownVersion { version: bytes[0] })
            } else {
                match (
                    unpacked_tag(from_be16(bytes.subrange(1, 3))),
                    unpacked_tag(from_be16(bytes.subrange(3, 5))),
                ) {
                    (Err(e), _) => Err(e),
                    (_, Err(e)) => Err(e),
                    (Ok(site), Ok(env)) => Ok(
                        IdFields {
                            version: bytes[0],
                            site,
                            env,
                            timestamp: Timestamp {
                                secs: (CUSTOM_EPOCH_SECS + from_be16(bytes.subrange(5, 7)) * 65536
                                    + from_be16(bytes.subrange(7, 9))) as i64,
                                nanos: 0,
                            },
                            broker_slot: from_be16(bytes.subrange(9, 11)) as u16,
                            random: bytes.subrange(11, 16),
                        },
                    ),
                }
            }
        },
    }
}

/// Calls `rand::rngs::OsRng::fill_bytes` on five bytes. Nothing is said of what it fills in.
#[verifier::external_body]
fn random_bytes() -> (random: [u8; 5])
{
    let mut random = [0; 5];
    rand::RngCore::fill_bytes(&mut rand::rngs::OsRng, &mut random);
    random
}

fn custom_epoch() -> (epoch: Timestamp)
    ensures
        epoch == (Timestamp { secs: CUSTOM_EPOCH_SECS, nanos: 0 }),
{
    parse_rfc3339(CUSTOM_EPOCH).unwrap()
}

fn timestamp_seconds(timestamp: Timestamp) -> (r: Result<u32, EncodeError>)
    ensures
        match r {
            Ok(secs) => secs == timestamp.secs - CUSTOM_EPOCH_SECS,
            Err(EncodeError::TimestampBeforeCustomEpoch) => timestamp.secs < CUSTOM_EPOCH_SECS,
            Err(EncodeError::TimestampTooLarge) => timestamp.secs - CUSTOM_EPOCH_SECS > u32::MAX,
            Err(_) => false,
        },
{
    let epoch = custom_epoch();
    if timestamp.secs < epoch.secs {
        return Err(EncodeError::TimestampBeforeCustomEpoch);
    }
    let seconds: i64 = timestamp.secs - epoch.secs;
    if seconds > u32::MAX as i64 {
        return Err(EncodeError::TimestampTooLarge);
    }
    Ok(seconds as u32)
}

/// Makes a fresh identifier with random bytes from the operating system.
pub fn encode(site: &str, env: &str, broker_slot: u16, timestamp: Timestamp) -> (r: Result<
    String,
    EncodeError,
>)
    ensures
        exists|random: Seq<u8>|
            random.len() == 5 && #[trigger] encode_result(
                site@,
                env@,
                broker_slot,
                timestamp,
                random,
                r,
            ),
{
    let random = random_bytes();
    let r = encode_with_fixed_random(site, env, broker_slot, timestamp, random);
    assert(random@.len() == 5);
    r
}

/// Makes the identifier that carries the given random bytes.
pub fn encode_with_fixed_random(
    site: &str,
    env: &str,
    broker_slot: u16,
    timestamp: Timestamp,
    random: [u8; 5],
) -> (r: Result<String, EncodeError>)
    ensures
        encode_result(site@, env@, broker_slot, timestamp, random@, r),
{
    let site_packed: u16 = match pack_tag(site) {
        Ok(packed) => packed,
        Err(e) => {
            return Err(e);
        },
    };
    let env_packed: u16 = match pack_tag(env) {
        Ok(packed) => packed,
        Err(e) => {
            return Err(e);
        },
    };
    let secs: u32 = match timestamp_seconds(timestamp) {
        Ok(secs) => secs,
        Err(e) => {
            return Err(e);
        },
    };
    let packed: [u8; PACKED_LEN] = [
        ID_VERSION,
        (site_packed / 256) as u8,
        (site_packed % 256) as u8,
        (env_packed / 256) as u8,
        (env_packed % 256) as u8,
        (secs / 65536 / 256) as u8,
        (secs / 65536 % 256) as u8,
        (secs % 65536 / 256) as u8,
        (secs % 65536 % 256) as u8,
        (broker_slot / 256) as u8,
        (broker_slot % 256) as u8,
        random[0],
        random[1],
        random[2],
        random[3],
        random[4],
    ];
    assert(packed@ =~= packed_id(site@, env@, secs as nat, broker_slot as nat, random@));
    Ok(encode_crockford_base32(&packed))
}

/// Reads an identifier back into its fields.
pub fn decode(id: &str) -> (r: Result<DecodedId, DecodeError>)
    ensures
        match r {
            Ok(decoded) => decoded_id(id@) == Ok::<IdFields, DecodeError>(decoded@),
            Err(e) => decoded_id(id@) == Err::<IdFields, DecodeError>(e),
        },
{
    let packed = match decode_crockford_base32(id) {
        Ok(packed) => packed,
        Err(e) => {
            return Err(e);
        },
    };
    let version: u8 = packed[0];
    if version != ID_VERSION {
        return Err(DecodeError::UnknownVersion { version });
    }
    let site_packed: u16 = packed[1] as u16 * 256 + packed[2] as u16;
    let env_packed: u16 = packed[3] as u16 * 256 + packed[4] as u16;
    let timestamp_sec: u32 = (packed[5] as u32 * 256 + packed[6] as u32) * 65536 + (packed[7] as u32
        * 256 + packed[8] as u32);
    let broker_slot: u16 = packed[9] as u16 * 256 + packed[10] as u16;
    let random: [u8; 5] = [packed[11], packed[12], packed[13], packed[14], packed[15]];
    assert(random@ =~= packed@.subrange(11, 16));
    let site = match unpack_tag(site_packed) {
        Ok(site) => site,
        Err(e) => {
            return Err(e);
        },
    };
    let env = match unpack_tag(env_packed) {
        Ok(env) => env,
        Err(e) => {
            return Err(e);
        },
    };
    let epoch = custom_epoch();
    Ok(
        DecodedId {
            version,
            site,
            env,
            timestamp: Timestamp { secs: epoch.secs + timestamp_sec as i64, nanos: 0 },
            broker_slot,
            random,
        },
    )
}

proof fn lemma_be16(pair: Seq<u8>)
    requires
        pair.len() == 2,
    ensures
        from_be16(pair) < 65536,
        be16(from_be16(pair)) == pair,
{
    assert(be16(from_be16(pair)) =~= pair);
}

/// Sixteen bytes come back from their text.
pub proof fn law_crockford_text_reads_back(bytes: Seq<u8>)
    requires
        bytes.len() == 16,
    ensures
        crockford_bytes(crockford_text(bytes)) == Ok::<Seq<u8>, DecodeError>(bytes),
{
    let id = crockford_text(bytes);
    let value = numeral_value(byte_digits(bytes), 256);
    let digits = numeral(value, 32, 26);
    lemma_alphabet();
    lemma_powers();
    lemma_numeral_of_value(byte_digits(bytes), 256);
    lemma_numeral_roundtrip(value, 32, 26);
    assert forall|i: int| 0 <= i < 26 implies crockford_alphabet().contains(#[trigger] id[i])
        && crockford_digits(id)[i] == digits[i] by {
        assert(id[i] == crockford_alphabet()[digits[i] as int]);
    }
    assert(crockford_digits(id) =~= digits);
    lemma_first_disallowed_none(id);
    assert(byte_digits(bytes) =~= numeral(value, 256, 16));
    assert(value_bytes(value) =~= bytes);
}

/// The text of sixteen bytes has 26 characters, all from the alphabet, the first of them no higher
/// than seven.
pub proof fn law_crockford_text_shape(bytes: Seq<u8>)
    requires
        bytes.len() == 16,
    ensures
        crockford_text(bytes).len() == 26,
        forall|i: int|
            0 <= i < 26 ==> crockford_alphabet().contains(#[trigger] crockford_text(bytes)[i]),
        '0' as nat <= crockford_text(bytes)[0] as nat <= '7' as nat,
{
    let value = numeral_value(byte_digits(bytes), 256);
    let digits = numeral(value, 32, 26);
    lemma_alphabet();
    lemma_powers();
    lemma_numeral_of_value(byte_digits(bytes), 256);
    lemma_numeral_roundtrip(value, 32, 26);
    lemma_leading_digit(digits, 32);
    let first = digits[0];
    let rest = power(32, 25);
    assert(first <= 7) by (nonlinear_arith)
        requires
            first * rest < rest * 8,
    ;
    assert forall|i: int| 0 <= i < 26 implies crockford_alphabet().contains(
        #[trigger] crockford_text(bytes)[i],
    ) by {
        assert(crockford_text(bytes)[i] == crockford_alphabet()[digits[i] as int]);
    }
}

/// The code points of a text.
pub open spec fn code_points(text: Seq<char>) -> Seq<nat> {
    Seq::new(text.len(), |i: int| text[i] as nat)
}

/// The texts of bytes stand in the order of the bytes: identifiers sort as what they pack does.
pub proof fn law_text_order_follows_byte_order(a: Seq<u8>, b: Seq<u8>)
    requires
        a.len() == 16,
        b.len() == 16,
    ensures
        comes_before(code_points(crockford_text(a)), code_points(crockford_text(b)))
            <==> comes_before(byte_digits(a), byte_digits(b)),
{
    let va = numeral_value(byte_digits(a), 256);
    let vb = numeral_value(byte_digits(b), 256);
    let da = numeral(va, 32, 26);
    let db = numeral(vb, 32, 26);
    let ta = code_points(crockford_text(a));
    let tb = code_points(crockford_text(b));
    lemma_alphabet();
    lemma_powers();
    lemma_numeral_of_value(byte_digits(a), 256);
    lemma_numeral_of_value(byte_digits(b), 256);
    lemma_numeral_roundtrip(va, 32, 26);
    lemma_numeral_roundtrip(vb, 32, 26);
    lemma_numeral_order(byte_digits(a), byte_digits(b), 256);
    lemma_numeral_order(da, db, 32);
    assert forall|i: int| 0 <= i < 26 implies {
        &&& da[i] < 32 && db[i] < 32
        &&& (#[trigger] ta[i] < tb[i] <==> da[i] < db[i])
        &&& (ta[i] == tb[i] <==> da[i] == db[i])
    } by {
        let p = da[i] as int;
        let q = db[i] as int;
        assert(ta[i] == crockford_alphabet()[p] as nat);
        assert(tb[i] == crockford_alphabet()[q] as nat);
    }
    if comes_before(da, db) {
        let k = choose|k: int| #[trigger] drops_below_at(da, db, k);
        assert(ta[k] < tb[k]);
        assert forall|m: int| 0 <= m < k implies #[trigger] ta[m] == tb[m] by {
            assert(da[m] == db[m]);
        }
        assert(drops_below_at(ta, tb, k));
    }
    if comes_before(ta, tb) {
        let k = choose|k: int| #[trigger] drops_below_at(ta, tb, k);
        assert(da[k] < db[k]);
        assert forall|m: int| 0 <= m < k implies #[trigger] da[m] == db[m] by {
            assert(ta[m] == tb[m]);
        }
        assert(drops_below_at(da, db, k));
    }
}

proof fn lemma_crockford_canonical(id: Seq<char>)
    requires
        crockford_bytes(id) is Ok,
    ensures
        crockford_bytes(id)->Ok_0.len() == 16,
        crockford_text(crockford_bytes(id)->Ok_0) == id,
{
    let value = numeral_value(crockford_digits(id), 32);
    let bytes = value_bytes(value);
    lemma_first_disallowed_none(id);
    lemma_crockford_digits_small(id);
    lemma_powers();
    lemma_numeral_roundtrip(value, 256, 16);
    assert(byte_digits(bytes) =~= numeral(value, 256, 16));
    lemma_numeral_of_value(crockford_digits(id), 32);
    assert(crockford_text(bytes) =~= id);
}

/// Decoding an identifier gives back the site, the environment, the second, the slot and the
/// random bytes that it was made from.
pub proof fn law_decode_inverts_encode(
    site: Seq<char>,
    env: Seq<char>,
    secs: u32,
    broker_slot: u16,
    random: Seq<u8>,
)
    requires
        valid_tag(site),
        valid_tag(env),
        random.len() == 5,
    ensures
        decoded_id(
            crockford_text(packed_id(site, env, secs as nat, broker_slot as nat, random)),
        ) == Ok::<IdFields, DecodeError>(
            IdFields {
                version: ID_VERSION,
                site,
                env,
                timestamp: Timestamp { secs: (CUSTOM_EPOCH_SECS + secs) as i64, nanos: 0 },
                broker_slot,
                random,
            },
        ),
{
    let bytes = packed_id(site, env, secs as nat, broker_slot as nat, random);
    law_crockford_text_reads_back(bytes);
    law_unpack_inverts_pack(site);
    law_unpack_inverts_pack(env);
    assert(bytes.subrange(1, 3) =~= be16(packed_tag(site)));
    assert(bytes.subrange(3, 5) =~= be16(packed_tag(env)));
    assert(bytes.subrange(5, 7) =~= be16(secs as nat / 65536));
    assert(bytes.subrange(7, 9) =~= be16(secs as nat % 65536));
    assert(bytes.subrange(9, 11) =~= be16(broker_slot as nat));
    assert(bytes.subrange(11, 16) =~= random);
    assert(bytes[0] == ID_VERSION);
}

/// Bytes are put together again from the numbers that their parts stand for.
proof fn lemma_repacked(bytes: Seq<u8>, site: Seq<char>, env: Seq<char>, secs: nat)
    requires
        bytes.len() == 16,
        bytes[0] == ID_VERSION,
        packed_tag(site) == from_be16(bytes.subrange(1, 3)),
        packed_tag(env) == from_be16(bytes.subrange(3, 5)),
        secs == from_be16(bytes.subrange(5, 7)) * 65536 + from_be16(bytes.subrange(7, 9)),
    ensures
        secs <= u32::MAX,
        from_be16(bytes.subrange(9, 11)) <= u16::MAX,
        packed_id(
            site,
            env,
            secs,
            from_be16(bytes.subrange(9, 11)),
            bytes.subrange(11, 16),
        ) == bytes,
{
    lemma_be16(bytes.subrange(1, 3));
    lemma_be16(bytes.subrange(3, 5));
    lemma_be16(bytes.subrange(5, 7));
    lemma_be16(bytes.subrange(7, 9));
    lemma_be16(bytes.subrange(9, 11));
    let hi = from_be16(bytes.subrange(5, 7));
    let lo = from_be16(bytes.subrange(7, 9));
    assert(secs / 65536 == hi && secs % 65536 == lo);
    assert(be32(secs) == bytes.subrange(5, 7) + bytes.subrange(7, 9));
    let parts = seq![ID_VERSION] + bytes.subrange(1, 3) + bytes.subrange(3, 5) + (bytes.subrange(
        5,
        7,
    ) + bytes.subrange(7, 9)) + bytes.subrange(9, 11) + bytes.subrange(11, 16);
    assert(parts =~= bytes);
}

/// Every text that decodes is the one identifier of its fields: encoding them gives the text back.
#[verifier::spinoff_prover]
pub proof fn law_encode_inverts_decode(id: Seq<char>)
    requires
        decoded_id(id) is Ok,
    ensures
        ({
            let d = decoded_id(id)->Ok_0;
            let secs = d.timestamp.secs - CUSTOM_EPOCH_SECS;
            &&& d.version == ID_VERSION
            &&& valid_tag(d.site)
            &&& valid_tag(d.env)
            &&& 0 <= secs <= u32::MAX
            &&& d.random.len() == 5
            &&& crockford_text(
                packed_id(d.site, d.env, secs as nat, d.broker_slot as nat, d.random),
            ) == id
        }),
{
    let d = decoded_id(id)->Ok_0;
    let bytes = crockford_bytes(id)->Ok_0;
    lemma_crockford_canonical(id);
    law_pack_inverts_unpack(from_be16(bytes.subrange(1, 3)));
    law_pack_inverts_unpack(from_be16(bytes.subrange(3, 5)));
    let secs = from_be16(bytes.subrange(5, 7)) * 65536 + from_be16(bytes.subrange(7, 9));
    lemma_repacked(bytes, d.site, d.env, secs);
    assert(d.timestamp.secs - CUSTOM_EPOCH_SECS == secs);
}

// ---------------------------------------------------------------------------------------------
// Messages
// ---------------------------------------------------------------------------------------------

/// A character as `std` prints it for debugging, quoted and escaped.
pub uninterp spec fn char_debug(ch: char) -> Seq<char>;

/// Prints a character with `format!` in its debug form.
#[verifier::external_body]
fn format_char_debug(ch: char) -> (text: String)
    ensures
        text@ == char_debug(ch),
{
    format!("{ch:?}")
}

pub open spec fn decode_error_text(e: DecodeError) -> Seq<char> {
    match e {
        DecodeError::WrongLength { actual } => {
            "request ID must be exactly 26 characters, got "@ + decimal_text(actual as nat)
        },
        DecodeError::DisallowedCrockfordCharacter { ch } => {
            "request ID contains disallowed Crockford base32 character "@ + char_debug(ch)
        },
        DecodeError::Base32ValueOutOfRange => {
            "request ID base32 value does not fit in 16 bytes"@
        },
        DecodeError::UnknownVersion { version } => "unknown request ID version byte "@
            + decimal_text(version as nat),
        DecodeError::TagPackedValueOutOfRange { value } => "packed tag value "@ + decimal_text(
            value as nat,
        ) + " is outside the base37 range"@,
        DecodeError::EmptyTag => "packed tag decodes to an empty tag"@,
        DecodeError::EmbeddedSentinel => {
            "packed tag contains non-sentinel characters after a sentinel"@
        },
    }
}

pub open spec fn encode_error_text(e: EncodeError) -> Seq<char> {
    match e {
        EncodeError::EmptyTag => "tag must not be empty"@,
        EncodeError::TagTooLong { actual } => "tag must be at most 3 characters, got "@
            + decimal_text(actual as nat),
        EncodeError::InvalidTagCharacter { ch } => "tag contains invalid character "@ + char_debug(
            ch,
        ),
        EncodeError::TimestampBeforeCustomEpoch => "timestamp is before the custom epoch"@,
        EncodeError::TimestampTooLarge => {
            "timestamp exceeds the u32 seconds-since-epoch ceiling"@
        },
    }
}

impl DecodeError {
    /// The error in words.
    pub fn to_text(&self) -> (r: String)
        ensures
            r@ == decode_error_text(*self),
    {
        match *self {
            DecodeError::WrongLength { actual } => cat2(
                "request ID must be exactly 26 characters, got ",
                &decimal(actual as u64),
            ),
            DecodeError::DisallowedCrockfordCharacter { ch } => cat2(
                "request ID contains disallowed Crockford base32 character ",
                &format_char_debug(ch),
            ),
            DecodeError::Base32ValueOutOfRange => {
                "request ID base32 value does not fit in 16 bytes".to_owned()
            },
            DecodeError::UnknownVersion { version } => cat2(
                "unknown request ID version byte ",
                &decimal(version as u64),
            ),
            DecodeError::TagPackedValueOutOfRange { value } => cat3(
                "packed tag value ",
                &decimal(value as u64),
                " is outside the base37 range",
            ),
            DecodeError::EmptyTag => "packed tag decodes to an empty tag".to_owned(),
            DecodeError::EmbeddedSentinel => {
                "packed tag contains non-sentinel characters after a sentinel".to_owned()
            },
        }
    }
}

impl EncodeError {
    /// The error in words.
    pub fn to_text(&self) -> (r: String)
        ensures
            r@ == encode_error_text(*self),
    {
        match *self {
            EncodeError::EmptyTag => "tag must not be empty".to_owned(),
            EncodeError::TagTooLong { actual } => cat2(
                "tag must be at most 3 characters, got ",
                &decimal(actual as u64),
            ),
            EncodeError::InvalidTagCharacter { ch } => cat2(
                "tag contains invalid character ",
                &format_char_debug(ch),
            ),
            EncodeError::TimestampBeforeCustomEpoch => {
                "timestamp is before the custom epoch".to_owned()
            },
            EncodeError::TimestampTooLarge => {
                "timestamp exceeds the u32 seconds-since-epoch ceiling".to_owned()
            },
        }
    }
}

/// The first character that the alphabet lacks is the one that is named, and none is where the
/// alphabet has them all.
pub proof fn law_first_foreign_character_is_named(id: Seq<char>, i: int)
    ensures
        first_disallowed(id) is None <==> forall|k: int|
            0 <= k < id.len() ==> crockford_alphabet().contains(#[trigger] id[k]),
        0 <= i < id.len() && !crockford_alphabet().contains(id[i]) && (forall|k: int|
            0 <= k < i ==> crockford_alphabet().contains(#[trigger] id[k])) ==> first_disallowed(id)
            == Some(id[i]),
    decreases id.len(),
{
    if id.len() > 0 {
        let front = id.drop_last();
        law_first_foreign_character_is_named(front, i);
        assert forall|k: int| 0 <= k < front.len() implies #[trigger] front[k] == id[k] by {
        }
        if first_disallowed(id) is None {
            assert forall|k: int| 0 <= k < id.len() implies crockford_alphabet().contains(
                #[trigger] id[k],
            ) by {
                if k < front.len() {
                    assert(front[k] == id[k]);
                }
            }
        }
        if forall|k: int| 0 <= k < id.len() ==> crockford_alphabet().contains(#[trigger] id[k]) {
            assert forall|k: int| 0 <= k < front.len() implies crockford_alphabet().contains(
                #[trigger] front[k],
            ) by {
                assert(crockford_alphabet().contains(id[k]));
            }
            assert(crockford_alphabet().contains(id[id.len() - 1]));
        }
        if 0 <= i < id.len() && !crockford_alphabet().contains(id[i]) && (forall|k: int|
            0 <= k < i ==> crockford_alphabet().contains(#[trigger] id[k])) {
            assert forall|k: int| 0 <= k < i && k < front.len() implies crockford_alphabet().contains(
                #[trigger] front[k],
            ) by {
                assert(crockford_alphabet().contains(id[k]));
            }
            if i < front.len() {
                assert(front[i] == id[i]);
            }
        }
    }
}

/// A tag is packed exactly where it has one to three digits or small letters. The empty tag, a
/// longer one and the first other character are each named.
pub proof fn law_tags_are_refused_for_a_reason(tag: Seq<char>, i: int, r: Result<u16, EncodeError>)
    requires
        pack_tag_result(tag, r),
    ensures
        r is Ok <==> 1 <= tag.len() <= 3 && forall|k: int|
            0 <= k < tag.len() ==> ('0' <= #[trigger] tag[k] <= '9' || 'a' <= tag[k] <= 'z'),
        tag.len() == 0 ==> r == Err::<u16, EncodeError>(EncodeError::EmptyTag),
        tag.len() > 3 ==> (r matches Err(EncodeError::TagTooLong { actual }) && actual
            == tag.len()),
        tag.len() <= 3 && 0 <= i < tag.len() && !('0' <= tag[i] <= '9' || 'a' <= tag[i] <= 'z') && (
        forall|k: int| 0 <= k < i ==> ('0' <= #[trigger] tag[k] <= '9' || 'a' <= tag[k] <= 'z'))
            ==> (r matches Err(EncodeError::InvalidTagCharacter { ch }) && ch == tag[i]),
{
    assert forall|k: int| 0 <= k < tag.len() implies is_tag_char(#[trigger] tag[k]) == ('0'
        <= tag[k] <= '9' || 'a' <= tag[k] <= 'z') by {
    }
    if r matches Err(EncodeError::InvalidTagCharacter { ch }) {
        let j = choose|j: int|
            #![trigger tag[j]]
            {
                &&& 0 <= j < tag.len()
                &&& tag[j] == r->Err_0->ch
                &&& !is_tag_char(r->Err_0->ch)
                &&& forall|k: int| 0 <= k < j ==> is_tag_char(#[trigger] tag[k])
            };
        assert(!is_tag_char(tag[j]));
    }
}

} // verus!
