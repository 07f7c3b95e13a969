//! Decoding `Transfer(address,address,uint256)` logs.
//!
//! The sender and receiver are the second and third topics, each a 32-byte
//! word holding the address in its low 20 bytes; the amount is the log's
//! data read as a big-endian unsigned integer.
use vstd::prelude::*;
use ethers::types::U256;
use crate::amount::{int_text, lemma_text_round_trip, nat_text, Amount};

verus! {

/// The value of bytes read as a big-endian unsigned integer.
pub open spec fn be_value(bytes: Seq<u8>) -> nat
    decreases bytes.len(),
{
    if bytes.len() == 0 {
        0
    } else {
        be_value(bytes.drop_last()) * 256 + bytes.last() as nat
    }
}

/// The upper-case hexadecimal digit of `v`.
pub open spec fn upper_hex_char(v: int) -> char {
    if v < 10 {
        crate::amount::digit_char(v)
    } else if v == 10 {
        'A'
    } else if v == 11 {
        'B'
    } else if v == 12 {
        'C'
    } else if v == 13 {
        'D'
    } else if v == 14 {
        'E'
    } else {
        'F'
    }
}

/// Two upper-case hexadecimal digits per byte, high nibble first.
pub open spec fn hex_upper_text(bytes: Seq<u8>) -> Seq<char> {
    Seq::new(
        2 * bytes.len(),
        |i: int|
            upper_hex_char(
                if i % 2 == 0 {
                    bytes[i / 2] as int / 16
                } else {
                    bytes[i / 2] as int % 16
                },
            ),
    )
}

/// The address held in the low 20 bytes of a 32-byte topic.
pub open spec fn topic_address(topic: Seq<u8>) -> Seq<u8> {
    topic.subrange(12, 32)
}

/// Relies on ethers' `U256::from_big_endian` (uint 0.9), which reads at most
/// 32 bytes as a big-endian number and asserts on more, and on `U256`'s
/// `Display`, which writes the number's decimal digits without leading zeros.
#[verifier::external_body]
fn decimal_of_big_endian(data: &[u8]) -> (r: String)
    requires
        data@.len() <= 32,
    ensures
        r@ == nat_text(be_value(data@)),
{
    U256::from_big_endian(data).to_string()
}

/// Relies on `ethers::utils::hex::encode_upper` (const-hex), which writes each
/// byte as two upper-case hexadecimal digits, high nibble first.
#[verifier::external_body]
fn hex_upper(bytes: &[u8]) -> (r: String)
    ensures
        r@ == hex_upper_text(bytes@),
{
    ethers::utils::hex::encode_upper(bytes)
}

#[derive(Clone, Copy, Debug, PartialEq, Eq, Structural)]
pub enum LogError {
    /// Fewer than three topics: no sender or no receiver.
    MissingTopics,
    /// A sender or receiver topic that is not 32 bytes.
    BadTopic,
    /// An amount wider than 256 bits.
    AmountTooWide,
}

/// A decoded transfer: addresses as 40 upper-case hexadecimal digits.
#[derive(Debug)]
pub struct Transfer {
    pub from: String,
    pub to: String,
    pub amount: Amount,
}

pub struct TransferView {
    pub from: Seq<char>,
    pub to: Seq<char>,
    pub amount: int,
}

impl View for Transfer {
    type V = TransferView;

    open spec fn view(&self) -> TransferView {
        TransferView { from: self.from@, to: self.to@, amount: self.amount@ }
    }
}

/// When a log can be decoded as a transfer.
pub open spec fn is_transfer_log(topics: Seq<Vec<u8>>, data: Seq<u8>) -> bool {
    &&& topics.len() >= 3
    &&& topics[1]@.len() == 32
    &&& topics[2]@.len() == 32
    &&& data.len() <= 32
}

/// The bytes `from..to` of `v`.
fn slice_copy(v: &Vec<u8>, from: usize, to: usize) -> (r: Vec<u8>)
    requires
        from <= to <= v@.len(),
    ensures
        r@ == v@.subrange(from as int, to as int),
{
    let mut r: Vec<u8> = Vec::new();
    let mut i: usize = from;
    while i < to
        invariant
            from <= i <= to,
            to <= v@.len(),
            r@ == v@.subrange(from as int, i as int),
        decreases to - i,
    {
        r.push(v[i]);
        proof {
            assert(v@.subrange(from as int, i + 1) =~= v@.subrange(from as int, i as int).push(v@[i as int]));
        }
        i = i + 1;
    }
    r
}

/// Decodes the topics and data of a transfer log.
pub fn decode_transfer(topics: &Vec<Vec<u8>>, data: &Vec<u8>) -> (r: Result<Transfer, LogError>)
    ensures
        topics@.len() < 3 ==> r == Err::<Transfer, LogError>(LogError::MissingTopics),
        topics@.len() >= 3 && (topics@[1]@.len() != 32 || topics@[2]@.len() != 32) ==> r == Err::<
            Transfer,
            LogError,
        >(LogError::BadTopic),
        topics@.len() >= 3 && topics@[1]@.len() == 32 && topics@[2]@.len() == 32 && data@.len() > 32
            ==> r == Err::<Transfer, LogError>(LogError::AmountTooWide),
        r is Ok <==> is_transfer_log(topics@, data@),
        r matches Ok(t) ==> {
            &&& t.from@ == hex_upper_text(topic_address(topics@[1]@))
            &&& t.to@ == hex_upper_text(topic_address(topics@[2]@))
            &&& t.amount@ == be_value(data@)
        },
{
    if topics.len() < 3 {
        return Err(LogError::MissingTopics);
    }
    if topics[1].len() != 32 || topics[2].len() != 32 {
        return Err(LogError::BadTopic);
    }
    if data.len() > 32 {
        return Err(LogError::AmountTooWide);
    }
    let from_bytes = slice_copy(&topics[1], 12, 32);
    let to_bytes = slice_copy(&topics[2], 12, 32);
    let from = hex_upper(from_bytes.as_slice());
    let to = hex_upper(to_bytes.as_slice());
    let text = decimal_of_big_endian(data.as_slice());
    proof {
        lemma_text_round_trip(be_value(data@) as int);
        assert(int_text(be_value(data@) as int) == nat_text(be_value(data@)));
    }
    // The decimal text of a number always reads back.
    let amount = Amount::parse(text.as_str()).unwrap();
    Ok(Transfer { from, to, amount })
}

impl Transfer {
    /// Whether sender and receiver are the same address.
    pub fn is_self_transfer(&self) -> (r: bool)
        ensures
            r == (self.from@ == self.to@),
    {
        self.from == self.to
    }
}

} // verus!
