//! The rebase events of the source chain and the bytes of their logs.
//!
//! A log is laid out as the emitter's address (20 bytes), then the indexed
//! region (the token's address, 20 bytes, and the epoch, one word), then the
//! data region (the remaining fields, one 32-byte word each, in schema order).
use vstd::prelude::*;
use vstd::slice::slice_subrange;
use crate::abi_word::{
    be_bytes, be_value, int_word, lemma_be_bytes_len, lemma_signed_word_round_trip,
    lemma_word_round_trip, signed_value, signed_word, uint_word, word_int, word_uint,
};
use crate::hex_text::{
    decode_hex, encode_hex, is_hex, is_hex_of, is_lower_digit, lemma_hex_of_unique, lemma_unhex_lower, unhex,
};

verus! {

/// Length in bytes of an address of the source chain.
pub const ADDRESS_LEN: usize = 20;

/// Length of the log of a simplified rebase: emitter, token, epoch, total supply.
pub const REBASED_LOG_LEN: usize = 104;

/// Length of the log of a detailed rebase: emitter, token, epoch, and four data words.
pub const DETAILED_LOG_LEN: usize = 200;

/// Why a request was turned down.
#[derive(Debug, Clone, Copy, PartialEq, Eq, Structural)]
pub enum RebaseError {
    /// The log bytes do not decode under either schema.
    MalformedLog,
    /// The caller is not the controller.
    Unauthorized,
    /// The operation is paused.
    Paused,
    /// The event's epoch is not newer than the last one applied.
    StaleEpoch,
    /// A new balance would not fit in 128 bits.
    ArithmeticOverflow,
}

/// A rebase that states the new total supply outright.
#[derive(Debug, Clone, PartialEq, Eq)]
pub struct EthRebasedEvent {
    pub rebaser_address: [u8; 20],
    /// The token's address as 40 lower-case hexadecimal digits.
    pub token: String,
    pub epoch: u128,
    pub total_supply: u128,
}

/// A rebase that states a signed adjustment of the supply, with the oracle's figures.
#[derive(Debug, Clone, PartialEq, Eq)]
pub struct EthDetailedRebaseEvent {
    pub rebaser_address: [u8; 20],
    /// The token's address as 40 lower-case hexadecimal digits.
    pub token: String,
    pub epoch: u128,
    pub exchange_rate: u128,
    pub consumer_price_index: u128,
    pub requested_adjustment: i128,
    pub timestamp: u128,
}

/// A decoded rebase log, of either schema.
#[derive(Debug, Clone, PartialEq, Eq)]
pub enum RebaseEvent {
    Detailed(EthDetailedRebaseEvent),
    Simplified(EthRebasedEvent),
}

/// The primitive type of a log field.
#[derive(Debug, Clone, Copy, PartialEq, Eq, Structural)]
pub enum FieldKind {
    /// A 20-byte address.
    Address,
    /// An unsigned integer of the given width in bits.
    Uint(u16),
    /// A signed integer of the given width in bits.
    Int(u16),
}

/// One field of an event's schema.
#[derive(Debug, Clone, PartialEq, Eq)]
pub struct FieldSpec {
    pub name: String,
    pub kind: FieldKind,
    /// Whether the field lies in the indexed region rather than the data region.
    pub indexed: bool,
}

/// Bytes that a field of this kind takes in a log.
pub open spec fn field_len(k: FieldKind) -> nat {
    match k {
        FieldKind::Address => ADDRESS_LEN as nat,
        _ => 32,
    }
}

/// Bytes that a log of this schema takes, the emitter's address included.
pub open spec fn schema_len(fields: Seq<FieldSpec>) -> nat
    decreases fields.len(),
{
    if fields.len() == 0 {
        ADDRESS_LEN as nat
    } else {
        schema_len(fields.drop_last()) + field_len(fields.last().kind)
    }
}

/// The indexed fields come first, as the layout places them.
pub open spec fn indexed_first(fields: Seq<FieldSpec>) -> bool {
    forall|i: int, j: int|
        0 <= i < j < fields.len() && #[trigger] fields[j].indexed ==> #[trigger] fields[i].indexed
}

fn field(name: &str, kind: FieldKind, indexed: bool) -> (r: FieldSpec)
    ensures
        r.name@ == name@,
        r.kind == kind,
        r.indexed == indexed,
{
    FieldSpec { name: name.to_owned(), kind, indexed }
}

/// The character of a decimal digit.
pub open spec fn digit_char(d: nat) -> char {
    seq!['0', '1', '2', '3', '4', '5', '6', '7', '8', '9'][d as int]
}

/// The decimal text of a number: its digits, most significant first, with no
/// sign and no leading zero.
pub open spec fn decimal(n: nat) -> Seq<char>
    decreases n,
{
    if n < 10 {
        seq![digit_char(n)]
    } else {
        decimal(n / 10) + seq![digit_char(n % 10)]
    }
}

/// Relies on `u128::to_string` (std's `Display` for integers): the decimal
/// digits, with no sign, padding or leading zero.
#[verifier::external_body]
fn decimal_text(x: u128) -> (r: String)
    ensures
        r@ == decimal(x as nat),
{
    x.to_string()
}

/// A token identifier that a log can carry: 40 hexadecimal digits of either case.
pub open spec fn token_ok(t: Seq<char>) -> bool {
    &&& t.len() == 2 * ADDRESS_LEN
    &&& is_hex(t)
}

/// A token identifier in the form that decoding gives: 40 lower-case digits.
pub open spec fn token_lower(t: Seq<char>) -> bool {
    &&& t.len() == 2 * ADDRESS_LEN
    &&& forall|i: int| 0 <= i < t.len() ==> #[trigger] is_lower_digit(t[i])
}

pub open spec fn word_at(b: Seq<u8>, k: int) -> Seq<u8> {
    b.subrange(k, k + 32)
}

/// The indexed region of a simplified rebase: token and epoch.
pub open spec fn rebased_indexed(e: EthRebasedEvent) -> Seq<u8> {
    unhex(e.token@) + be_bytes(e.epoch as nat, 32)
}

/// The data region of a simplified rebase: the total supply.
pub open spec fn rebased_data(e: EthRebasedEvent) -> Seq<u8> {
    be_bytes(e.total_supply as nat, 32)
}

pub open spec fn rebased_log(e: EthRebasedEvent) -> Seq<u8> {
    e.rebaser_address@ + rebased_indexed(e) + rebased_data(e)
}

/// The indexed region of a detailed rebase: token and epoch.
pub open spec fn detailed_indexed(e: EthDetailedRebaseEvent) -> Seq<u8> {
    unhex(e.token@) + be_bytes(e.epoch as nat, 32)
}

/// The data region of a detailed rebase: exchange rate, price index,
/// requested adjustment (two's complement) and timestamp.
pub open spec fn detailed_data(e: EthDetailedRebaseEvent) -> Seq<u8> {
    be_bytes(e.exchange_rate as nat, 32) + be_bytes(e.consumer_price_index as nat, 32)
        + signed_word(e.requested_adjustment) + be_bytes(e.timestamp as nat, 32)
}

pub open spec fn detailed_log(e: EthDetailedRebaseEvent) -> Seq<u8> {
    e.rebaser_address@ + detailed_indexed(e) + detailed_data(e)
}

/// Bytes that decode as a simplified rebase: the right length, and words that fit 128 bits.
pub open spec fn rebased_decodable(b: Seq<u8>) -> bool {
    &&& b.len() == REBASED_LOG_LEN
    &&& be_value(word_at(b, 40)) <= u128::MAX
    &&& be_value(word_at(b, 72)) <= u128::MAX
}

/// `e` is what the simplified-rebase log `b` holds.
pub open spec fn decodes_to_rebased(b: Seq<u8>, e: EthRebasedEvent) -> bool {
    &&& b.len() == REBASED_LOG_LEN
    &&& e.rebaser_address@ == b.subrange(0, 20)
    &&& is_hex_of(e.token@, b.subrange(20, 40))
    &&& e.epoch == be_value(word_at(b, 40))
    &&& e.total_supply == be_value(word_at(b, 72))
}

/// Bytes that decode as a detailed rebase.
pub open spec fn detailed_decodable(b: Seq<u8>) -> bool {
    &&& b.len() == DETAILED_LOG_LEN
    &&& be_value(word_at(b, 40)) <= u128::MAX
    &&& be_value(word_at(b, 72)) <= u128::MAX
    &&& be_value(word_at(b, 104)) <= u128::MAX
    &&& i128::MIN <= signed_value(word_at(b, 136)) <= i128::MAX
    &&& be_value(word_at(b, 168)) <= u128::MAX
}

/// `e` is what the detailed-rebase log `b` holds.
pub open spec fn decodes_to_detailed(b: Seq<u8>, e: EthDetailedRebaseEvent) -> bool {
    &&& b.len() == DETAILED_LOG_LEN
    &&& e.rebaser_address@ == b.subrange(0, 20)
    &&& is_hex_of(e.token@, b.subrange(20, 40))
    &&& e.epoch == be_value(word_at(b, 40))
    &&& e.exchange_rate == be_value(word_at(b, 72))
    &&& e.consumer_price_index == be_value(word_at(b, 104))
    &&& e.requested_adjustment == signed_value(word_at(b, 136))
    &&& e.timestamp == be_value(word_at(b, 168))
}

/// `e` is what the log `b` holds, the schema being chosen by the length of `b`.
pub open spec fn decodes_to(b: Seq<u8>, e: RebaseEvent) -> bool {
    match e {
        RebaseEvent::Simplified(s) => decodes_to_rebased(b, s),
        RebaseEvent::Detailed(d) => decodes_to_detailed(b, d),
    }
}

pub open spec fn decodable(b: Seq<u8>) -> bool {
    rebased_decodable(b) || detailed_decodable(b)
}

pub open spec fn same_rebased(a: EthRebasedEvent, b: EthRebasedEvent) -> bool {
    &&& a.rebaser_address@ == b.rebaser_address@
    &&& a.token@ == b.token@
    &&& a.epoch == b.epoch
    &&& a.total_supply == b.total_supply
}

pub open spec fn same_detailed(a: EthDetailedRebaseEvent, b: EthDetailedRebaseEvent) -> bool {
    &&& a.rebaser_address@ == b.rebaser_address@
    &&& a.token@ == b.token@
    &&& a.epoch == b.epoch
    &&& a.exchange_rate == b.exchange_rate
    &&& a.consumer_price_index == b.consumer_price_index
    &&& a.requested_adjustment == b.requested_adjustment
    &&& a.timestamp == b.timestamp
}


fn append_bytes(out: &mut Vec<u8>, b: &[u8])
    ensures
        final(out)@ == old(out)@ + b@,
{
    let mut i: usize = 0;
    while i < b.len()
        invariant
            i <= b@.len(),
            out@ =~= old(out)@ + b@.subrange(0, i as int),
        decreases b@.len() - i,
    {
        out.push(b[i]);
        i += 1;
    }
    assert(out@ =~= old(out)@ + b@);
}

fn read_address(data: &[u8]) -> (r: [u8; 20])
    requires
        data@.len() >= 20,
    ensures
        r@ == data@.subrange(0, 20),
{
    let mut r: [u8; 20] = [0u8; 20];
    let mut i: usize = 0;
    while i < 20
        invariant
            i <= 20,
            data@.len() >= 20,
            r@.len() == 20,
            forall|j: int| 0 <= j < i ==> r@[j] == data@[j],
        decreases 20 - i,
    {
        r[i] = data[i];
        i += 1;
    }
    assert(r@ =~= data@.subrange(0, 20));
    r
}

/// The bytes of a token identifier; it must be one that a log can carry.
fn token_bytes(token: &String) -> (r: Vec<u8>)
    requires
        token_ok(token@),
    ensures
        r@ == unhex(token@),
        r@.len() == ADDRESS_LEN,
{
    // Hexadecimal text of even length always decodes, so the second arm is never taken.
    match decode_hex(token.as_str()) {
        Some(b) => b,
        None => Vec::new(),
    }
}

impl EthRebasedEvent {
    /// The schema of a simplified rebase: token and epoch indexed, total supply as data.
    pub fn event_params() -> (r: Vec<FieldSpec>)
        ensures
            r@.len() == 3,
            r@[0].name@ == "token"@ && r@[0].kind == FieldKind::Address && r@[0].indexed,
            r@[1].name@ == "epoch"@ && r@[1].kind == FieldKind::Uint(256) && r@[1].indexed,
            r@[2].name@ == "total_supply"@ && r@[2].kind == FieldKind::Uint(256)
                && !r@[2].indexed,
            indexed_first(r@),
            schema_len(r@) == REBASED_LOG_LEN,
    {
        let r = vec![
            field("token", FieldKind::Address, true),
            field("epoch", FieldKind::Uint(256), true),
            field("total_supply", FieldKind::Uint(256), false),
        ];
        proof {
            assert(r@.drop_last().drop_last().drop_last().len() == 0);
            reveal_with_fuel(schema_len, 4);
        }
        r
    }

    /// A one-line description of the event.
    pub fn describe(&self) -> (r: String)
        ensures
            r@ == "token: "@ + self.token@ + "; epoch: "@ + decimal(self.epoch as nat)
                + "; total_supply: "@ + decimal(self.total_supply as nat),
    {
        let mut r = "token: ".to_owned();
        r.append(self.token.as_str());
        r.append("; epoch: ");
        let epoch = decimal_text(self.epoch);
        r.append(epoch.as_str());
        r.append("; total_supply: ");
        let total_supply = decimal_text(self.total_supply);
        r.append(total_supply.as_str());
        r
    }

    /// The indexed region of the log: token and epoch.
    pub fn indexed_fields(&self) -> (r: Vec<u8>)
        requires
            token_ok(self.token@),
        ensures
            r@ == rebased_indexed(*self),
    {
        let mut r = token_bytes(&self.token);
        let w = uint_word(self.epoch);
        append_bytes(&mut r, w.as_slice());
        r
    }

    /// The data region of the log: the total supply.
    pub fn data_fields(&self) -> (r: Vec<u8>)
        ensures
            r@ == rebased_data(*self),
    {
        uint_word(self.total_supply)
    }

    /// The log of this rebase, as the source chain emits it.
    pub fn to_log_entry_data(&self) -> (r: Vec<u8>)
        requires
            token_ok(self.token@),
        ensures
            r@ == rebased_log(*self),
    {
        let mut r: Vec<u8> = Vec::new();
        append_bytes(&mut r, self.rebaser_address.as_slice());
        let indexed = self.indexed_fields();
        append_bytes(&mut r, indexed.as_slice());
        let data = self.data_fields();
        append_bytes(&mut r, data.as_slice());
        assert(r@ =~= rebased_log(*self));
        r
    }

    /// Reads a simplified-rebase log; `MalformedLog` where the length is not
    /// that of the schema or a word does not fit 128 bits.
    pub fn from_log_entry_data(data: &[u8]) -> (r: Result<Self, RebaseError>)
        ensures
            r is Ok <==> rebased_decodable(data@),
            r is Ok ==> decodes_to_rebased(data@, r->Ok_0),
            r is Err ==> r == Err::<Self, RebaseError>(RebaseError::MalformedLog),
    {
        if data.len() != REBASED_LOG_LEN {
            return Err(RebaseError::MalformedLog);
        }
        let rebaser_address = read_address(data);
        let token = encode_hex(slice_subrange(data, 20, 40));
        let epoch = word_uint(slice_subrange(data, 40, 72));
        let total_supply = word_uint(slice_subrange(data, 72, 104));
        match (epoch, total_supply) {
            (Some(epoch), Some(total_supply)) => Ok(
                EthRebasedEvent { rebaser_address, token, epoch, total_supply },
            ),
            _ => Err(RebaseError::MalformedLog),
        }
    }
}

impl EthDetailedRebaseEvent {
    /// The schema of a detailed rebase: token and epoch indexed, the oracle's
    /// figures as data.
    pub fn event_params() -> (r: Vec<FieldSpec>)
        ensures
            r@.len() == 6,
            r@[0].name@ == "token"@ && r@[0].kind == FieldKind::Address && r@[0].indexed,
            r@[1].name@ == "epoch"@ && r@[1].kind == FieldKind::Uint(256) && r@[1].indexed,
            r@[2].name@ == "exchange_rate"@ && r@[2].kind == FieldKind::Uint(256)
                && !r@[2].indexed,
            r@[3].name@ == "consumer_price_index"@ && r@[3].kind == FieldKind::Uint(256)
                && !r@[3].indexed,
            r@[4].name@ == "requested_adjustment"@ && r@[4].kind == FieldKind::Int(256)
                && !r@[4].indexed,
            r@[5].name@ == "timestamp"@ && r@[5].kind == FieldKind::Uint(256) && !r@[5].indexed,
            indexed_first(r@),
            schema_len(r@) == DETAILED_LOG_LEN,
    {
        let r = vec![
            field("token", FieldKind::Address, true),
            field("epoch", FieldKind::Uint(256), true),
            field("exchange_rate", FieldKind::Uint(256), false),
            field("consumer_price_index", FieldKind::Uint(256), false),
            field("requested_adjustment", FieldKind::Int(256), false),
            field("timestamp", FieldKind::Uint(256), false),
        ];
        proof {
            reveal_with_fuel(schema_len, 7);
        }
        r
    }

    /// The indexed region of the log: token and epoch.
    pub fn indexed_fields(&self) -> (r: Vec<u8>)
        requires
            token_ok(self.token@),
        ensures
            r@ == detailed_indexed(*self),
    {
        let mut r = token_bytes(&self.token);
        let w = uint_word(self.epoch);
        append_bytes(&mut r, w.as_slice());
        r
    }

    /// The data region of the log: exchange rate, price index, requested
    /// adjustment and timestamp.
    pub fn data_fields(&self) -> (r: Vec<u8>)
        ensures
            r@ == detailed_data(*self),
    {
        let mut r = uint_word(self.exchange_rate);
        let w = uint_word(self.consumer_price_index);
        append_bytes(&mut r, w.as_slice());
        let w = int_word(self.requested_adjustment);
        append_bytes(&mut r, w.as_slice());
        let w = uint_word(self.timestamp);
        append_bytes(&mut r, w.as_slice());
        r
    }

    /// The log of this rebase, as the source chain emits it.
    pub fn to_log_entry_data(&self) -> (r: Vec<u8>)
        requires
            token_ok(self.token@),
        ensures
            r@ == detailed_log(*self),
    {
        let mut r: Vec<u8> = Vec::new();
        append_bytes(&mut r, self.rebaser_address.as_slice());
        let indexed = self.indexed_fields();
        append_bytes(&mut r, indexed.as_slice());
        let data = self.data_fields();
        append_bytes(&mut r, data.as_slice());
        assert(r@ =~= detailed_log(*self));
        r
    }

    /// Reads a detailed-rebase log; `MalformedLog` where the length is not
    /// that of the schema or a word does not fit its field.
    pub fn from_log_entry_data(data: &[u8]) -> (r: Result<Self, RebaseError>)
        ensures
            r is Ok <==> detailed_decodable(data@),
            r is Ok ==> decodes_to_detailed(data@, r->Ok_0),
            r is Err ==> r == Err::<Self, RebaseError>(RebaseError::MalformedLog),
    {
        if data.len() != DETAILED_LOG_LEN {
            return Err(RebaseError::MalformedLog);
        }
        let rebaser_address = read_address(data);
        let token = encode_hex(slice_subrange(data, 20, 40));
        let epoch = word_uint(slice_subrange(data, 40, 72));
        let exchange_rate = word_uint(slice_subrange(data, 72, 104));
        let consumer_price_index = word_uint(slice_subrange(data, 104, 136));
        let requested_adjustment = word_int(slice_subrange(data, 136, 168));
        let timestamp = word_uint(slice_subrange(data, 168, 200));
        match (epoch, exchange_rate, consumer_price_index, requested_adjustment, timestamp) {
            (
                Some(epoch),
                Some(exchange_rate),
                Some(consumer_price_index),
                Some(requested_adjustment),
                Some(timestamp),
            ) => Ok(
                EthDetailedRebaseEvent {
                    rebaser_address,
                    token,
                    epoch,
                    exchange_rate,
                    consumer_price_index,
                    requested_adjustment,
                    timestamp,
                },
            ),
            _ => Err(RebaseError::MalformedLog),
        }
    }
}

impl RebaseEvent {
    /// The event's epoch.
    pub fn epoch(&self) -> (r: u128)
        ensures
            r == self.spec_epoch(),
    {
        match self {
            RebaseEvent::Detailed(d) => d.epoch,
            RebaseEvent::Simplified(s) => s.epoch,
        }
    }

    pub open spec fn spec_epoch(&self) -> u128 {
        match self {
            RebaseEvent::Detailed(d) => d.epoch,
            RebaseEvent::Simplified(s) => s.epoch,
        }
    }

    pub open spec fn token_ok(&self) -> bool {
        match self {
            RebaseEvent::Detailed(d) => token_ok(d.token@),
            RebaseEvent::Simplified(s) => token_ok(s.token@),
        }
    }

    pub open spec fn token_lower(&self) -> bool {
        match self {
            RebaseEvent::Detailed(d) => token_lower(d.token@),
            RebaseEvent::Simplified(s) => token_lower(s.token@),
        }
    }

    pub open spec fn log(&self) -> Seq<u8> {
        match self {
            RebaseEvent::Detailed(d) => detailed_log(*d),
            RebaseEvent::Simplified(s) => rebased_log(*s),
        }
    }

    /// The log of this event under its own schema.
    pub fn to_log_entry_data(&self) -> (r: Vec<u8>)
        requires
            self.token_ok(),
        ensures
            r@ == self.log(),
    {
        match self {
            RebaseEvent::Detailed(d) => d.to_log_entry_data(),
            RebaseEvent::Simplified(s) => s.to_log_entry_data(),
        }
    }

    /// Reads a log of either schema, chosen by its length; `MalformedLog`
    /// where the length is neither or a word does not fit its field.
    pub fn from_log_entry_data(data: &[u8]) -> (r: Result<Self, RebaseError>)
        ensures
            r is Ok <==> decodable(data@),
            r is Ok ==> decodes_to(data@, r->Ok_0),
            r is Err ==> r == Err::<Self, RebaseError>(RebaseError::MalformedLog),
            data@.len() != REBASED_LOG_LEN && data@.len() != DETAILED_LOG_LEN ==> r
                == Err::<Self, RebaseError>(RebaseError::MalformedLog),
    {
        if data.len() == REBASED_LOG_LEN {
            match EthRebasedEvent::from_log_entry_data(data) {
                Ok(e) => Ok(RebaseEvent::Simplified(e)),
                Err(e) => Err(e),
            }
        } else {
            match EthDetailedRebaseEvent::from_log_entry_data(data) {
                Ok(e) => Ok(RebaseEvent::Detailed(e)),
                Err(e) => Err(e),
            }
        }
    }
}

/// Decoding a simplified-rebase log gives back the event that was encoded,
/// and no other.
pub proof fn lemma_rebased_round_trip(e: EthRebasedEvent, d: EthRebasedEvent)
    requires
        token_lower(e.token@),
    ensures
        rebased_decodable(rebased_log(e)),
        decodes_to_rebased(rebased_log(e), d) ==> same_rebased(d, e),
{
    let b = rebased_log(e);
    lemma_unhex_lower(e.token@);
    lemma_word_round_trip(e.epoch);
    lemma_word_round_trip(e.total_supply);
    assert(b.subrange(0, 20) =~= e.rebaser_address@);
    assert(b.subrange(20, 40) =~= unhex(e.token@));
    assert(word_at(b, 40) =~= be_bytes(e.epoch as nat, 32));
    assert(word_at(b, 72) =~= be_bytes(e.total_supply as nat, 32));
    if decodes_to_rebased(b, d) {
        lemma_hex_of_unique(d.token@, e.token@, unhex(e.token@));
    }
}

/// Decoding a detailed-rebase log gives back the event that was encoded,
/// and no other.
pub proof fn lemma_detailed_round_trip(e: EthDetailedRebaseEvent, d: EthDetailedRebaseEvent)
    requires
        token_lower(e.token@),
    ensures
        detailed_decodable(detailed_log(e)),
        decodes_to_detailed(detailed_log(e), d) ==> same_detailed(d, e),
{
    let b = detailed_log(e);
    lemma_unhex_lower(e.token@);
    lemma_word_round_trip(e.epoch);
    lemma_word_round_trip(e.exchange_rate);
    lemma_word_round_trip(e.consumer_price_index);
    lemma_signed_word_round_trip(e.requested_adjustment);
    lemma_word_round_trip(e.timestamp);
    assert(b.subrange(0, 20) =~= e.rebaser_address@);
    assert(b.subrange(20, 40) =~= unhex(e.token@));
    assert(word_at(b, 40) =~= be_bytes(e.epoch as nat, 32));
    assert(word_at(b, 72) =~= be_bytes(e.exchange_rate as nat, 32));
    assert(word_at(b, 104) =~= be_bytes(e.consumer_price_index as nat, 32));
    assert(word_at(b, 136) =~= signed_word(e.requested_adjustment));
    assert(word_at(b, 168) =~= be_bytes(e.timestamp as nat, 32));
    if decodes_to_detailed(b, d) {
        lemma_hex_of_unique(d.token@, e.token@, unhex(e.token@));
    }
}

/// Round trip over both schemas: the log of an event decodes, under the schema
/// that its length selects, to that same event.
pub proof fn lemma_round_trip(e: RebaseEvent, d: RebaseEvent)
    requires
        e.token_lower(),
    ensures
        decodable(e.log()),
        decodes_to(e.log(), d) ==> match (e, d) {
            (RebaseEvent::Simplified(x), RebaseEvent::Simplified(y)) => same_rebased(y, x),
            (RebaseEvent::Detailed(x), RebaseEvent::Detailed(y)) => same_detailed(y, x),
            _ => false,
        },
{
    match e {
        RebaseEvent::Simplified(x) => {
            lemma_rebased_round_trip(x, x);
            match d {
                RebaseEvent::Simplified(y) => lemma_rebased_round_trip(x, y),
                RebaseEvent::Detailed(y) => {},
            }
        },
        RebaseEvent::Detailed(x) => {
            lemma_detailed_round_trip(x, x);
            match d {
                RebaseEvent::Detailed(y) => lemma_detailed_round_trip(x, y),
                RebaseEvent::Simplified(y) => {},
            }
        },
    }
}

} // verus!
