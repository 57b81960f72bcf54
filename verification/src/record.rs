use crate::amount::BigNat;
use crate::text::{
    dash_count, decimal_text, holds_dash, lemma_dash_count_joined, lemma_dash_count_zero,
    lemma_decimal_digits, lemma_decimal_injective, lemma_marked_prefix, lemma_numeral_prefix,
    push_decimal,
};
use vstd::prelude::*;
use vstd::string::{StrSliceExecFns, StringExecFns};

verus! {

/// How a transfer was settled.
#[derive(Clone, Copy, Debug, PartialEq, Eq, Structural)]
pub enum TransactionType {
    /// Between two balances of this ledger.
    Internal,
    /// By the external asset ledger.
    ICRC,
}

/// One completed transfer, as the log keeps it. A record is never changed
/// after it was written.
#[derive(Clone, Debug, PartialEq, Eq)]
pub struct TransactionRecord {
    pub sender: String,
    pub receiver: String,
    pub amount: u64,
    pub timestamp: u64,
    pub transaction_id: String,
    pub transaction_type: TransactionType,
    /// The block that the external ledger settled the transfer in.
    pub block_index: Option<BigNat>,
}

/// A transaction record as a mathematical value.
pub struct RecordView {
    pub sender: Seq<char>,
    pub receiver: Seq<char>,
    pub amount: u64,
    pub timestamp: u64,
    pub transaction_id: Seq<char>,
    pub transaction_type: TransactionType,
    pub block_index: Option<nat>,
}

impl View for TransactionRecord {
    type V = RecordView;

    open spec fn view(&self) -> RecordView {
        RecordView {
            sender: self.sender@,
            receiver: self.receiver@,
            amount: self.amount,
            timestamp: self.timestamp,
            transaction_id: self.transaction_id@,
            transaction_type: self.transaction_type,
            block_index: match self.block_index {
                Some(index) => Some(index@),
                None => None,
            },
        }
    }
}

/// The views of a sequence of records.
pub open spec fn records_view(records: Seq<TransactionRecord>) -> Seq<RecordView> {
    Seq::new(records.len(), |i: int| records[i]@)
}

/// A text with its length in front: the number of its characters in decimal,
/// a colon, and the text. However the text reads, where it ends is known from
/// the number.
pub open spec fn measured_text(text: Seq<char>) -> Seq<char> {
    decimal_text(text.len()) + seq![':'] + text
}

/// Sender, receiver, amount and timestamp joined by dashes, the numbers in
/// decimal. Where neither party holds a dash, this can be read in one way
/// only.
pub open spec fn plain_id_text(
    sender: Seq<char>,
    receiver: Seq<char>,
    amount: u64,
    timestamp: u64,
) -> Seq<char> {
    sender + seq!['-'] + receiver + seq!['-'] + decimal_text(amount as nat) + seq!['-']
        + decimal_text(timestamp as nat)
}

/// As `plain_id_text`, with the length of sender and receiver in front of
/// each. This can be read in one way only whatever the parties hold.
pub open spec fn measured_id_text(
    sender: Seq<char>,
    receiver: Seq<char>,
    amount: u64,
    timestamp: u64,
) -> Seq<char> {
    measured_text(sender) + seq!['-'] + measured_text(receiver) + seq!['-'] + decimal_text(
        amount as nat,
    ) + seq!['-'] + decimal_text(timestamp as nat)
}

/// The identifier of the transfer of `amount` from `sender` to `receiver` at
/// `timestamp`: the four joined by dashes; where sender or receiver holds a
/// dash itself, each of the two has its length in front. Different transfers
/// have different identifiers.
pub open spec fn transaction_id_text(
    sender: Seq<char>,
    receiver: Seq<char>,
    amount: u64,
    timestamp: u64,
) -> Seq<char> {
    if sender.contains('-') || receiver.contains('-') {
        measured_id_text(sender, receiver, amount, timestamp)
    } else {
        plain_id_text(sender, receiver, amount, timestamp)
    }
}

/// The number of dashes in a plain identifier: three and those of the
/// parties.
proof fn lemma_plain_dashes(sender: Seq<char>, receiver: Seq<char>, amount: u64, timestamp: u64)
    ensures
        dash_count(plain_id_text(sender, receiver, amount, timestamp)) == dash_count(sender)
            + dash_count(receiver) + 3,
{
    let dash = seq!['-'];
    let a = decimal_text(amount as nat);
    let t = decimal_text(timestamp as nat);
    lemma_decimal_digits(amount as nat);
    lemma_decimal_digits(timestamp as nat);
    lemma_dash_count_zero(a);
    lemma_dash_count_zero(t);
    assert(dash_count(dash) == 1) by {
        assert(dash.drop_last() =~= Seq::<char>::empty());
        assert(dash_count(dash.drop_last()) == 0);
    }
    lemma_dash_count_joined(sender, dash);
    lemma_dash_count_joined(sender + dash, receiver);
    lemma_dash_count_joined(sender + dash + receiver, dash);
    lemma_dash_count_joined(sender + dash + receiver + dash, a);
    lemma_dash_count_joined(sender + dash + receiver + dash + a, dash);
    lemma_dash_count_joined(sender + dash + receiver + dash + a + dash, t);
}

/// The number of dashes in a measured text: those of the text.
proof fn lemma_measured_dashes(text: Seq<char>)
    ensures
        dash_count(measured_text(text)) == dash_count(text),
{
    let length = decimal_text(text.len());
    let colon = seq![':'];
    lemma_decimal_digits(text.len());
    lemma_dash_count_zero(length);
    assert(dash_count(colon) == 0) by {
        assert(colon.drop_last() =~= Seq::<char>::empty());
        assert(dash_count(colon.drop_last()) == 0);
    }
    lemma_dash_count_joined(length, colon);
    lemma_dash_count_joined(length + colon, text);
}

/// The number of dashes in a measured identifier: three and those of the
/// parties.
proof fn lemma_measured_id_dashes(
    sender: Seq<char>,
    receiver: Seq<char>,
    amount: u64,
    timestamp: u64,
)
    ensures
        dash_count(measured_id_text(sender, receiver, amount, timestamp)) == dash_count(sender)
            + dash_count(receiver) + 3,
{
    lemma_plain_dashes(measured_text(sender), measured_text(receiver), amount, timestamp);
    lemma_measured_dashes(sender);
    lemma_measured_dashes(receiver);
}

/// A plain identifier is its first party, a dash, and the rest.
proof fn lemma_id_parts(first: Seq<char>, second: Seq<char>, amount: u64, timestamp: u64)
    ensures
        plain_id_text(first, second, amount, timestamp) == first + seq!['-'] + (second + seq!['-']
            + (decimal_text(amount as nat) + seq!['-'] + decimal_text(timestamp as nat))),
{
    assert(plain_id_text(first, second, amount, timestamp) =~= first + seq!['-'] + (second
        + seq!['-'] + (decimal_text(amount as nat) + seq!['-'] + decimal_text(
        timestamp as nat,
    ))));
}

/// Two plain identifiers of parties without dashes are the same only for the
/// same transfer.
proof fn lemma_plain_ids_differ(
    sender: Seq<char>,
    receiver: Seq<char>,
    amount: u64,
    timestamp: u64,
    other_sender: Seq<char>,
    other_receiver: Seq<char>,
    other_amount: u64,
    other_timestamp: u64,
)
    requires
        !sender.contains('-'),
        !receiver.contains('-'),
        !other_sender.contains('-'),
        !other_receiver.contains('-'),
        plain_id_text(sender, receiver, amount, timestamp) == plain_id_text(
            other_sender,
            other_receiver,
            other_amount,
            other_timestamp,
        ),
    ensures
        sender == other_sender,
        receiver == other_receiver,
        amount == other_amount,
        timestamp == other_timestamp,
{
    let numbers = decimal_text(amount as nat) + seq!['-'] + decimal_text(timestamp as nat);
    let other_numbers = decimal_text(other_amount as nat) + seq!['-'] + decimal_text(
        other_timestamp as nat,
    );
    lemma_id_parts(sender, receiver, amount, timestamp);
    lemma_id_parts(other_sender, other_receiver, other_amount, other_timestamp);
    lemma_marked_prefix(
        sender,
        other_sender,
        '-',
        receiver + seq!['-'] + numbers,
        other_receiver + seq!['-'] + other_numbers,
    );
    lemma_marked_prefix(receiver, other_receiver, '-', numbers, other_numbers);
    lemma_numeral_prefix(
        amount as nat,
        other_amount as nat,
        '-',
        decimal_text(timestamp as nat),
        decimal_text(other_timestamp as nat),
    );
    lemma_decimal_injective(timestamp as nat, other_timestamp as nat);
}

/// A measured text followed by anything can be read in one way only.
proof fn lemma_measured_prefix(a: Seq<char>, b: Seq<char>, x: Seq<char>, y: Seq<char>)
    requires
        measured_text(a) + x == measured_text(b) + y,
    ensures
        a == b,
        x == y,
{
    assert(measured_text(a) + x =~= decimal_text(a.len()) + seq![':'] + (a + x));
    assert(measured_text(b) + y =~= decimal_text(b.len()) + seq![':'] + (b + y));
    lemma_numeral_prefix(a.len(), b.len(), ':', a + x, b + y);
    assert(a =~= (a + x).take(a.len() as int));
    assert(b =~= (b + y).take(b.len() as int));
    assert(x =~= (a + x).skip(a.len() as int));
    assert(y =~= (b + y).skip(b.len() as int));
}

/// A measured text, a dash and what follows can be read in one way only.
proof fn lemma_measured_then_dash(a: Seq<char>, b: Seq<char>, x: Seq<char>, y: Seq<char>)
    requires
        measured_text(a) + seq!['-'] + x == measured_text(b) + seq!['-'] + y,
    ensures
        a == b,
        x == y,
{
    let dash = seq!['-'];
    assert(measured_text(a) + dash + x =~= measured_text(a) + (dash + x));
    assert(measured_text(b) + dash + y =~= measured_text(b) + (dash + y));
    lemma_measured_prefix(a, b, dash + x, dash + y);
    assert(x =~= (dash + x).skip(1));
    assert(y =~= (dash + y).skip(1));
}

/// Two measured identifiers are the same only for the same transfer.
proof fn lemma_measured_ids_differ(
    sender: Seq<char>,
    receiver: Seq<char>,
    amount: u64,
    timestamp: u64,
    other_sender: Seq<char>,
    other_receiver: Seq<char>,
    other_amount: u64,
    other_timestamp: u64,
)
    requires
        measured_id_text(sender, receiver, amount, timestamp) == measured_id_text(
            other_sender,
            other_receiver,
            other_amount,
            other_timestamp,
        ),
    ensures
        sender == other_sender,
        receiver == other_receiver,
        amount == other_amount,
        timestamp == other_timestamp,
{
    let numbers = decimal_text(amount as nat) + seq!['-'] + decimal_text(timestamp as nat);
    let other_numbers = decimal_text(other_amount as nat) + seq!['-'] + decimal_text(
        other_timestamp as nat,
    );
    lemma_id_parts(measured_text(sender), measured_text(receiver), amount, timestamp);
    lemma_id_parts(
        measured_text(other_sender),
        measured_text(other_receiver),
        other_amount,
        other_timestamp,
    );
    lemma_measured_then_dash(
        sender,
        other_sender,
        measured_text(receiver) + seq!['-'] + numbers,
        measured_text(other_receiver) + seq!['-'] + other_numbers,
    );
    lemma_measured_then_dash(receiver, other_receiver, numbers, other_numbers);
    lemma_numeral_prefix(
        amount as nat,
        other_amount as nat,
        '-',
        decimal_text(timestamp as nat),
        decimal_text(other_timestamp as nat),
    );
    lemma_decimal_injective(timestamp as nat, other_timestamp as nat);
}

/// Collision resistance: two transfers that differ in sender, receiver,
/// amount or timestamp have different identifiers.
pub proof fn lemma_transaction_ids_differ(
    sender: Seq<char>,
    receiver: Seq<char>,
    amount: u64,
    timestamp: u64,
    other_sender: Seq<char>,
    other_receiver: Seq<char>,
    other_amount: u64,
    other_timestamp: u64,
)
    requires
        transaction_id_text(sender, receiver, amount, timestamp) == transaction_id_text(
            other_sender,
            other_receiver,
            other_amount,
            other_timestamp,
        ),
    ensures
        sender == other_sender,
        receiver == other_receiver,
        amount == other_amount,
        timestamp == other_timestamp,
{
    let measured = sender.contains('-') || receiver.contains('-');
    let other_measured = other_sender.contains('-') || other_receiver.contains('-');
    lemma_dash_count_zero(sender);
    lemma_dash_count_zero(receiver);
    lemma_dash_count_zero(other_sender);
    lemma_dash_count_zero(other_receiver);
    lemma_plain_dashes(sender, receiver, amount, timestamp);
    lemma_plain_dashes(other_sender, other_receiver, other_amount, other_timestamp);
    lemma_measured_id_dashes(sender, receiver, amount, timestamp);
    lemma_measured_id_dashes(other_sender, other_receiver, other_amount, other_timestamp);
    if measured && other_measured {
        lemma_measured_ids_differ(
            sender,
            receiver,
            amount,
            timestamp,
            other_sender,
            other_receiver,
            other_amount,
            other_timestamp,
        );
    } else if !measured && !other_measured {
        lemma_plain_ids_differ(
            sender,
            receiver,
            amount,
            timestamp,
            other_sender,
            other_receiver,
            other_amount,
            other_timestamp,
        );
    }
}

/// The record of a transfer between two balances of this ledger.
pub open spec fn internal_record(
    sender: Seq<char>,
    receiver: Seq<char>,
    amount: u64,
    timestamp: u64,
) -> RecordView {
    RecordView {
        sender,
        receiver,
        amount,
        timestamp,
        transaction_id: transaction_id_text(sender, receiver, amount, timestamp),
        transaction_type: TransactionType::Internal,
        block_index: None,
    }
}

/// The record of a transfer that the external ledger settled in block
/// `block_index`.
pub open spec fn bridged_record(
    sender: Seq<char>,
    receiver: Seq<char>,
    amount: u64,
    timestamp: u64,
    block_index: nat,
) -> RecordView {
    RecordView {
        sender,
        receiver,
        amount,
        timestamp,
        transaction_id: transaction_id_text(sender, receiver, amount, timestamp),
        transaction_type: TransactionType::ICRC,
        block_index: Some(block_index),
    }
}

/// What every log key of `identity` begins with.
pub open spec fn key_prefix(identity: Seq<char>) -> Seq<char> {
    identity + seq![':']
}

/// The log key of the copy that `identity` holds of transfer `transaction_id`.
pub open spec fn log_key_text(identity: Seq<char>, transaction_id: Seq<char>) -> Seq<char> {
    key_prefix(identity) + transaction_id
}

/// Appends `text` with its length in front.
fn push_measured(out: &mut String, text: &str)
    ensures
        final(out)@ == old(out)@ + measured_text(text@),
{
    proof {
        reveal_strlit(":");
    }
    let length = text.unicode_len();
    push_decimal(out, length as u64);
    out.append(":");
    out.append(text);
    assert(out@ =~= old(out)@ + measured_text(text@));
}

/// Derives the identifier of a transfer from what it moves and when.
pub fn generate_transaction_id(sender: &str, receiver: &str, amount: u64, timestamp: u64) -> (id:
    String)
    ensures
        id@ == transaction_id_text(sender@, receiver@, amount, timestamp),
{
    proof {
        reveal_strlit("-");
    }
    let measured = holds_dash(sender) || holds_dash(receiver);
    let mut id = String::new();
    if measured {
        push_measured(&mut id, sender);
        id.append("-");
        push_measured(&mut id, receiver);
    } else {
        id.append(sender);
        id.append("-");
        id.append(receiver);
    }
    id.append("-");
    push_decimal(&mut id, amount);
    id.append("-");
    push_decimal(&mut id, timestamp);
    assert(id@ =~= transaction_id_text(sender@, receiver@, amount, timestamp));
    id
}

/// What every log key of `identity` begins with.
pub fn key_prefix_of(identity: &str) -> (prefix: String)
    ensures
        prefix@ == key_prefix(identity@),
{
    proof {
        reveal_strlit(":");
    }
    let mut prefix = String::from_str(identity);
    prefix.append(":");
    assert(prefix@ =~= key_prefix(identity@));
    prefix
}

/// The log key of the copy that `identity` holds of transfer `transaction_id`.
pub fn log_key(identity: &str, transaction_id: &str) -> (key: String)
    ensures
        key@ == log_key_text(identity@, transaction_id@),
{
    let mut key = key_prefix_of(identity);
    key.append(transaction_id);
    key
}

impl TransactionRecord {
    /// The record of a transfer between two balances of this ledger.
    pub fn internal(sender: &str, receiver: &str, amount: u64, timestamp: u64) -> (record:
        TransactionRecord)
        ensures
            record@ == internal_record(sender@, receiver@, amount, timestamp),
    {
        TransactionRecord {
            sender: String::from_str(sender),
            receiver: String::from_str(receiver),
            amount,
            timestamp,
            transaction_id: generate_transaction_id(sender, receiver, amount, timestamp),
            transaction_type: TransactionType::Internal,
            block_index: None,
        }
    }

    /// The record of a transfer that the external ledger settled in block
    /// `block_index`.
    pub fn bridged(
        sender: &str,
        receiver: &str,
        amount: u64,
        timestamp: u64,
        block_index: BigNat,
    ) -> (record: TransactionRecord)
        ensures
            record@ == bridged_record(sender@, receiver@, amount, timestamp, block_index@),
    {
        TransactionRecord {
            sender: String::from_str(sender),
            receiver: String::from_str(receiver),
            amount,
            timestamp,
            transaction_id: generate_transaction_id(sender, receiver, amount, timestamp),
            transaction_type: TransactionType::ICRC,
            block_index: Some(block_index),
        }
    }
}

} // verus!
