//! Asset accounting: what a federation holds on chain is what the inputs of
//! its on-chain module brought in less what the outputs of that module paid
//! out, in millisatoshi.

use vstd::prelude::*;
use vstd::string::StrSliceExecFns;
use crate::decoder::{classify, kind_of, DecodedView, IoRow, IoRowView, ModuleKind, Side, rows_view};
use crate::session::{
    records_view, SessionRecord, SessionRecordView, TransactionRecord, TransactionRecordView,
};

verus! {

/// Why the assets of a federation cannot be given.
#[derive(Clone, Copy, Debug, PartialEq, Eq, Structural)]
pub enum AssetsError {
    /// The inputs or the outputs sum up to more than 64 bits hold.
    Overflow,
    /// The outputs paid out more than the inputs brought in.
    Negative,
    /// The text is no decimal number.
    Malformed,
}

/// What a row counts for: its amount if it belongs to the on-chain module
/// and has one, else nothing.
pub open spec fn wallet_amount(row: IoRowView) -> nat {
    if kind_of(row.kind) == ModuleKind::Wallet {
        match row.amount_msat {
            Some(amount) => amount as nat,
            None => 0,
        }
    } else {
        0
    }
}

/// What a list of rows counts for.
pub open spec fn rows_total(rows: Seq<IoRowView>) -> nat
    decreases rows.len(),
{
    if rows.len() == 0 {
        0
    } else {
        rows_total(rows.drop_last()) + wallet_amount(rows.last())
    }
}

/// The rows of one side of a transaction.
pub open spec fn side_rows(transaction: DecodedView, side: Side) -> Seq<IoRowView> {
    match side {
        Side::Input => transaction.inputs,
        Side::Output => transaction.outputs,
    }
}

/// What one side of a list of transactions counts for.
pub open spec fn transactions_total(records: Seq<TransactionRecordView>, side: Side) -> nat
    decreases records.len(),
{
    if records.len() == 0 {
        0
    } else {
        transactions_total(records.drop_last(), side) + rows_total(
            side_rows(records.last().transaction, side),
        )
    }
}

/// What one side of a list of sessions counts for.
pub open spec fn sessions_total(sessions: Seq<SessionRecordView>, side: Side) -> nat
    decreases sessions.len(),
{
    if sessions.len() == 0 {
        0
    } else {
        sessions_total(sessions.drop_last(), side) + transactions_total(
            sessions.last().transactions,
            side,
        )
    }
}

/// The assets that follow from what came in and what went out.
pub open spec fn net_assets(inputs: nat, outputs: nat) -> Result<u64, AssetsError> {
    if inputs > u64::MAX || outputs > u64::MAX {
        Err(AssetsError::Overflow)
    } else if outputs > inputs {
        Err(AssetsError::Negative)
    } else {
        Ok((inputs - outputs) as u64)
    }
}

/// The assets of a federation with the given committed sessions.
pub open spec fn assets_of(sessions: Seq<SessionRecordView>) -> Result<u64, AssetsError> {
    net_assets(sessions_total(sessions, Side::Input), sessions_total(sessions, Side::Output))
}

/// The first `upto` rows count for no more than all of them.
pub proof fn lemma_rows_prefix(rows: Seq<IoRowView>, upto: int)
    requires
        0 <= upto <= rows.len(),
    ensures
        rows_total(rows.take(upto)) <= rows_total(rows),
    decreases rows.len() - upto,
{
    if upto == rows.len() {
        assert(rows.take(upto) =~= rows);
    } else {
        assert(rows.take(upto + 1).drop_last() =~= rows.take(upto));
        lemma_rows_prefix(rows, upto + 1);
    }
}

/// The first `upto` transactions count for no more than all of them.
pub proof fn lemma_transactions_prefix(records: Seq<TransactionRecordView>, side: Side, upto: int)
    requires
        0 <= upto <= records.len(),
    ensures
        transactions_total(records.take(upto), side) <= transactions_total(records, side),
    decreases records.len() - upto,
{
    if upto == records.len() {
        assert(records.take(upto) =~= records);
    } else {
        assert(records.take(upto + 1).drop_last() =~= records.take(upto));
        lemma_transactions_prefix(records, side, upto + 1);
    }
}

/// The first `upto` sessions count for no more than all of them.
pub proof fn lemma_sessions_prefix(sessions: Seq<SessionRecordView>, side: Side, upto: int)
    requires
        0 <= upto <= sessions.len(),
    ensures
        sessions_total(sessions.take(upto), side) <= sessions_total(sessions, side),
    decreases sessions.len() - upto,
{
    if upto == sessions.len() {
        assert(sessions.take(upto) =~= sessions);
    } else {
        assert(sessions.take(upto + 1).drop_last() =~= sessions.take(upto));
        lemma_sessions_prefix(sessions, side, upto + 1);
    }
}

/// Sums up what a list of rows counts for; `None` where 64 bits do not hold
/// the sum.
pub fn total_of_rows(rows: &Vec<IoRow>) -> (total: Option<u64>)
    ensures
        match total {
            Some(sum) => sum == rows_total(rows_view(rows@)),
            None => rows_total(rows_view(rows@)) > u64::MAX,
        },
{
    let ghost all = rows_view(rows@);
    let mut sum: u64 = 0;
    let mut i: usize = 0;
    assert(all.take(0) =~= Seq::empty());
    while i < rows.len()
        invariant
            i <= rows.len(),
            all == rows_view(rows@),
            sum == rows_total(all.take(i as int)),
        decreases rows.len() - i,
    {
        proof {
            assert(all.take(i as int + 1).drop_last() =~= all.take(i as int));
            assert(all.take(i as int + 1).last() == rows@[i as int]@);
            lemma_rows_prefix(all, i as int + 1);
        }
        let row = &rows[i];
        let amount = match classify(row.kind.as_str()) {
            ModuleKind::Wallet => match row.amount_msat {
                Some(amount) => amount,
                None => 0,
            },
            _ => 0,
        };
        match sum.checked_add(amount) {
            Some(next) => {
                sum = next;
            },
            None => {
                return None;
            },
        }
        i += 1;
    }
    assert(all.take(i as int) =~= all);
    Some(sum)
}

/// Sums up one side of a list of transactions; `None` where 64 bits do not
/// hold the sum.
pub fn total_of_transactions(records: &Vec<TransactionRecord>, side: Side) -> (total: Option<u64>)
    ensures
        match total {
            Some(sum) => sum == transactions_total(records_view(records@), side),
            None => transactions_total(records_view(records@), side) > u64::MAX,
        },
{
    let ghost all = records_view(records@);
    let mut sum: u64 = 0;
    let mut i: usize = 0;
    assert(all.take(0) =~= Seq::empty());
    while i < records.len()
        invariant
            i <= records.len(),
            all == records_view(records@),
            sum == transactions_total(all.take(i as int), side),
        decreases records.len() - i,
    {
        proof {
            assert(all.take(i as int + 1).drop_last() =~= all.take(i as int));
            assert(all.take(i as int + 1).last() == records@[i as int]@);
            lemma_transactions_prefix(all, side, i as int + 1);
        }
        let part = match side {
            Side::Input => total_of_rows(&records[i].transaction.inputs),
            Side::Output => total_of_rows(&records[i].transaction.outputs),
        };
        let amount = match part {
            Some(amount) => amount,
            None => {
                return None;
            },
        };
        match sum.checked_add(amount) {
            Some(next) => {
                sum = next;
            },
            None => {
                return None;
            },
        }
        i += 1;
    }
    assert(all.take(i as int) =~= all);
    Some(sum)
}

/// What a list of session records holds.
pub open spec fn sessions_view(sessions: Seq<SessionRecord>) -> Seq<SessionRecordView> {
    sessions.map_values(|session: SessionRecord| session@)
}

/// Sums up one side of a list of sessions; `None` where 64 bits do not hold
/// the sum.
pub fn total_of_sessions(sessions: &Vec<SessionRecord>, side: Side) -> (total: Option<u64>)
    ensures
        match total {
            Some(sum) => sum == sessions_total(sessions_view(sessions@), side),
            None => sessions_total(sessions_view(sessions@), side) > u64::MAX,
        },
{
    let ghost all = sessions_view(sessions@);
    let mut sum: u64 = 0;
    let mut i: usize = 0;
    assert(all.take(0) =~= Seq::empty());
    while i < sessions.len()
        invariant
            i <= sessions.len(),
            all == sessions_view(sessions@),
            sum == sessions_total(all.take(i as int), side),
        decreases sessions.len() - i,
    {
        proof {
            assert(all.take(i as int + 1).drop_last() =~= all.take(i as int));
            assert(all.take(i as int + 1).last() == sessions@[i as int]@);
            lemma_sessions_prefix(all, side, i as int + 1);
        }
        let amount = match total_of_transactions(&sessions[i].transactions, side) {
            Some(amount) => amount,
            None => {
                return None;
            },
        };
        match sum.checked_add(amount) {
            Some(next) => {
                sum = next;
            },
            None => {
                return None;
            },
        }
        i += 1;
    }
    assert(all.take(i as int) =~= all);
    Some(sum)
}

/// The assets of a federation with the given committed sessions.
pub fn assets_of_sessions(sessions: &Vec<SessionRecord>) -> (assets: Result<u64, AssetsError>)
    ensures
        assets == assets_of(sessions_view(sessions@)),
{
    let inputs = match total_of_sessions(sessions, Side::Input) {
        Some(total) => total,
        None => {
            return Err(AssetsError::Overflow);
        },
    };
    let outputs = match total_of_sessions(sessions, Side::Output) {
        Some(total) => total,
        None => {
            return Err(AssetsError::Overflow);
        },
    };
    if outputs > inputs {
        Err(AssetsError::Negative)
    } else {
        Ok(inputs - outputs)
    }
}

/// Whether a character is a decimal digit.
pub open spec fn is_digit(c: char) -> bool {
    48 <= c as u32 <= 57
}

/// The number that a string of decimal digits writes.
pub open spec fn digits_value(digits: Seq<char>) -> nat
    decreases digits.len(),
{
    if digits.len() == 0 {
        0
    } else {
        (digits_value(digits.drop_last()) * 10 + (digits.last() as u32 - 48)) as nat
    }
}

/// Whether the text is one or more decimal digits and nothing else.
pub open spec fn all_digits(digits: Seq<char>) -> bool {
    digits.len() > 0 && forall|i: int| 0 <= i < digits.len() ==> is_digit(#[trigger] digits[i])
}

/// The assets that a decimal text states. The text is a string of digits
/// with at most one sign before it. A number with a minus sign is negative
/// whatever its digits; one without is an overflow where 64 bits do not
/// hold it.
pub open spec fn assets_of_text(text: Seq<char>) -> Result<u64, AssetsError> {
    if text.len() > 0 && text[0] == '-' {
        if all_digits(text.skip(1)) {
            Err(AssetsError::Negative)
        } else {
            Err(AssetsError::Malformed)
        }
    } else {
        let digits = if text.len() > 0 && text[0] == '+' {
            text.skip(1)
        } else {
            text
        };
        if !all_digits(digits) {
            Err(AssetsError::Malformed)
        } else if digits_value(digits) > u64::MAX {
            Err(AssetsError::Overflow)
        } else {
            Ok(digits_value(digits) as u64)
        }
    }
}

/// Reads the assets of a federation from the decimal text in which the
/// database states them.
pub fn assets_from_text(text: &str) -> (assets: Result<u64, AssetsError>)
    ensures
        assets == assets_of_text(text@),
{
    let len = text.unicode_len();
    if len == 0 {
        return Err(AssetsError::Malformed);
    }
    let first = text.get_char(0);
    let negative = first == '-';
    let start: usize = if first == '-' || first == '+' {
        1
    } else {
        0
    };
    let ghost digits = text@.skip(start as int);
    if start == len {
        return Err(AssetsError::Malformed);
    }
    let mut value: u64 = 0;
    let mut overflow = false;
    let mut i: usize = start;
    assert(digits.take(0) =~= Seq::empty());
    while i < len
        invariant
            start <= i <= len,
            0 < len == text@.len(),
            negative == (text@[0] == '-'),
            start == if text@[0] == '-' || text@[0] == '+' {
                1usize
            } else {
                0usize
            },
            digits == text@.skip(start as int),
            forall|k: int| 0 <= k < i - start ==> is_digit(#[trigger] digits[k]),
            !overflow ==> value == digits_value(digits.take(i - start)),
            overflow ==> digits_value(digits.take(i - start)) > u64::MAX,
        decreases len - i,
    {
        let c = text.get_char(i);
        let code = c as u32;
        assert(digits[i - start] == c);
        if code < 48 || code > 57 {
            assert(!is_digit(digits[i - start]));
            return Err(AssetsError::Malformed);
        }
        let digit = (code - 48) as u64;
        proof {
            assert(digits.take(i - start + 1).drop_last() =~= digits.take(i - start));
            assert(digits.take(i - start + 1).last() == c);
        }
        if !overflow {
            match value.checked_mul(10) {
                Some(tens) => match tens.checked_add(digit) {
                    Some(next) => {
                        value = next;
                    },
                    None => {
                        overflow = true;
                    },
                },
                None => {
                    overflow = true;
                },
            }
        }
        i += 1;
    }
    assert(digits.take(i - start) =~= digits);
    assert(all_digits(digits));
    if start == 0 {
        assert(digits =~= text@);
    }
    if negative {
        Err(AssetsError::Negative)
    } else if overflow {
        Err(AssetsError::Overflow)
    } else {
        Ok(value)
    }
}

} // verus!
