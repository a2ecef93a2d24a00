//! Sessions of a federation's consensus log: what one session holds, the
//! rows derived from it, and the synchronizer that ingests sessions in order.
//!
//! A session and everything derived from it form one unit: `decode_session`
//! gives the whole record or an error, never a part.

use vstd::prelude::*;
use crate::decoder::{
    decode_transaction, decoded, DecodeError, DecodedTransaction, DecodedView, ModuleTable,
    RowFault, Transaction,
};
use crate::sync::{SyncView, Synchronizer};
use crate::text::clone_bytes;

verus! {

/// How many sessions are fetched ahead of the one being committed.
pub const SESSION_WINDOW: usize = 32;

/// Seconds between two attempts to fetch a session that is not there yet.
pub const FETCH_RETRY_INTERVAL_SECS: u64 = 1;

/// How often the fetch of one session is attempted before it is given up.
pub const FETCH_RETRY_ATTEMPTS: u32 = 4294967295;

/// One agreed-upon unit of a session.
#[derive(Clone, Debug, PartialEq, Eq)]
pub enum ConsensusItem {
    /// A transaction.
    Transaction(Transaction),
    /// An item of a module's own; it gives no rows.
    Other,
}

/// One session as the consensus API returns it.
#[derive(Clone, Debug, PartialEq, Eq)]
pub struct SessionOutcome {
    /// The session's consensus encoding.
    pub raw: Vec<u8>,
    pub items: Vec<ConsensusItem>,
}

/// A transaction of a session with its rows.
#[derive(Clone, Debug, PartialEq, Eq)]
pub struct TransactionRecord {
    /// The transaction's place among the items of its session.
    pub item_index: u64,
    pub transaction: DecodedTransaction,
}

/// What a transaction record holds.
pub struct TransactionRecordView {
    pub item_index: int,
    pub transaction: DecodedView,
}

impl View for TransactionRecord {
    type V = TransactionRecordView;

    open spec fn view(&self) -> TransactionRecordView {
        TransactionRecordView {
            item_index: self.item_index as int,
            transaction: self.transaction@,
        }
    }
}

/// What a list of transaction records holds.
pub open spec fn records_view(records: Seq<TransactionRecord>) -> Seq<TransactionRecordView> {
    records.map_values(|record: TransactionRecord| record@)
}

/// A session with everything derived from it: the unit of commit.
#[derive(Clone, Debug, PartialEq, Eq)]
pub struct SessionRecord {
    pub session_index: u64,
    pub raw_outcome: Vec<u8>,
    pub transactions: Vec<TransactionRecord>,
}

/// What a session record holds.
pub struct SessionRecordView {
    pub session_index: int,
    pub raw_outcome: Seq<u8>,
    pub transactions: Seq<TransactionRecordView>,
}

impl View for SessionRecord {
    type V = SessionRecordView;

    open spec fn view(&self) -> SessionRecordView {
        SessionRecordView {
            session_index: self.session_index as int,
            raw_outcome: self.raw_outcome@,
            transactions: records_view(self.transactions@),
        }
    }
}

/// A decode integrity error with the item that raised it.
#[derive(Clone, Copy, Debug, PartialEq, Eq, Structural)]
pub struct SessionError {
    pub item_index: u64,
    pub error: DecodeError,
}

/// What a session error says.
pub struct SessionFault {
    pub item_index: int,
    pub fault: RowFault,
}

impl View for SessionError {
    type V = SessionFault;

    open spec fn view(&self) -> SessionFault {
        SessionFault { item_index: self.item_index as int, fault: self.error@ }
    }
}

/// The records of the transactions among `items`, in order, each with its
/// place among the items; or the fault of the first transaction that raises
/// one. Items that are no transactions give nothing.
pub open spec fn session_transactions(table: &ModuleTable, items: Seq<ConsensusItem>) -> Result<
    Seq<TransactionRecordView>,
    SessionFault,
>
    decreases items.len(),
{
    if items.len() == 0 {
        Ok(Seq::empty())
    } else {
        match session_transactions(table, items.drop_last()) {
            Err(e) => Err(e),
            Ok(records) => match items.last() {
                ConsensusItem::Transaction(transaction) => match decoded(table, &transaction) {
                    Ok(rows) => Ok(
                        records.push(
                            TransactionRecordView {
                                item_index: items.len() - 1,
                                transaction: rows,
                            },
                        ),
                    ),
                    Err(fault) => Err(SessionFault { item_index: items.len() - 1, fault }),
                },
                ConsensusItem::Other => Ok(records),
            },
        }
    }
}

/// What the session at `session_index` gives for commit: its index, its
/// bytes and the records of its transactions, or the first fault.
pub open spec fn session_record(
    table: &ModuleTable,
    session_index: u64,
    outcome: &SessionOutcome,
) -> Result<SessionRecordView, SessionFault> {
    match session_transactions(table, outcome.items@) {
        Err(e) => Err(e),
        Ok(transactions) => Ok(
            SessionRecordView {
                session_index: session_index as int,
                raw_outcome: outcome.raw@,
                transactions,
            },
        ),
    }
}

/// Whether `result` is what decoding the session may return.
pub open spec fn session_decodes_to(
    table: &ModuleTable,
    session_index: u64,
    outcome: &SessionOutcome,
    result: Result<SessionRecord, SessionError>,
) -> bool {
    match result {
        Ok(record) => session_record(table, session_index, outcome) == Ok::<
            SessionRecordView,
            SessionFault,
        >(record@),
        Err(e) => session_record(table, session_index, outcome) == Err::<
            SessionRecordView,
            SessionFault,
        >(e@),
    }
}

/// A fault among the first `upto` items is the fault of the whole session.
pub proof fn lemma_session_fault_stays(table: &ModuleTable, items: Seq<ConsensusItem>, upto: int)
    requires
        0 <= upto <= items.len(),
        session_transactions(table, items.take(upto)) is Err,
    ensures
        session_transactions(table, items) == session_transactions(table, items.take(upto)),
    decreases items.len() - upto,
{
    if upto == items.len() {
        assert(items.take(upto) =~= items);
    } else {
        assert(items.take(upto + 1).drop_last() =~= items.take(upto));
        lemma_session_fault_stays(table, items, upto + 1);
    }
}

/// Derives from one session everything that is committed with it.
pub fn decode_session(table: &ModuleTable, session_index: u64, outcome: &SessionOutcome) -> (result:
    Result<SessionRecord, SessionError>)
    ensures
        session_decodes_to(table, session_index, outcome, result),
{
    let mut transactions: Vec<TransactionRecord> = Vec::new();
    let mut i: usize = 0;
    assert(records_view(transactions@) =~= Seq::empty());
    assert(outcome.items@.take(0) =~= Seq::empty());
    while i < outcome.items.len()
        invariant
            i <= outcome.items.len(),
            session_transactions(table, outcome.items@.take(i as int)) == Ok::<
                Seq<TransactionRecordView>,
                SessionFault,
            >(records_view(transactions@)),
        decreases outcome.items.len() - i,
    {
        proof {
            let next = outcome.items@.take(i as int + 1);
            assert(next.drop_last() =~= outcome.items@.take(i as int));
            assert(next.last() == outcome.items@[i as int]);
        }
        match &outcome.items[i] {
            ConsensusItem::Transaction(transaction) => {
                match decode_transaction(table, transaction) {
                    Ok(rows) => {
                        let record = TransactionRecord { item_index: i as u64, transaction: rows };
                        proof {
                            assert(records_view(transactions@.push(record)) =~= records_view(
                                transactions@,
                            ).push(record@));
                        }
                        transactions.push(record);
                    },
                    Err(error) => {
                        proof {
                            lemma_session_fault_stays(table, outcome.items@, i as int + 1);
                        }
                        return Err(SessionError { item_index: i as u64, error });
                    },
                }
            },
            ConsensusItem::Other => {},
        }
        i += 1;
    }
    assert(outcome.items@.take(i as int) =~= outcome.items@);
    Ok(SessionRecord { session_index, raw_outcome: clone_bytes(&outcome.raw), transactions })
}

/// Decoding a session is deterministic: two results for the same session
/// under the same table are both failures with the same error, or both
/// records that hold the same index, bytes, transactions and rows.
pub proof fn lemma_session_deterministic(
    table: &ModuleTable,
    session_index: u64,
    outcome: &SessionOutcome,
    first: Result<SessionRecord, SessionError>,
    second: Result<SessionRecord, SessionError>,
)
    requires
        session_decodes_to(table, session_index, outcome, first),
        session_decodes_to(table, session_index, outcome, second),
    ensures
        first is Ok <==> second is Ok,
        first is Ok ==> first->Ok_0@ == second->Ok_0@,
        first is Err ==> first->Err_0@ == second->Err_0@,
{
}

/// The index at which ingestion resumes: one past the last persisted
/// session, or zero where none is persisted. There is none to resume at
/// once the last index a `u64` can hold is persisted.
pub fn resume_index(last_persisted: Option<u64>) -> (next: Option<u64>)
    ensures
        next == match last_persisted {
            None => Some(0u64),
            Some(last) => if last < u64::MAX {
                Some((last + 1) as u64)
            } else {
                None
            },
        },
{
    match last_persisted {
        None => Some(0),
        Some(last) => last.checked_add(1),
    }
}

/// The synchronizer of one federation's sessions, resuming at
/// `next_session`: the session log has no end.
pub fn session_synchronizer(next_session: u64) -> (sync: Synchronizer<SessionOutcome>)
    ensures
        sync@ == SyncView::<SessionOutcome>::initial(
            next_session as int,
            None,
            SESSION_WINDOW as nat,
        ),
        sync@.wf(),
{
    Synchronizer::new(next_session, None, SESSION_WINDOW)
}

} // verus!
