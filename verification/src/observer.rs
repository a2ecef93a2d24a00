//! The observer's projection: every registered federation with the sessions
//! committed for it, and the block times.
//!
//! A session enters the projection whole or not at all, and only as the one
//! that follows those already there, so that the sessions of a federation
//! are always those of the indices zero, one, two and so on without a gap.

use vstd::prelude::*;
use crate::assets::{assets_of, assets_of_sessions, sessions_view, AssetsError};
use crate::blocktime::{contiguous, offer, offer_outcome, Appended, BlockTime, BlockTimes};
use crate::query::{is_result_of, Cell, QueryResult};
use crate::registry::{AuthError, Federation, Registration};
use crate::session::{
    decode_session, session_record, SessionError, SessionFault, SessionOutcome, SessionRecord,
    SessionRecordView, TransactionRecordView,
};
use crate::text::{bytes_equal, clone_bytes, str_equals};

verus! {

/// A federation with the sessions committed for it.
#[derive(Debug)]
pub struct FederationLog {
    federation: Federation,
    sessions: Vec<SessionRecord>,
}

/// What a federation's log holds.
pub struct LogView {
    pub federation: Federation,
    pub sessions: Seq<SessionRecordView>,
}

impl View for FederationLog {
    type V = LogView;

    closed spec fn view(&self) -> LogView {
        LogView { federation: self.federation, sessions: sessions_view(self.sessions@) }
    }
}

/// What the projection holds.
pub struct ObserverView {
    pub admin_auth: Seq<char>,
    pub logs: Seq<LogView>,
    pub block_times: Seq<BlockTime>,
}

/// Why a session was not taken in.
#[derive(Clone, Copy, Debug, PartialEq, Eq, Structural)]
pub enum IngestError {
    /// No federation with this identifier is registered.
    UnknownFederation,
    /// The session is not the one that follows those committed; `expected`
    /// is the index of that one.
    OutOfOrder { expected: u64 },
    /// A transaction of the session violates the contract of its module.
    Decode(SessionError),
}

/// What an ingest error says.
pub enum IngestFault {
    UnknownFederation,
    OutOfOrder { expected: int },
    Decode(SessionFault),
}

impl View for IngestError {
    type V = IngestFault;

    open spec fn view(&self) -> IngestFault {
        match self {
            IngestError::UnknownFederation => IngestFault::UnknownFederation,
            IngestError::OutOfOrder { expected } => IngestFault::OutOfOrder {
                expected: *expected as int,
            },
            IngestError::Decode(e) => IngestFault::Decode(e@),
        }
    }
}

/// Whether the sessions are those of the indices from zero on, in order and
/// without a gap.
pub open spec fn gap_free(sessions: Seq<SessionRecordView>) -> bool {
    forall|i: int| 0 <= i < sessions.len() ==> (#[trigger] sessions[i]).session_index == i
}

impl ObserverView {
    /// Whether the log at `i` is that of the federation `id`.
    pub open spec fn holds_at(self, i: int, id: Seq<u8>) -> bool {
        0 <= i < self.logs.len() && self.logs[i].federation.id() == id
    }

    /// Whether a federation with this identifier is registered.
    pub open spec fn known(self, id: Seq<u8>) -> bool {
        exists|i: int| self.holds_at(i, id)
    }

    /// Where the log of a registered federation is.
    pub open spec fn place_of(self, id: Seq<u8>) -> int {
        choose|i: int| self.holds_at(i, id)
    }

    /// The sessions committed for a federation; none for one that is not
    /// registered.
    pub open spec fn sessions_of(self, id: Seq<u8>) -> Seq<SessionRecordView> {
        if self.known(id) {
            self.logs[self.place_of(id)].sessions
        } else {
            Seq::empty()
        }
    }

    /// What holds of every projection: no identifier is registered twice,
    /// the sessions of each federation are gap-free, and so are the block
    /// times.
    pub open spec fn wf(self) -> bool {
        &&& forall|i: int, j: int|
            0 <= i < j < self.logs.len() ==> (#[trigger] self.logs[i]).federation.id() != (
            #[trigger] self.logs[j]).federation.id()
        &&& forall|i: int| 0 <= i < self.logs.len() ==> gap_free((#[trigger] self.logs[i]).sessions)
        &&& contiguous(self.block_times)
    }

    /// The projection after a federation was offered for registration.
    pub open spec fn register(self, federation: Federation) -> ObserverView {
        if self.known(federation.id()) {
            self
        } else {
            ObserverView {
                logs: self.logs.push(LogView { federation, sessions: Seq::empty() }),
                ..self
            }
        }
    }

    /// What the session at `session_index` of the federation `id` gives for
    /// commit, or why it is not taken in.
    pub open spec fn prepared(self, id: Seq<u8>, session_index: u64, outcome: &SessionOutcome) -> Result<
        SessionRecordView,
        IngestFault,
    > {
        if !self.known(id) {
            Err(IngestFault::UnknownFederation)
        } else if session_index != self.sessions_of(id).len() {
            Err(IngestFault::OutOfOrder { expected: self.sessions_of(id).len() as int })
        } else {
            match session_record(
                &self.logs[self.place_of(id)].federation.config.modules,
                session_index,
                outcome,
            ) {
                Ok(record) => Ok(record),
                Err(fault) => Err(IngestFault::Decode(fault)),
            }
        }
    }

    /// Whether the record is the one to follow the sessions of `id`.
    pub open spec fn follows(self, id: Seq<u8>, record: SessionRecordView) -> bool {
        self.known(id) && record.session_index == self.sessions_of(id).len()
    }

    /// The projection after the record was committed for the federation
    /// `id`.
    pub open spec fn commit(self, id: Seq<u8>, record: SessionRecordView) -> ObserverView {
        let place = self.place_of(id);
        ObserverView {
            logs: self.logs.update(
                place,
                LogView {
                    federation: self.logs[place].federation,
                    sessions: self.logs[place].sessions.push(record),
                },
            ),
            ..self
        }
    }
}

impl ObserverView {
    /// In a well-formed projection a federation has one log only.
    pub proof fn lemma_one_log(self, id: Seq<u8>, i: int, j: int)
        requires
            self.wf(),
            self.holds_at(i, id),
            self.holds_at(j, id),
        ensures
            i == j,
    {
        if i < j {
            assert(self.logs[i].federation.id() != self.logs[j].federation.id());
        } else if j < i {
            assert(self.logs[j].federation.id() != self.logs[i].federation.id());
        }
    }

    /// Registration is idempotent: once a federation is offered, it is
    /// registered under its identifier in exactly one log; offering any
    /// federation with the same identifier again changes nothing, and the
    /// federations registered before stay as they were.
    pub proof fn lemma_register_idempotent(self, first: Federation, second: Federation)
        requires
            self.wf(),
            second.id() == first.id(),
        ensures
            self.register(first).wf(),
            self.register(first).known(first.id()),
            self.register(first).register(second) == self.register(first),
            self.known(first.id()) ==> self.register(first) == self,
            !self.known(first.id()) ==> self.register(first).logs.len() == self.logs.len() + 1,
            forall|i: int, j: int|
                self.register(first).holds_at(i, first.id()) && self.register(first).holds_at(
                    j,
                    first.id(),
                ) ==> i == j,
            forall|i: int|
                0 <= i < self.logs.len() ==> self.register(first).logs[i] == self.logs[i],
    {
        let after = self.register(first);
        if !self.known(first.id()) {
            assert(after.holds_at(self.logs.len() as int, first.id()));
            assert forall|i: int, j: int| 0 <= i < j < after.logs.len() implies (
            #[trigger] after.logs[i]).federation.id() != (#[trigger] after.logs[j]).federation.id() by {
                if j == self.logs.len() {
                    assert(!self.holds_at(i, first.id()));
                } else {
                    assert(after.logs[i] == self.logs[i]);
                    assert(after.logs[j] == self.logs[j]);
                }
            }
            assert forall|i: int| 0 <= i < after.logs.len() implies gap_free(
                (#[trigger] after.logs[i]).sessions,
            ) by {
                if i < self.logs.len() {
                    assert(after.logs[i] == self.logs[i]);
                }
            }
        }
        assert forall|i: int, j: int|
            after.holds_at(i, first.id()) && after.holds_at(j, first.id()) implies i == j by {
            after.lemma_one_log(first.id(), i, j);
        }
    }

    /// Commits keep the order: committing the record that follows appends it
    /// to the sessions of its federation, whose indices stay those from zero
    /// on without a gap, and touches no other federation.
    pub proof fn lemma_commit_in_order(self, id: Seq<u8>, record: SessionRecordView)
        requires
            self.wf(),
            self.follows(id, record),
        ensures
            self.commit(id, record).wf(),
            self.commit(id, record).sessions_of(id) == self.sessions_of(id).push(record),
            gap_free(self.commit(id, record).sessions_of(id)),
            forall|other: Seq<u8>|
                other != id ==> #[trigger] self.commit(id, record).sessions_of(other)
                    == self.sessions_of(other),
            forall|other: Seq<u8>| #[trigger]
                self.commit(id, record).known(other) == self.known(other),
    {
        let place = self.place_of(id);
        let after = self.commit(id, record);
        assert(self.holds_at(place, id));
        assert forall|i: int| 0 <= i < after.logs.len() implies (#[trigger] after.logs[i]).federation
            == self.logs[i].federation by {}
        assert forall|i: int, other: Seq<u8>| after.holds_at(i, other) == self.holds_at(
            i,
            other,
        ) by {
            if 0 <= i < self.logs.len() {
                assert(after.logs[i].federation == self.logs[i].federation);
            }
        }
        assert forall|other: Seq<u8>| #[trigger] after.known(other) == self.known(other) by {
            if self.known(other) {
                assert(after.holds_at(self.place_of(other), other));
            }
            if after.known(other) {
                assert(self.holds_at(after.place_of(other), other));
            }
        }
        assert forall|i: int, j: int| 0 <= i < j < after.logs.len() implies (
        #[trigger] after.logs[i]).federation.id() != (#[trigger] after.logs[j]).federation.id() by {
            assert(after.logs[i].federation == self.logs[i].federation);
            assert(after.logs[j].federation == self.logs[j].federation);
        }
        assert forall|i: int| 0 <= i < after.logs.len() implies gap_free(
            (#[trigger] after.logs[i]).sessions,
        ) by {
            if i != place {
                assert(after.logs[i] == self.logs[i]);
            }
        }
        assert(after.holds_at(place, id));
        after.lemma_one_log(id, place, after.place_of(id));
        assert forall|other: Seq<u8>| other != id implies #[trigger] after.sessions_of(other)
            == self.sessions_of(other) by {
            if self.known(other) {
                let at = self.place_of(other);
                assert(self.holds_at(at, other));
                assert(after.holds_at(at, other));
                after.lemma_one_log(other, at, after.place_of(other));
                assert(at != place);
            }
        }
    }

    /// The projection after the session at `session_index` was offered for
    /// the federation `id`: with its record committed where there is one,
    /// else as it was.
    pub open spec fn ingest(self, id: Seq<u8>, session_index: u64, outcome: &SessionOutcome) -> ObserverView {
        match self.prepared(id, session_index, outcome) {
            Ok(record) => self.commit(id, record),
            Err(_) => self,
        }
    }

    /// Commits are atomic and in order: a session that is refused or fails
    /// to decode leaves no trace, no part of it being held; one that is
    /// taken in is held whole, as the next session of its federation; and
    /// either way the projection stays well formed, so that the sessions of
    /// every federation are gap-free in whatever order sessions are offered.
    pub proof fn lemma_ingest_atomic(self, id: Seq<u8>, session_index: u64, outcome: &SessionOutcome)
        requires
            self.wf(),
        ensures
            self.ingest(id, session_index, outcome).wf(),
            self.prepared(id, session_index, outcome) is Err ==> self.ingest(
                id,
                session_index,
                outcome,
            ) == self,
            self.prepared(id, session_index, outcome) is Ok ==> self.ingest(
                id,
                session_index,
                outcome,
            ).sessions_of(id) == self.sessions_of(id).push(
                self.prepared(id, session_index, outcome)->Ok_0,
            ),
            self.prepared(id, session_index, outcome) is Ok ==> self.prepared(
                id,
                session_index,
                outcome,
            )->Ok_0.session_index == self.sessions_of(id).len(),
    {
        match self.prepared(id, session_index, outcome) {
            Ok(record) => {
                self.lemma_commit_in_order(id, record);
            },
            Err(_) => {},
        }
    }

    /// Resuming is idempotent: with the sessions zero up to `k - 1`
    /// committed for a federation, the sessions held are exactly those, the
    /// resume point is `k`, and a session below `k` that is offered again is
    /// refused, so that nothing is held twice.
    pub proof fn lemma_resume_refuses_replay(self, id: Seq<u8>, session_index: u64, outcome: &SessionOutcome)
        requires
            self.wf(),
            self.known(id),
            session_index < self.sessions_of(id).len(),
        ensures
            gap_free(self.sessions_of(id)),
            self.prepared(id, session_index, outcome) == Err::<SessionRecordView, IngestFault>(
                IngestFault::OutOfOrder { expected: self.sessions_of(id).len() as int },
            ),
    {
        assert(self.holds_at(self.place_of(id), id));
    }
}

/// One row of the transaction table.
#[derive(Clone, Debug, PartialEq, Eq)]
pub struct TransactionRow {
    pub txid: Vec<u8>,
    pub session_index: u64,
    pub item_index: u64,
    /// The transaction's consensus encoding.
    pub data: Vec<u8>,
}

/// What a transaction row holds.
pub struct TransactionRowView {
    pub txid: Seq<u8>,
    pub session_index: int,
    pub item_index: int,
    pub data: Seq<u8>,
}

impl View for TransactionRow {
    type V = TransactionRowView;

    open spec fn view(&self) -> TransactionRowView {
        TransactionRowView {
            txid: self.txid@,
            session_index: self.session_index as int,
            item_index: self.item_index as int,
            data: self.data@,
        }
    }
}

/// What a list of transaction rows holds.
pub open spec fn transaction_rows_view(rows: Seq<TransactionRow>) -> Seq<TransactionRowView> {
    rows.map_values(|row: TransactionRow| row@)
}

/// The transaction rows of one session, in item order.
pub open spec fn session_transaction_rows(session: SessionRecordView) -> Seq<TransactionRowView> {
    session.transactions.map_values(
        |record: TransactionRecordView|
            TransactionRowView {
                txid: record.transaction.txid,
                session_index: session.session_index,
                item_index: record.item_index,
                data: record.transaction.raw,
            },
    )
}

/// The transaction rows of a list of sessions: those of the first session,
/// then those of the second, and so on.
pub open spec fn transaction_rows(sessions: Seq<SessionRecordView>) -> Seq<TransactionRowView>
    decreases sessions.len(),
{
    if sessions.len() == 0 {
        Seq::empty()
    } else {
        transaction_rows(sessions.drop_last()) + session_transaction_rows(sessions.last())
    }
}

/// The projection.
#[derive(Debug)]
pub struct FederationObserver {
    admin_auth: String,
    logs: Vec<FederationLog>,
    block_times: BlockTimes,
}

impl View for FederationObserver {
    type V = ObserverView;

    closed spec fn view(&self) -> ObserverView {
        ObserverView {
            admin_auth: self.admin_auth@,
            logs: self.logs@.map_values(|log: FederationLog| log@),
            block_times: self.block_times@,
        }
    }
}

impl FederationObserver {
    /// An empty projection guarded by the given admin token.
    pub fn new(admin_auth: &str) -> (observer: FederationObserver)
        ensures
            observer@ == (ObserverView {
                admin_auth: admin_auth@,
                logs: Seq::empty(),
                block_times: Seq::empty(),
            }),
            observer@.wf(),
            forall|id: Seq<u8>| !(#[trigger] observer@.known(id)),
    {
        let observer = FederationObserver {
            admin_auth: admin_auth.to_owned(),
            logs: Vec::new(),
            block_times: BlockTimes::new(),
        };
        assert(observer@.logs =~= Seq::empty());
        observer
    }

    /// Where the log of the federation `id` is, if it is registered.
    fn find(&self, id: &Vec<u8>) -> (place: Option<usize>)
        requires
            self@.wf(),
        ensures
            match place {
                Some(i) => self@.known(id@) && i == self@.place_of(id@) && i < self.logs@.len(),
                None => !self@.known(id@),
            },
    {
        let mut i: usize = 0;
        while i < self.logs.len()
            invariant
                i <= self.logs.len(),
                self@.wf(),
                forall|j: int| 0 <= j < i ==> !self@.holds_at(j, id@),
            decreases self.logs.len() - i,
        {
            if bytes_equal(&self.logs[i].federation.federation_id, id) {
                proof {
                    let found = self@.place_of(id@);
                    assert(self@.holds_at(i as int, id@));
                    assert(self@.holds_at(found, id@));
                    assert(self@.logs[found].federation.id() == self@.logs[i as int].federation.id());
                }
                return Some(i);
            }
            i += 1;
        }
        None
    }

    /// Checks a bearer token against the admin token.
    pub fn check_auth(&self, bearer_token: &str) -> (result: Result<(), AuthError>)
        ensures
            result == if bearer_token@ == self@.admin_auth {
                Ok::<(), AuthError>(())
            } else {
                Err::<(), AuthError>(AuthError::InvalidToken)
            },
    {
        if str_equals(self.admin_auth.as_str(), bearer_token) {
            Ok(())
        } else {
            Err(AuthError::InvalidToken)
        }
    }

    /// All registered federations, in the order of their registration.
    pub fn list_federations(&self) -> (federations: Vec<&Federation>)
        ensures
            federations@.len() == self@.logs.len(),
            forall|i: int|
                0 <= i < self@.logs.len() ==> *(#[trigger] federations@[i]) == self@.logs[i].federation,
    {
        let mut federations: Vec<&Federation> = Vec::new();
        let mut i: usize = 0;
        while i < self.logs.len()
            invariant
                i <= self.logs.len(),
                federations@.len() == i,
                forall|k: int|
                    0 <= k < i ==> *(#[trigger] federations@[k]) == self@.logs[k].federation,
            decreases self.logs.len() - i,
        {
            federations.push(&self.logs[i].federation);
            i += 1;
        }
        federations
    }

    /// The federation with the given identifier, if it is registered.
    pub fn get_federation(&self, id: &Vec<u8>) -> (federation: Option<&Federation>)
        requires
            self@.wf(),
        ensures
            match federation {
                Some(found) => self@.known(id@) && *found == self@.logs[self@.place_of(
                    id@,
                )].federation,
                None => !self@.known(id@),
            },
    {
        match self.find(id) {
            Some(i) => Some(&self.logs[i].federation),
            None => None,
        }
    }

    /// Registers a federation, unless one with its identifier is registered
    /// already.
    pub fn add_federation(&mut self, federation: Federation) -> (outcome: Registration)
        requires
            old(self)@.wf(),
        ensures
            final(self)@.wf(),
            final(self)@ == old(self)@.register(federation),
            final(self)@.known(federation.id()),
            outcome == if old(self)@.known(federation.id()) {
                Registration::AlreadyRegistered
            } else {
                Registration::Registered
            },
    {
        match self.find(&federation.federation_id) {
            Some(_) => Registration::AlreadyRegistered,
            None => {
                let log = FederationLog { federation, sessions: Vec::new() };
                assert(log@.sessions =~= Seq::empty());
                self.logs.push(log);
                assert(final(self)@.logs =~= old(self)@.logs.push(log@));
                assert(final(self)@.holds_at(old(self)@.logs.len() as int, federation.id()));
                assert forall|i: int, j: int| 0 <= i < j < final(self)@.logs.len() implies (
                #[trigger] final(self)@.logs[i]).federation.id() != (#[trigger] final(self)@.logs[j]).federation.id() by {
                    if j == old(self)@.logs.len() {
                        assert(!old(self)@.holds_at(i, federation.id()));
                    }
                }
                Registration::Registered
            },
        }
    }

    /// How many sessions are committed for a federation: the index at which
    /// its synchronizer resumes. It is zero for a federation that is not
    /// registered.
    pub fn federation_session_count(&self, id: &Vec<u8>) -> (count: u64)
        requires
            self@.wf(),
        ensures
            count == self@.sessions_of(id@).len(),
    {
        match self.find(id) {
            Some(i) => self.logs[i].sessions.len() as u64,
            None => 0,
        }
    }

    /// Derives from a fetched session the record to commit, if the session
    /// is the one that follows those committed for its federation. Changes
    /// nothing.
    pub fn prepare_session(&self, id: &Vec<u8>, session_index: u64, outcome: &SessionOutcome) -> (result:
        Result<SessionRecord, IngestError>)
        requires
            self@.wf(),
        ensures
            match result {
                Ok(record) => self@.prepared(id@, session_index, outcome) == Ok::<
                    SessionRecordView,
                    IngestFault,
                >(record@),
                Err(e) => self@.prepared(id@, session_index, outcome) == Err::<
                    SessionRecordView,
                    IngestFault,
                >(e@),
            },
    {
        let place = match self.find(id) {
            Some(i) => i,
            None => {
                return Err(IngestError::UnknownFederation);
            },
        };
        let expected = self.logs[place].sessions.len() as u64;
        if session_index != expected {
            return Err(IngestError::OutOfOrder { expected });
        }
        match decode_session(&self.logs[place].federation.config.modules, session_index, outcome) {
            Ok(record) => Ok(record),
            Err(e) => Err(IngestError::Decode(e)),
        }
    }

    /// Commits a record for a federation, if it is the one that follows the
    /// sessions committed for it. A record that is not changes nothing.
    pub fn commit_session(&mut self, id: &Vec<u8>, record: SessionRecord) -> (result: Result<
        (),
        IngestError,
    >)
        requires
            old(self)@.wf(),
        ensures
            final(self)@.wf(),
            old(self)@.follows(id@, record@) ==> result is Ok && final(self)@ == old(self)@.commit(
                id@,
                record@,
            ),
            !old(self)@.follows(id@, record@) ==> result is Err && final(self)@ == old(self)@,
            !old(self)@.known(id@) ==> result == Err::<(), IngestError>(
                IngestError::UnknownFederation,
            ),
            old(self)@.known(id@) && !old(self)@.follows(id@, record@) ==> result == Err::<
                (),
                IngestError,
            >(IngestError::OutOfOrder { expected: old(self)@.sessions_of(id@).len() as u64 }),
    {
        let place = match self.find(id) {
            Some(i) => i,
            None => {
                return Err(IngestError::UnknownFederation);
            },
        };
        let expected = self.logs[place].sessions.len() as u64;
        if record.session_index != expected {
            return Err(IngestError::OutOfOrder { expected });
        }
        let ghost before = self.logs@[place as int]@;
        self.logs[place].sessions.push(record);
        proof {
            let after = LogView { federation: before.federation, sessions: before.sessions.push(record@) };
            assert(self.logs@[place as int]@.sessions =~= before.sessions.push(record@));
            assert(self@.logs =~= old(self)@.logs.update(place as int, after));
            assert forall|i: int| 0 <= i < self@.logs.len() implies gap_free(
                (#[trigger] self@.logs[i]).sessions,
            ) by {
                if i != place {
                    assert(self@.logs[i] == old(self)@.logs[i]);
                }
            }
            assert forall|i: int, j: int| 0 <= i < j < self@.logs.len() implies (
            #[trigger] self@.logs[i]).federation.id() != (#[trigger] self@.logs[j]).federation.id() by {
                assert(self@.logs[i].federation == old(self)@.logs[i].federation);
                assert(self@.logs[j].federation == old(self)@.logs[j].federation);
            }
        }
        Ok(())
    }

    /// Takes in one fetched session: derives its record and commits it. The
    /// session enters whole or not at all: where it is refused or fails to
    /// decode, the projection is as it was.
    pub fn process_session(&mut self, id: &Vec<u8>, session_index: u64, outcome: &SessionOutcome) -> (result:
        Result<(), IngestError>)
        requires
            old(self)@.wf(),
        ensures
            final(self)@.wf(),
            final(self)@ == old(self)@.ingest(id@, session_index, outcome),
            match old(self)@.prepared(id@, session_index, outcome) {
                Ok(record) => result is Ok && final(self)@ == old(self)@.commit(id@, record),
                Err(fault) => result is Err && result->Err_0@ == fault && final(self)@ == old(self)@,
            },
    {
        let record = match self.prepare_session(id, session_index, outcome) {
            Ok(record) => record,
            Err(e) => {
                return Err(e);
            },
        };
        self.commit_session(id, record)
    }

    /// The assets of a federation: what the inputs of its on-chain module
    /// brought in less what the outputs of that module paid out, over all
    /// sessions committed for it.
    pub fn get_federation_assets(&self, id: &Vec<u8>) -> (assets: Result<u64, AssetsError>)
        requires
            self@.wf(),
        ensures
            assets == assets_of(self@.sessions_of(id@)),
    {
        match self.find(id) {
            Some(i) => assets_of_sessions(&self.logs[i].sessions),
            None => {
                let none: Vec<SessionRecord> = Vec::new();
                assert(sessions_view(none@) =~= Seq::empty());
                assets_of_sessions(&none)
            },
        }
    }

    /// The transactions of a federation, in the order of their sessions and,
    /// within a session, of their items. There are none for a federation
    /// that is not registered.
    pub fn list_federation_transactions(&self, id: &Vec<u8>) -> (rows: Vec<TransactionRow>)
        requires
            self@.wf(),
        ensures
            transaction_rows_view(rows@) == transaction_rows(self@.sessions_of(id@)),
    {
        let mut rows: Vec<TransactionRow> = Vec::new();
        assert(transaction_rows_view(rows@) =~= Seq::empty());
        let place = match self.find(id) {
            Some(i) => i,
            None => {
                return rows;
            },
        };
        let sessions = &self.logs[place].sessions;
        let ghost all = sessions_view(sessions@);
        assert(all == self@.sessions_of(id@));
        assert(all.take(0) =~= Seq::empty());
        let mut i: usize = 0;
        while i < sessions.len()
            invariant
                i <= sessions.len(),
                all == sessions_view(sessions@),
                transaction_rows_view(rows@) == transaction_rows(all.take(i as int)),
            decreases sessions.len() - i,
        {
            let session = &sessions[i];
            let ghost head = transaction_rows(all.take(i as int));
            let ghost part = session_transaction_rows(session@);
            proof {
                assert(all.take(i as int + 1).drop_last() =~= all.take(i as int));
                assert(all.take(i as int + 1).last() == session@);
            }
            let mut j: usize = 0;
            assert(head + part.take(0) =~= head);
            while j < session.transactions.len()
                invariant
                    j <= session.transactions.len(),
                    part == session_transaction_rows(session@),
                    part.len() == session.transactions@.len(),
                    transaction_rows_view(rows@) == head + part.take(j as int),
                decreases session.transactions.len() - j,
            {
                let record = &session.transactions[j];
                let row = TransactionRow {
                    txid: clone_bytes(&record.transaction.txid),
                    session_index: session.session_index,
                    item_index: record.item_index,
                    data: clone_bytes(&record.transaction.raw),
                };
                proof {
                    assert(part[j as int] == row@);
                    assert(transaction_rows_view(rows@.push(row)) =~= transaction_rows_view(
                        rows@,
                    ).push(row@));
                    assert((head + part.take(j as int)).push(row@) =~= head + part.take(
                        j as int + 1,
                    ));
                }
                rows.push(row);
                j += 1;
            }
            assert(part.take(j as int) =~= part);
            i += 1;
        }
        assert(all.take(i as int) =~= all);
        rows
    }

    /// Builds the result of an ad hoc query from the rows it fetched.
    pub fn run_qery(&self, rows: &Vec<Vec<Cell>>) -> (result: QueryResult)
        ensures
            is_result_of(&result, rows@),
    {
        QueryResult::from_rows(rows)
    }

    /// The highest block height that has a time, if any has.
    pub fn last_fetched_block_height(&self) -> (last: Option<u64>)
        requires
            self@.wf(),
        ensures
            last == if self@.block_times.len() == 0 {
                None
            } else {
                Some(self@.block_times.last().height as u64)
            },
    {
        self.block_times.last_height()
    }

    /// Offers a block time to the index. Only the row of the next height is
    /// added; any other changes nothing.
    pub fn record_block_time(&mut self, row: BlockTime) -> (outcome: Appended)
        requires
            old(self)@.wf(),
        ensures
            final(self)@.wf(),
            final(self)@ == (ObserverView {
                block_times: offer(old(self)@.block_times, row),
                ..old(self)@
            }),
            outcome == offer_outcome(old(self)@.block_times, row),
    {
        self.block_times.append(row)
    }
}

} // verus!
