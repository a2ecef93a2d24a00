//! The transaction decoder: a pure mapping from the module-tagged inputs and
//! outputs of one transaction to normalized rows.
//!
//! Every item names a module instance. The federation's module table says of
//! which kind that instance is, and the kind decides how the payload is read.
//! An item of a kind the decoder does not know still gives a row, with the
//! kind recorded and neither subtype nor amount. A payload that does not
//! belong to the kind its instance declares is a fault that fails the whole
//! transaction.

use vstd::prelude::*;
use crate::text::{clone_bytes, str_equals};

verus! {

/// Millisatoshi per satoshi.
pub const MSAT_PER_SAT: u64 = 1000;

/// The module kinds the decoder tells apart.
#[derive(Clone, Copy, Debug, PartialEq, Eq, Structural)]
pub enum ModuleKind {
    Lightning,
    Mint,
    Wallet,
    Unrecognized,
}

/// The kind that a kind name stands for.
pub open spec fn kind_of(name: Seq<char>) -> ModuleKind {
    if name == "ln"@ {
        ModuleKind::Lightning
    } else if name == "mint"@ {
        ModuleKind::Mint
    } else if name == "wallet"@ {
        ModuleKind::Wallet
    } else {
        ModuleKind::Unrecognized
    }
}

/// The name recorded for an instance that the module table does not list.
pub open spec fn unlisted_kind() -> Seq<char> {
    "not-in-config"@
}

/// Classifies a kind name.
pub fn classify(name: &str) -> (kind: ModuleKind)
    ensures
        kind == kind_of(name@),
{
    if str_equals(name, "ln") {
        ModuleKind::Lightning
    } else if str_equals(name, "mint") {
        ModuleKind::Mint
    } else if str_equals(name, "wallet") {
        ModuleKind::Wallet
    } else {
        ModuleKind::Unrecognized
    }
}

/// One line of a federation's module table: an instance and its kind name.
#[derive(Clone, Debug, PartialEq, Eq)]
pub struct ModuleEntry {
    pub instance_id: u16,
    pub kind: String,
}

/// The static instance-to-kind table carried in a federation's config.
#[derive(Clone, Debug, PartialEq, Eq)]
pub struct ModuleTable {
    pub entries: Vec<ModuleEntry>,
}

/// The kind name that a list of entries gives an instance: that of the first
/// entry for it, or `unlisted_kind` where there is none.
pub open spec fn resolve_in(entries: Seq<ModuleEntry>, instance_id: u16) -> Seq<char>
    decreases entries.len(),
{
    if entries.len() == 0 {
        unlisted_kind()
    } else if entries[0].instance_id == instance_id {
        entries[0].kind@
    } else {
        resolve_in(entries.skip(1), instance_id)
    }
}

impl ModuleTable {
    /// The kind name of an instance under this table.
    pub open spec fn kind_name(&self, instance_id: u16) -> Seq<char> {
        resolve_in(self.entries@, instance_id)
    }

    /// An empty table: every instance is unlisted.
    pub fn new() -> (table: ModuleTable)
        ensures
            table.entries@.len() == 0,
    {
        ModuleTable { entries: Vec::new() }
    }

    /// Appends an entry. An instance listed before keeps its first kind.
    pub fn push(&mut self, instance_id: u16, kind: String)
        ensures
            final(self).entries@ == old(self).entries@.push(ModuleEntry { instance_id, kind }),
    {
        self.entries.push(ModuleEntry { instance_id, kind });
    }

    /// Looks up the kind name of an instance.
    pub fn resolve(&self, instance_id: u16) -> (name: String)
        ensures
            name@ == self.kind_name(instance_id),
    {
        let mut i: usize = 0;
        assert(self.entries@.skip(0) =~= self.entries@);
        while i < self.entries.len()
            invariant
                i <= self.entries.len(),
                resolve_in(self.entries@, instance_id) == resolve_in(
                    self.entries@.skip(i as int),
                    instance_id,
                ),
            decreases self.entries.len() - i,
        {
            if self.entries[i].instance_id == instance_id {
                return self.entries[i].kind.clone();
            }
            assert(self.entries@.skip(i as int).skip(1) =~= self.entries@.skip(i as int + 1));
            i += 1;
        }
        "not-in-config".to_owned()
    }
}

/// What an input carries, as far as the decoder reads it.
#[derive(Clone, Copy, Debug, PartialEq, Eq, Structural)]
pub enum InputPayload {
    /// A lightning input spending `amount_msat` from a contract.
    Lightning { amount_msat: u64 },
    /// A note spend of the custodial-note module.
    Mint { amount_msat: u64 },
    /// A peg-in whose on-chain output holds `value_sat` satoshi.
    Wallet { value_sat: u64 },
    /// A payload of no shape known to the decoder.
    Opaque,
}

/// Which way a lightning contract points.
#[derive(Clone, Copy, Debug, PartialEq, Eq, Structural)]
pub enum Subtype {
    Incoming,
    Outgoing,
}

impl Subtype {
    /// The name under which the subtype is recorded.
    pub open spec fn label_text(self) -> Seq<char> {
        match self {
            Subtype::Incoming => "incoming"@,
            Subtype::Outgoing => "outgoing"@,
        }
    }

    /// The name under which the subtype is recorded.
    pub fn label(&self) -> (text: &'static str)
        ensures
            text@ == self.label_text(),
    {
        match self {
            Subtype::Incoming => "incoming",
            Subtype::Outgoing => "outgoing",
        }
    }
}

/// What an output carries, as far as the decoder reads it.
#[derive(Clone, Copy, Debug, PartialEq, Eq, Structural)]
pub enum OutputPayload {
    /// A lightning output funding a contract.
    LightningContract { direction: Subtype, amount_msat: u64 },
    /// A lightning offer: control only, moves no funds.
    LightningOffer,
    /// The cancellation of an outgoing lightning contract: control only.
    LightningCancelOutgoing,
    /// A note issuance of the custodial-note module.
    Mint { amount_msat: u64 },
    /// A peg-out of `amount_sat` satoshi.
    Wallet { amount_sat: u64 },
    /// A payload of no shape known to the decoder.
    Opaque,
}

/// One input of a transaction.
#[derive(Clone, Copy, Debug, PartialEq, Eq, Structural)]
pub struct ModuleInput {
    pub instance_id: u16,
    pub payload: InputPayload,
}

/// One output of a transaction.
#[derive(Clone, Copy, Debug, PartialEq, Eq, Structural)]
pub struct ModuleOutput {
    pub instance_id: u16,
    pub payload: OutputPayload,
}

/// Why an item could not be decoded.
#[derive(Clone, Copy, Debug, PartialEq, Eq, Structural)]
pub enum Fault {
    /// The payload is not one of the kind that its instance declares.
    Mismatch,
    /// The on-chain value does not fit into 64 bits of millisatoshi.
    Overflow,
}

/// On which side of the transaction a fault was found.
#[derive(Clone, Copy, Debug, PartialEq, Eq, Structural)]
pub enum Side {
    Input,
    Output,
}

/// A decode integrity error: the first item that violates the contract of its
/// own module.
#[derive(Clone, Copy, Debug, PartialEq, Eq, Structural)]
pub struct DecodeError {
    pub side: Side,
    pub position: u64,
    pub fault: Fault,
}

/// What a decode error says: the side, the place and the fault.
pub struct RowFault {
    pub side: Side,
    pub position: int,
    pub fault: Fault,
}

impl View for DecodeError {
    type V = RowFault;

    open spec fn view(&self) -> RowFault {
        RowFault { side: self.side, position: self.position as int, fault: self.fault }
    }
}

/// The subtype and the amount of a decoded item.
#[derive(Clone, Copy, Debug, PartialEq, Eq, Structural)]
pub struct Fields {
    pub subtype: Option<Subtype>,
    pub amount_msat: Option<u64>,
}

/// Satoshi to millisatoshi, where the product fits.
pub open spec fn sat_to_msat(sat: u64) -> Result<u64, Fault> {
    if sat * MSAT_PER_SAT <= u64::MAX {
        Ok((sat * MSAT_PER_SAT) as u64)
    } else {
        Err(Fault::Overflow)
    }
}

/// What an input of the given kind decodes to. Inputs never have a subtype.
pub open spec fn input_fields(kind: ModuleKind, payload: InputPayload) -> Result<Fields, Fault> {
    match kind {
        ModuleKind::Lightning => match payload {
            InputPayload::Lightning { amount_msat } => Ok(
                Fields { subtype: None, amount_msat: Some(amount_msat) },
            ),
            _ => Err(Fault::Mismatch),
        },
        ModuleKind::Mint => match payload {
            InputPayload::Mint { amount_msat } => Ok(
                Fields { subtype: None, amount_msat: Some(amount_msat) },
            ),
            _ => Err(Fault::Mismatch),
        },
        ModuleKind::Wallet => match payload {
            InputPayload::Wallet { value_sat } => match sat_to_msat(value_sat) {
                Ok(msat) => Ok(Fields { subtype: None, amount_msat: Some(msat) }),
                Err(fault) => Err(fault),
            },
            _ => Err(Fault::Mismatch),
        },
        ModuleKind::Unrecognized => Ok(Fields { subtype: None, amount_msat: None }),
    }
}

/// What an output of the given kind decodes to.
pub open spec fn output_fields(kind: ModuleKind, payload: OutputPayload) -> Result<Fields, Fault> {
    match kind {
        ModuleKind::Lightning => match payload {
            OutputPayload::LightningContract { direction, amount_msat } => Ok(
                Fields { subtype: Some(direction), amount_msat: Some(amount_msat) },
            ),
            OutputPayload::LightningOffer => Ok(Fields { subtype: None, amount_msat: Some(0) }),
            OutputPayload::LightningCancelOutgoing => Ok(
                Fields { subtype: None, amount_msat: Some(0) },
            ),
            _ => Err(Fault::Mismatch),
        },
        ModuleKind::Mint => match payload {
            OutputPayload::Mint { amount_msat } => Ok(
                Fields { subtype: None, amount_msat: Some(amount_msat) },
            ),
            _ => Err(Fault::Mismatch),
        },
        ModuleKind::Wallet => match payload {
            OutputPayload::Wallet { amount_sat } => match sat_to_msat(amount_sat) {
                Ok(msat) => Ok(Fields { subtype: None, amount_msat: Some(msat) }),
                Err(fault) => Err(fault),
            },
            _ => Err(Fault::Mismatch),
        },
        ModuleKind::Unrecognized => Ok(Fields { subtype: None, amount_msat: None }),
    }
}

/// Converts satoshi to millisatoshi.
pub fn to_msat(sat: u64) -> (msat: Result<u64, Fault>)
    ensures
        msat == sat_to_msat(sat),
{
    match sat.checked_mul(MSAT_PER_SAT) {
        Some(product) => Ok(product),
        None => Err(Fault::Overflow),
    }
}

/// Decodes the payload of one input whose kind is known.
pub fn decode_input(kind: ModuleKind, payload: InputPayload) -> (fields: Result<Fields, Fault>)
    ensures
        fields == input_fields(kind, payload),
{
    match kind {
        ModuleKind::Lightning => match payload {
            InputPayload::Lightning { amount_msat } => Ok(
                Fields { subtype: None, amount_msat: Some(amount_msat) },
            ),
            _ => Err(Fault::Mismatch),
        },
        ModuleKind::Mint => match payload {
            InputPayload::Mint { amount_msat } => Ok(
                Fields { subtype: None, amount_msat: Some(amount_msat) },
            ),
            _ => Err(Fault::Mismatch),
        },
        ModuleKind::Wallet => match payload {
            InputPayload::Wallet { value_sat } => match to_msat(value_sat) {
                Ok(msat) => Ok(Fields { subtype: None, amount_msat: Some(msat) }),
                Err(fault) => Err(fault),
            },
            _ => Err(Fault::Mismatch),
        },
        ModuleKind::Unrecognized => Ok(Fields { subtype: None, amount_msat: None }),
    }
}

/// Decodes the payload of one output whose kind is known.
pub fn decode_output(kind: ModuleKind, payload: OutputPayload) -> (fields: Result<Fields, Fault>)
    ensures
        fields == output_fields(kind, payload),
{
    match kind {
        ModuleKind::Lightning => match payload {
            OutputPayload::LightningContract { direction, amount_msat } => Ok(
                Fields { subtype: Some(direction), amount_msat: Some(amount_msat) },
            ),
            OutputPayload::LightningOffer => Ok(Fields { subtype: None, amount_msat: Some(0) }),
            OutputPayload::LightningCancelOutgoing => Ok(
                Fields { subtype: None, amount_msat: Some(0) },
            ),
            _ => Err(Fault::Mismatch),
        },
        ModuleKind::Mint => match payload {
            OutputPayload::Mint { amount_msat } => Ok(
                Fields { subtype: None, amount_msat: Some(amount_msat) },
            ),
            _ => Err(Fault::Mismatch),
        },
        ModuleKind::Wallet => match payload {
            OutputPayload::Wallet { amount_sat } => match to_msat(amount_sat) {
                Ok(msat) => Ok(Fields { subtype: None, amount_msat: Some(msat) }),
                Err(fault) => Err(fault),
            },
            _ => Err(Fault::Mismatch),
        },
        ModuleKind::Unrecognized => Ok(Fields { subtype: None, amount_msat: None }),
    }
}

/// One normalized row of the input or the output table.
#[derive(Clone, Debug, PartialEq, Eq)]
pub struct IoRow {
    /// The item's place among the inputs, or the outputs, of its transaction.
    pub position: u64,
    /// The kind name of the item's module instance, as the table gives it.
    pub kind: String,
    pub subtype: Option<Subtype>,
    pub amount_msat: Option<u64>,
}

/// What a row holds.
pub struct IoRowView {
    pub position: int,
    pub kind: Seq<char>,
    pub subtype: Option<Subtype>,
    pub amount_msat: Option<u64>,
}

impl View for IoRow {
    type V = IoRowView;

    open spec fn view(&self) -> IoRowView {
        IoRowView {
            position: self.position as int,
            kind: self.kind@,
            subtype: self.subtype,
            amount_msat: self.amount_msat,
        }
    }
}

/// What a list of rows holds.
pub open spec fn rows_view(rows: Seq<IoRow>) -> Seq<IoRowView> {
    rows.map_values(|row: IoRow| row@)
}

/// The row of the input at `position`, or the fault that it raises.
pub open spec fn input_row(table: &ModuleTable, input: ModuleInput, position: int) -> Result<
    IoRowView,
    RowFault,
> {
    let name = table.kind_name(input.instance_id);
    match input_fields(kind_of(name), input.payload) {
        Ok(fields) => Ok(
            IoRowView {
                position,
                kind: name,
                subtype: fields.subtype,
                amount_msat: fields.amount_msat,
            },
        ),
        Err(fault) => Err(RowFault { side: Side::Input, position, fault }),
    }
}

/// The row of the output at `position`, or the fault that it raises.
pub open spec fn output_row(table: &ModuleTable, output: ModuleOutput, position: int) -> Result<
    IoRowView,
    RowFault,
> {
    let name = table.kind_name(output.instance_id);
    match output_fields(kind_of(name), output.payload) {
        Ok(fields) => Ok(
            IoRowView {
                position,
                kind: name,
                subtype: fields.subtype,
                amount_msat: fields.amount_msat,
            },
        ),
        Err(fault) => Err(RowFault { side: Side::Output, position, fault }),
    }
}

/// The rows of a list of inputs in order, or the fault of the first input
/// that raises one.
pub open spec fn input_rows(table: &ModuleTable, inputs: Seq<ModuleInput>) -> Result<
    Seq<IoRowView>,
    RowFault,
>
    decreases inputs.len(),
{
    if inputs.len() == 0 {
        Ok(Seq::empty())
    } else {
        match input_rows(table, inputs.drop_last()) {
            Err(e) => Err(e),
            Ok(rows) => match input_row(table, inputs.last(), inputs.len() - 1) {
                Ok(row) => Ok(rows.push(row)),
                Err(e) => Err(e),
            },
        }
    }
}

/// The rows of a list of outputs in order, or the fault of the first output
/// that raises one.
pub open spec fn output_rows(table: &ModuleTable, outputs: Seq<ModuleOutput>) -> Result<
    Seq<IoRowView>,
    RowFault,
>
    decreases outputs.len(),
{
    if outputs.len() == 0 {
        Ok(Seq::empty())
    } else {
        match output_rows(table, outputs.drop_last()) {
            Err(e) => Err(e),
            Ok(rows) => match output_row(table, outputs.last(), outputs.len() - 1) {
                Ok(row) => Ok(rows.push(row)),
                Err(e) => Err(e),
            },
        }
    }
}

/// A transaction as the session log carries it.
#[derive(Clone, Debug, PartialEq, Eq)]
pub struct Transaction {
    /// The transaction's hash.
    pub txid: Vec<u8>,
    /// The transaction's consensus encoding.
    pub raw: Vec<u8>,
    pub inputs: Vec<ModuleInput>,
    pub outputs: Vec<ModuleOutput>,
}

/// A transaction with the rows derived from it.
#[derive(Clone, Debug, PartialEq, Eq)]
pub struct DecodedTransaction {
    pub txid: Vec<u8>,
    pub raw: Vec<u8>,
    pub inputs: Vec<IoRow>,
    pub outputs: Vec<IoRow>,
}

/// What a decoded transaction holds.
pub struct DecodedView {
    pub txid: Seq<u8>,
    pub raw: Seq<u8>,
    pub inputs: Seq<IoRowView>,
    pub outputs: Seq<IoRowView>,
}

impl View for DecodedTransaction {
    type V = DecodedView;

    open spec fn view(&self) -> DecodedView {
        DecodedView {
            txid: self.txid@,
            raw: self.raw@,
            inputs: rows_view(self.inputs@),
            outputs: rows_view(self.outputs@),
        }
    }
}

/// What a transaction decodes to under a module table: its hash and bytes
/// with the rows of all inputs and all outputs, or the first fault, the
/// inputs being read before the outputs.
pub open spec fn decoded(table: &ModuleTable, transaction: &Transaction) -> Result<
    DecodedView,
    RowFault,
> {
    match input_rows(table, transaction.inputs@) {
        Err(e) => Err(e),
        Ok(inputs) => match output_rows(table, transaction.outputs@) {
            Err(e) => Err(e),
            Ok(outputs) => Ok(
                DecodedView { txid: transaction.txid@, raw: transaction.raw@, inputs, outputs },
            ),
        },
    }
}

/// Decodes the inputs of a transaction into rows.
pub fn decode_inputs(table: &ModuleTable, inputs: &Vec<ModuleInput>) -> (result: Result<
    Vec<IoRow>,
    DecodeError,
>)
    ensures
        match result {
            Ok(rows) => input_rows(table, inputs@) == Ok::<Seq<IoRowView>, RowFault>(
                rows_view(rows@),
            ),
            Err(e) => input_rows(table, inputs@) == Err::<Seq<IoRowView>, RowFault>(e@),
        },
{
    let mut rows: Vec<IoRow> = Vec::new();
    let mut i: usize = 0;
    assert(rows_view(rows@) =~= Seq::empty());
    assert(inputs@.take(0) =~= Seq::empty());
    while i < inputs.len()
        invariant
            i <= inputs.len(),
            input_rows(table, inputs@.take(i as int)) == Ok::<Seq<IoRowView>, RowFault>(
                rows_view(rows@),
            ),
        decreases inputs.len() - i,
    {
        let input = inputs[i];
        let name = table.resolve(input.instance_id);
        proof {
            let next = inputs@.take(i as int + 1);
            assert(next.drop_last() =~= inputs@.take(i as int));
            assert(next.last() == input);
        }
        match decode_input(classify(name.as_str()), input.payload) {
            Ok(fields) => {
                let row = IoRow {
                    position: i as u64,
                    kind: name,
                    subtype: fields.subtype,
                    amount_msat: fields.amount_msat,
                };
                proof {
                    assert(rows_view(rows@.push(row)) =~= rows_view(rows@).push(row@));
                }
                rows.push(row);
            },
            Err(fault) => {
                proof {
                    lemma_input_fault_stays(table, inputs@, i as int + 1);
                }
                return Err(DecodeError { side: Side::Input, position: i as u64, fault });
            },
        }
        i += 1;
    }
    assert(inputs@.take(i as int) =~= inputs@);
    Ok(rows)
}

/// Decodes the outputs of a transaction into rows.
pub fn decode_outputs(table: &ModuleTable, outputs: &Vec<ModuleOutput>) -> (result: Result<
    Vec<IoRow>,
    DecodeError,
>)
    ensures
        match result {
            Ok(rows) => output_rows(table, outputs@) == Ok::<Seq<IoRowView>, RowFault>(
                rows_view(rows@),
            ),
            Err(e) => output_rows(table, outputs@) == Err::<Seq<IoRowView>, RowFault>(e@),
        },
{
    let mut rows: Vec<IoRow> = Vec::new();
    let mut i: usize = 0;
    assert(rows_view(rows@) =~= Seq::empty());
    assert(outputs@.take(0) =~= Seq::empty());
    while i < outputs.len()
        invariant
            i <= outputs.len(),
            output_rows(table, outputs@.take(i as int)) == Ok::<Seq<IoRowView>, RowFault>(
                rows_view(rows@),
            ),
        decreases outputs.len() - i,
    {
        let output = outputs[i];
        let name = table.resolve(output.instance_id);
        proof {
            let next = outputs@.take(i as int + 1);
            assert(next.drop_last() =~= outputs@.take(i as int));
            assert(next.last() == output);
        }
        match decode_output(classify(name.as_str()), output.payload) {
            Ok(fields) => {
                let row = IoRow {
                    position: i as u64,
                    kind: name,
                    subtype: fields.subtype,
                    amount_msat: fields.amount_msat,
                };
                proof {
                    assert(rows_view(rows@.push(row)) =~= rows_view(rows@).push(row@));
                }
                rows.push(row);
            },
            Err(fault) => {
                proof {
                    lemma_output_fault_stays(table, outputs@, i as int + 1);
                }
                return Err(DecodeError { side: Side::Output, position: i as u64, fault });
            },
        }
        i += 1;
    }
    assert(outputs@.take(i as int) =~= outputs@);
    Ok(rows)
}

/// Decodes one transaction under a federation's module table.
pub fn decode_transaction(table: &ModuleTable, transaction: &Transaction) -> (result: Result<
    DecodedTransaction,
    DecodeError,
>)
    ensures
        decodes_to(table, transaction, result),
{
    let inputs = match decode_inputs(table, &transaction.inputs) {
        Ok(rows) => rows,
        Err(e) => {
            return Err(e);
        },
    };
    let outputs = match decode_outputs(table, &transaction.outputs) {
        Ok(rows) => rows,
        Err(e) => {
            return Err(e);
        },
    };
    Ok(
        DecodedTransaction {
            txid: clone_bytes(&transaction.txid),
            raw: clone_bytes(&transaction.raw),
            inputs,
            outputs,
        },
    )
}

/// A fault among the first `upto` inputs is the fault of the whole list.
pub proof fn lemma_input_fault_stays(table: &ModuleTable, inputs: Seq<ModuleInput>, upto: int)
    requires
        0 <= upto <= inputs.len(),
        input_rows(table, inputs.take(upto)) is Err,
    ensures
        input_rows(table, inputs) == input_rows(table, inputs.take(upto)),
    decreases inputs.len() - upto,
{
    if upto == inputs.len() {
        assert(inputs.take(upto) =~= inputs);
    } else {
        assert(inputs.take(upto + 1).drop_last() =~= inputs.take(upto));
        lemma_input_fault_stays(table, inputs, upto + 1);
    }
}

/// A fault among the first `upto` outputs is the fault of the whole list.
pub proof fn lemma_output_fault_stays(table: &ModuleTable, outputs: Seq<ModuleOutput>, upto: int)
    requires
        0 <= upto <= outputs.len(),
        output_rows(table, outputs.take(upto)) is Err,
    ensures
        output_rows(table, outputs) == output_rows(table, outputs.take(upto)),
    decreases outputs.len() - upto,
{
    if upto == outputs.len() {
        assert(outputs.take(upto) =~= outputs);
    } else {
        assert(outputs.take(upto + 1).drop_last() =~= outputs.take(upto));
        lemma_output_fault_stays(table, outputs, upto + 1);
    }
}

/// What `input_rows` gives, item by item: on success one row for each input,
/// in order; on failure the fault of the first input that raises one.
pub proof fn lemma_input_rows(table: &ModuleTable, inputs: Seq<ModuleInput>)
    ensures
        match input_rows(table, inputs) {
            Ok(rows) => {
                &&& rows.len() == inputs.len()
                &&& forall|i: int|
                    0 <= i < inputs.len() ==> input_row(table, #[trigger] inputs[i], i) == Ok::<
                        IoRowView,
                        RowFault,
                    >(rows[i])
            },
            Err(e) => {
                &&& 0 <= e.position < inputs.len()
                &&& input_row(table, inputs[e.position], e.position) == Err::<
                    IoRowView,
                    RowFault,
                >(e)
                &&& forall|i: int|
                    0 <= i < e.position ==> input_row(table, #[trigger] inputs[i], i) is Ok
            },
        },
    decreases inputs.len(),
{
    if inputs.len() > 0 {
        let prev = inputs.drop_last();
        lemma_input_rows(table, prev);
        assert forall|i: int| 0 <= i < prev.len() implies #[trigger] prev[i] == inputs[i] by {}
        match input_rows(table, prev) {
            Err(e) => {
                assert(prev[e.position] == inputs[e.position]);
                assert forall|i: int| 0 <= i < e.position implies input_row(
                    table,
                    #[trigger] inputs[i],
                    i,
                ) is Ok by {
                    assert(prev[i] == inputs[i]);
                }
            },
            Ok(rows) => {
                match input_row(table, inputs.last(), inputs.len() - 1) {
                    Ok(row) => {
                        let all = rows.push(row);
                        assert forall|i: int| 0 <= i < inputs.len() implies input_row(
                            table,
                            #[trigger] inputs[i],
                            i,
                        ) == Ok::<IoRowView, RowFault>(all[i]) by {
                            if i < prev.len() {
                                assert(prev[i] == inputs[i]);
                            }
                        }
                    },
                    Err(e) => {
                        assert forall|i: int| 0 <= i < e.position implies input_row(
                            table,
                            #[trigger] inputs[i],
                            i,
                        ) is Ok by {
                            assert(prev[i] == inputs[i]);
                        }
                    },
                }
            },
        }
    }
}

/// What `output_rows` gives, item by item: on success one row for each output,
/// in order; on failure the fault of the first output that raises one.
pub proof fn lemma_output_rows(table: &ModuleTable, outputs: Seq<ModuleOutput>)
    ensures
        match output_rows(table, outputs) {
            Ok(rows) => {
                &&& rows.len() == outputs.len()
                &&& forall|i: int|
                    0 <= i < outputs.len() ==> output_row(table, #[trigger] outputs[i], i) == Ok::<
                        IoRowView,
                        RowFault,
                    >(rows[i])
            },
            Err(e) => {
                &&& 0 <= e.position < outputs.len()
                &&& output_row(table, outputs[e.position], e.position) == Err::<
                    IoRowView,
                    RowFault,
                >(e)
                &&& forall|i: int|
                    0 <= i < e.position ==> output_row(table, #[trigger] outputs[i], i) is Ok
            },
        },
    decreases outputs.len(),
{
    if outputs.len() > 0 {
        let prev = outputs.drop_last();
        lemma_output_rows(table, prev);
        assert forall|i: int| 0 <= i < prev.len() implies #[trigger] prev[i] == outputs[i] by {}
        match output_rows(table, prev) {
            Err(e) => {
                assert(prev[e.position] == outputs[e.position]);
                assert forall|i: int| 0 <= i < e.position implies output_row(
                    table,
                    #[trigger] outputs[i],
                    i,
                ) is Ok by {
                    assert(prev[i] == outputs[i]);
                }
            },
            Ok(rows) => {
                match output_row(table, outputs.last(), outputs.len() - 1) {
                    Ok(row) => {
                        let all = rows.push(row);
                        assert forall|i: int| 0 <= i < outputs.len() implies output_row(
                            table,
                            #[trigger] outputs[i],
                            i,
                        ) == Ok::<IoRowView, RowFault>(all[i]) by {
                            if i < prev.len() {
                                assert(prev[i] == outputs[i]);
                            }
                        }
                    },
                    Err(e) => {
                        assert forall|i: int| 0 <= i < e.position implies output_row(
                            table,
                            #[trigger] outputs[i],
                            i,
                        ) is Ok by {
                            assert(prev[i] == outputs[i]);
                        }
                    },
                }
            },
        }
    }
}

/// Whether `result` is what decoding `transaction` under `table` may return.
pub open spec fn decodes_to(
    table: &ModuleTable,
    transaction: &Transaction,
    result: Result<DecodedTransaction, DecodeError>,
) -> bool {
    match result {
        Ok(rows) => decoded(table, transaction) == Ok::<DecodedView, RowFault>(rows@),
        Err(e) => decoded(table, transaction) == Err::<DecodedView, RowFault>(e@),
    }
}

/// Decoding is deterministic: two results for the same transaction under the
/// same table are both failures with the same error, or both successes that
/// hold the same hash, the same bytes and the same rows.
pub proof fn lemma_decode_deterministic(
    table: &ModuleTable,
    transaction: &Transaction,
    first: Result<DecodedTransaction, DecodeError>,
    second: Result<DecodedTransaction, DecodeError>,
)
    requires
        decodes_to(table, transaction, first),
        decodes_to(table, transaction, second),
    ensures
        first is Ok <==> second is Ok,
        first is Ok ==> first->Ok_0@ == second->Ok_0@,
        first is Err ==> first->Err_0@ == second->Err_0@,
{
}

/// Whether every item of the transaction belongs to an instance whose kind
/// the decoder does not know.
pub open spec fn all_unrecognized(table: &ModuleTable, transaction: &Transaction) -> bool {
    &&& forall|i: int|
        0 <= i < transaction.inputs@.len() ==> kind_of(
            table.kind_name((#[trigger] transaction.inputs@[i]).instance_id),
        ) == ModuleKind::Unrecognized
    &&& forall|i: int|
        0 <= i < transaction.outputs@.len() ==> kind_of(
            table.kind_name((#[trigger] transaction.outputs@[i]).instance_id),
        ) == ModuleKind::Unrecognized
}

/// Unknown modules are tolerated: a transaction whose items all belong to
/// kinds the decoder does not know decodes successfully, whatever the
/// payloads hold, and each row records its place and the kind name that the
/// table gives, with neither subtype nor amount.
pub proof fn lemma_unrecognized_tolerated(table: &ModuleTable, transaction: &Transaction)
    requires
        all_unrecognized(table, transaction),
    ensures
        decoded(table, transaction) is Ok,
        decoded(table, transaction)->Ok_0.inputs.len() == transaction.inputs@.len(),
        decoded(table, transaction)->Ok_0.outputs.len() == transaction.outputs@.len(),
        forall|i: int|
            0 <= i < transaction.inputs@.len() ==> (#[trigger] decoded(
                table,
                transaction,
            )->Ok_0.inputs[i]) == (IoRowView {
                position: i,
                kind: table.kind_name(transaction.inputs@[i].instance_id),
                subtype: None,
                amount_msat: None,
            }),
        forall|i: int|
            0 <= i < transaction.outputs@.len() ==> (#[trigger] decoded(
                table,
                transaction,
            )->Ok_0.outputs[i]) == (IoRowView {
                position: i,
                kind: table.kind_name(transaction.outputs@[i].instance_id),
                subtype: None,
                amount_msat: None,
            }),
{
    let inputs = transaction.inputs@;
    let outputs = transaction.outputs@;
    lemma_input_rows(table, inputs);
    lemma_output_rows(table, outputs);
    match input_rows(table, inputs) {
        Ok(rows) => {},
        Err(e) => {
            assert(input_row(table, inputs[e.position], e.position) is Ok);
        },
    }
    match output_rows(table, outputs) {
        Ok(rows) => {},
        Err(e) => {
            assert(output_row(table, outputs[e.position], e.position) is Ok);
        },
    }
    let rows_in = input_rows(table, inputs)->Ok_0;
    let rows_out = output_rows(table, outputs)->Ok_0;
    assert forall|i: int| 0 <= i < inputs.len() implies rows_in[i] == (IoRowView {
        position: i,
        kind: table.kind_name(inputs[i].instance_id),
        subtype: None,
        amount_msat: None,
    }) by {
        assert(input_row(table, inputs[i], i) == Ok::<IoRowView, RowFault>(rows_in[i]));
    }
    assert forall|i: int| 0 <= i < outputs.len() implies rows_out[i] == (IoRowView {
        position: i,
        kind: table.kind_name(outputs[i].instance_id),
        subtype: None,
        amount_msat: None,
    }) by {
        assert(output_row(table, outputs[i], i) == Ok::<IoRowView, RowFault>(rows_out[i]));
    }
}

} // verus!
