//! The transaction envelope as the simulation reads it: which of the three
//! forms it has, and its operations in submission order.

use vstd::prelude::*;

verus! {

/// A call of a contract function: who is called, what, and with which
/// arguments. Address, name and arguments are kept as rendered text; only
/// their number and order are looked at.
#[derive(Clone, Debug, PartialEq, Eq)]
pub struct ContractInvocation {
    pub contract_address: String,
    pub function_name: String,
    pub args: Vec<String>,
}

/// The mathematical value of a [`ContractInvocation`].
pub struct InvocationView {
    pub contract_address: Seq<char>,
    pub function_name: Seq<char>,
    pub args: Seq<Seq<char>>,
}

/// The texts of a sequence of strings, one for one.
pub open spec fn text_views(v: Seq<String>) -> Seq<Seq<char>> {
    v.map_values(|s: String| s@)
}

impl View for ContractInvocation {
    type V = InvocationView;

    open spec fn view(&self) -> InvocationView {
        InvocationView {
            contract_address: self.contract_address@,
            function_name: self.function_name@,
            args: text_views(self.args@),
        }
    }
}

/// What an operation asks for, as far as the simulation tells operations
/// apart.
#[derive(Clone, Debug, PartialEq, Eq)]
pub enum Operation {
    /// A host-function operation that invokes a contract.
    InvokeContract(ContractInvocation),
    /// A host-function operation of another kind.
    OtherHostFunction,
    /// Any other operation.
    Other,
}

/// The mathematical value of an [`Operation`].
pub enum OperationView {
    InvokeContract(InvocationView),
    OtherHostFunction,
    Other,
}

impl View for Operation {
    type V = OperationView;

    open spec fn view(&self) -> OperationView {
        match self {
            Operation::InvokeContract(call) => OperationView::InvokeContract(call@),
            Operation::OtherHostFunction => OperationView::OtherHostFunction,
            Operation::Other => OperationView::Other,
        }
    }
}

/// The values of a sequence of operations, one for one.
pub open spec fn operation_views(v: Seq<Operation>) -> Seq<OperationView> {
    v.map_values(|op: Operation| op@)
}

/// The three forms of an envelope.
#[derive(Clone, Copy, Debug, PartialEq, Eq)]
pub enum EnvelopeKind {
    Unsigned,
    Signed,
    FeeBumpWrapped,
}

/// A transaction: its operations in submission order.
#[derive(Clone, Debug, PartialEq, Eq)]
pub struct Transaction {
    pub operations: Vec<Operation>,
}

/// A transaction envelope. The transaction inside a fee bump is a plain
/// transaction, so a fee bump never wraps another fee bump.
#[derive(Clone, Debug, PartialEq, Eq)]
pub enum TransactionEnvelope {
    Unsigned(Transaction),
    Signed(Transaction),
    FeeBumpWrapped(Transaction),
}

/// The mathematical value of a [`TransactionEnvelope`].
pub struct EnvelopeView {
    pub kind: EnvelopeKind,
    pub operations: Seq<OperationView>,
}

impl View for TransactionEnvelope {
    type V = EnvelopeView;

    open spec fn view(&self) -> EnvelopeView {
        match self {
            TransactionEnvelope::Unsigned(tx) => EnvelopeView {
                kind: EnvelopeKind::Unsigned,
                operations: operation_views(tx.operations@),
            },
            TransactionEnvelope::Signed(tx) => EnvelopeView {
                kind: EnvelopeKind::Signed,
                operations: operation_views(tx.operations@),
            },
            TransactionEnvelope::FeeBumpWrapped(tx) => EnvelopeView {
                kind: EnvelopeKind::FeeBumpWrapped,
                operations: operation_views(tx.operations@),
            },
        }
    }
}

impl TransactionEnvelope {
    /// Puts `operations` into an envelope of the given form.
    pub fn new(kind: EnvelopeKind, operations: Vec<Operation>) -> (envelope:
        TransactionEnvelope)
        ensures
            envelope@ == (EnvelopeView { kind, operations: operation_views(operations@) }),
    {
        let tx = Transaction { operations };
        match kind {
            EnvelopeKind::Unsigned => TransactionEnvelope::Unsigned(tx),
            EnvelopeKind::Signed => TransactionEnvelope::Signed(tx),
            EnvelopeKind::FeeBumpWrapped => TransactionEnvelope::FeeBumpWrapped(tx),
        }
    }

    /// The form of the envelope.
    pub fn kind(&self) -> (kind: EnvelopeKind)
        ensures
            kind == self@.kind,
    {
        match self {
            TransactionEnvelope::Unsigned(_) => EnvelopeKind::Unsigned,
            TransactionEnvelope::Signed(_) => EnvelopeKind::Signed,
            TransactionEnvelope::FeeBumpWrapped(_) => EnvelopeKind::FeeBumpWrapped,
        }
    }

    /// The operations of the transaction, whichever form the envelope has:
    /// those of the transaction itself, or, for a fee bump, those of the one
    /// transaction it wraps.
    pub fn operations(&self) -> (operations: &Vec<Operation>)
        ensures
            operation_views(operations@) == self@.operations,
    {
        match self {
            TransactionEnvelope::Unsigned(tx) => &tx.operations,
            TransactionEnvelope::Signed(tx) => &tx.operations,
            TransactionEnvelope::FeeBumpWrapped(tx) => &tx.operations,
        }
    }
}

} // verus!
