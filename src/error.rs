use vstd::prelude::*;

verus! {

/// Why a trace record could not be decoded.
#[derive(Debug, Clone, PartialEq, Eq)]
pub enum TraceError {
    /// The binary stream ended inside the header, inside a record, or before
    /// the header's entry count was reached.
    Truncated { offset: usize },
    /// A binary record names no known entry kind.
    UnexpectedVariant { found: u32, offset: usize },
    /// A binary repeat record declares a run of no entries.
    EmptyRepeat { offset: usize },
    /// A binary write or read carries more than eight bytes.
    OversizedValue { size: u64, offset: usize },
    /// An id or an address of a binary record does not fit in 64 bits.
    Overflow { offset: usize },
    /// A record of the hardware tracer's layout is cut short or invalid.
    MalformedRecord { offset: usize },
    /// A text line has the wrong number of columns for its kind.
    WrongArity { line: usize, expected: usize },
    /// A numeric text column is not an unsigned integer.
    InvalidNumber { line: usize, column: usize },
    /// A content text column is not a hex byte string.
    InvalidHex { line: usize, column: usize },
    /// The non-temporal column of a text write is neither true nor false.
    InvalidNtFlag { line: usize, flag: String },
    /// A text `insn` line names an instruction that is not traced.
    UnsupportedInstruction { line: usize, mnemonic: String },
    /// The first column of a text line names no record kind.
    UnsupportedOperation { line: usize, op: String },
}

pub enum TraceErrorView {
    Truncated { offset: usize },
    UnexpectedVariant { found: u32, offset: usize },
    EmptyRepeat { offset: usize },
    OversizedValue { size: u64, offset: usize },
    Overflow { offset: usize },
    MalformedRecord { offset: usize },
    WrongArity { line: usize, expected: usize },
    InvalidNumber { line: usize, column: usize },
    InvalidHex { line: usize, column: usize },
    InvalidNtFlag { line: usize, flag: Seq<char> },
    UnsupportedInstruction { line: usize, mnemonic: Seq<char> },
    UnsupportedOperation { line: usize, op: Seq<char> },
}

impl View for TraceError {
    type V = TraceErrorView;

    open spec fn view(&self) -> TraceErrorView {
        match self {
            TraceError::Truncated { offset } => TraceErrorView::Truncated { offset: *offset },
            TraceError::UnexpectedVariant { found, offset } =>
                TraceErrorView::UnexpectedVariant { found: *found, offset: *offset },
            TraceError::EmptyRepeat { offset } => TraceErrorView::EmptyRepeat { offset: *offset },
            TraceError::OversizedValue { size, offset } =>
                TraceErrorView::OversizedValue { size: *size, offset: *offset },
            TraceError::Overflow { offset } => TraceErrorView::Overflow { offset: *offset },
            TraceError::MalformedRecord { offset } =>
                TraceErrorView::MalformedRecord { offset: *offset },
            TraceError::WrongArity { line, expected } =>
                TraceErrorView::WrongArity { line: *line, expected: *expected },
            TraceError::InvalidNumber { line, column } =>
                TraceErrorView::InvalidNumber { line: *line, column: *column },
            TraceError::InvalidHex { line, column } =>
                TraceErrorView::InvalidHex { line: *line, column: *column },
            TraceError::InvalidNtFlag { line, flag } =>
                TraceErrorView::InvalidNtFlag { line: *line, flag: flag@ },
            TraceError::UnsupportedInstruction { line, mnemonic } =>
                TraceErrorView::UnsupportedInstruction { line: *line, mnemonic: mnemonic@ },
            TraceError::UnsupportedOperation { line, op } =>
                TraceErrorView::UnsupportedOperation { line: *line, op: op@ },
        }
    }
}

} // verus!
