use vstd::prelude::*;

verus! {

/// A defect found in one source line, carrying the offending text.
#[derive(Debug)]
pub enum LineError {
    /// The computation field is not a recognized computation mnemonic.
    CompError(String),
    /// The destination field is not a recognized destination mnemonic,
    /// or the line holds more than one `=`.
    DestError(String),
    /// The jump field is not a recognized jump mnemonic,
    /// or the line holds more than one `;`.
    JumpError(String),
    /// An address-instruction or label symbol is empty, contains a
    /// disallowed character, or carries an embedded marker character.
    InvalidSymbolError(String),
}

/// Mathematical model of a `LineError`: the same variants over character sequences.
pub enum LineErrorView {
    CompError(Seq<char>),
    DestError(Seq<char>),
    JumpError(Seq<char>),
    InvalidSymbolError(Seq<char>),
}

impl View for LineError {
    type V = LineErrorView;

    open spec fn view(&self) -> LineErrorView {
        match self {
            LineError::CompError(s) => LineErrorView::CompError(s@),
            LineError::DestError(s) => LineErrorView::DestError(s@),
            LineError::JumpError(s) => LineErrorView::JumpError(s@),
            LineError::InvalidSymbolError(s) => LineErrorView::InvalidSymbolError(s@),
        }
    }
}

impl LineError {
    /// A human-readable description of the defect.
    pub open spec fn message_view(&self) -> Seq<char> {
        match self {
            LineError::CompError(s) => "Invalid Comp expression: "@ + s@,
            LineError::DestError(s) => "Invalid Dest expression: "@ + s@,
            LineError::JumpError(s) => "Invalid Jump expression: "@ + s@,
            LineError::InvalidSymbolError(s) => "Invalid symbolname: "@ + s@,
        }
    }

    /// Renders the defect as text for reporting.
    pub fn message(&self) -> (r: String)
        ensures
            r@ == self.message_view(),
    {
        match self {
            LineError::CompError(s) => String::from_str("Invalid Comp expression: ").concat(
                s.as_str(),
            ),
            LineError::DestError(s) => String::from_str("Invalid Dest expression: ").concat(
                s.as_str(),
            ),
            LineError::JumpError(s) => String::from_str("Invalid Jump expression: ").concat(
                s.as_str(),
            ),
            LineError::InvalidSymbolError(s) => String::from_str("Invalid symbolname: ").concat(
                s.as_str(),
            ),
        }
    }
}

/// Every recoverable per-line defect collected over one whole input,
/// as pairs of line index and defect.
#[derive(Debug)]
pub struct ParseError {
    pub errors: Vec<(usize, LineError)>,
}

impl View for ParseError {
    type V = Seq<(int, LineErrorView)>;

    open spec fn view(&self) -> Seq<(int, LineErrorView)> {
        self.errors@.map(|i: int, e: (usize, LineError)| (e.0 as int, e.1@))
    }
}

impl ParseError {
    /// An empty collection: no defect seen yet.
    pub fn new() -> (r: Self)
        ensures
            r@ =~= Seq::<(int, LineErrorView)>::empty(),
    {
        ParseError { errors: Vec::new() }
    }

    /// True when no defect has been collected.
    pub fn is_empty(&self) -> (r: bool)
        ensures
            r == (self@.len() == 0),
    {
        self.errors.len() == 0
    }

    /// Records one defect together with the index of the line it was found on.
    pub fn add(&mut self, errorkind: LineError, line_num: usize)
        ensures
            final(self)@ =~= old(self)@.push((line_num as int, errorkind@)),
    {
        self.errors.push((line_num, errorkind));
    }
}

/// How a whole run ends when it does not produce machine code.
///
/// The per-line defects are recoverable and arrive all together in
/// `ParseError`; the other variants are fatal conditions that end the
/// run at once.
#[derive(Debug)]
pub enum Error {
    /// One or more per-line defects; no code was generated.
    ParseError(ParseError),
    /// Variable allocation would run past the reserved variable region.
    AddressSpaceExhausted,
    /// A resolved address does not fit in 15 bits; carries the symbol text.
    AddressOutOfRange(String),
    /// A non-numeric address target was absent from the symbol table at
    /// encode time; unreachable when the table was built by the two passes.
    UnresolvedSymbol(String),
}

/// Mathematical model of an `Error`.
pub enum ErrorView {
    ParseError(Seq<(int, LineErrorView)>),
    AddressSpaceExhausted,
    AddressOutOfRange(Seq<char>),
    UnresolvedSymbol(Seq<char>),
}

impl View for Error {
    type V = ErrorView;

    open spec fn view(&self) -> ErrorView {
        match self {
            Error::ParseError(p) => ErrorView::ParseError(p@),
            Error::AddressSpaceExhausted => ErrorView::AddressSpaceExhausted,
            Error::AddressOutOfRange(s) => ErrorView::AddressOutOfRange(s@),
            Error::UnresolvedSymbol(s) => ErrorView::UnresolvedSymbol(s@),
        }
    }
}

} // verus!
