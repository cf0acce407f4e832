use vstd::prelude::*;

verus! {

/// The grammar rule that a failed parse was in.
#[derive(PartialEq, Eq, Structural, Clone, Copy, Debug)]
pub enum Context {
    Key,
    String,
    DateTime,
    TimeOffset,
    Integer,
    Boolean,
    Value,
    InlineTable,
    EndOfInput,
}

/// The type of a value, named in errors.
#[derive(PartialEq, Eq, Structural, Clone, Copy, Debug)]
pub enum ValueType {
    String,
    Integer,
    Boolean,
    Datetime,
    InlineTable,
}

/// What went wrong in a parse.
#[derive(Debug)]
pub enum ErrorKind {
    /// The input does not match the rule `context`; `expected` lists the characters
    /// that would have let it go on, where the rule knows them.
    Grammar { context: Context, expected: Vec<char> },
    /// The input has the right shape, but a number in it is out of its range.
    OutOfRange,
    /// Two entries of one table have the same key.
    DuplicateKey { key: String },
    /// A dotted key goes through a value that is not a table.
    ExtendWrongType { path: Vec<String>, index: usize, actual: ValueType },
    /// Keys or tables are nested too deep.
    RecursionLimitExceeded,
}

/// A failure inside the grammar: what went wrong, where, and whether the
/// alternatives around it may still be tried (`cut` is false) or not.
#[derive(Debug)]
pub struct PErr {
    pub kind: ErrorKind,
    pub pos: usize,
    pub cut: bool,
}

/// What an `ErrorKind` says, with strings as sequences of characters.
pub enum KindView {
    Grammar(Context, Seq<char>),
    OutOfRange,
    DuplicateKey(Seq<char>),
    ExtendWrongType(Seq<Seq<char>>, int, ValueType),
    RecursionLimitExceeded,
}

impl View for ErrorKind {
    type V = KindView;

    open spec fn view(&self) -> KindView {
        match self {
            ErrorKind::Grammar { context, expected } => KindView::Grammar(*context, expected@),
            ErrorKind::OutOfRange => KindView::OutOfRange,
            ErrorKind::DuplicateKey { key } => KindView::DuplicateKey(key@),
            ErrorKind::ExtendWrongType { path, index, actual } => KindView::ExtendWrongType(
                path@.map_values(|p: String| p@),
                *index as int,
                *actual,
            ),
            ErrorKind::RecursionLimitExceeded => KindView::RecursionLimitExceeded,
        }
    }
}

/// What a `PErr` says.
pub struct ErrView {
    pub kind: KindView,
    pub pos: int,
    pub cut: bool,
}

impl View for PErr {
    type V = ErrView;

    open spec fn view(&self) -> ErrView {
        ErrView { kind: self.kind@, pos: self.pos as int, cut: self.cut }
    }
}

/// A grammar failure of the rule `ctx` at `pos`.
pub open spec fn grammar_err(ctx: Context, pos: int, cut: bool) -> ErrView {
    ErrView { kind: KindView::Grammar(ctx, Seq::empty()), pos, cut }
}

/// A grammar failure of the rule `ctx` at `pos`, where one of `expected` was wanted.
pub open spec fn expecting_err(ctx: Context, expected: Seq<char>, pos: int, cut: bool) -> ErrView {
    ErrView { kind: KindView::Grammar(ctx, expected), pos, cut }
}

/// The characters `first`, then `second` where there is one.
pub open spec fn one_or_two(first: char, second: Option<char>) -> Seq<char> {
    match second {
        Some(b) => seq![first, b],
        None => seq![first],
    }
}

/// A grammar failure of the rule `ctx` at `pos`, where `first` (or `second`) was wanted.
pub fn mk_expecting_err(ctx: Context, first: char, second: Option<char>, pos: usize, cut: bool) -> (r:
    PErr)
    ensures
        r@ == expecting_err(ctx, one_or_two(first, second), pos as int, cut),
{
    let mut v: Vec<char> = Vec::new();
    v.push(first);
    match second {
        Some(b) => v.push(b),
        None => {},
    }
    proof {
        assert(v@ =~= one_or_two(first, second));
    }
    PErr { kind: ErrorKind::Grammar { context: ctx, expected: v }, pos, cut }
}

/// A grammar failure of the rule `ctx` at `pos`.
pub fn mk_grammar_err(ctx: Context, pos: usize, cut: bool) -> (r: PErr)
    ensures
        r@ == grammar_err(ctx, pos as int, cut),
{
    PErr { kind: ErrorKind::Grammar { context: ctx, expected: Vec::new() }, pos, cut }
}

/// The nesting limit of keys and tables.
pub const RECURSION_LIMIT: usize = 128;

/// A guard against unbounded nesting, passed by value into each nested rule.
#[derive(Clone, Copy, Debug)]
pub struct RecursionCheck {
    current: usize,
}

impl RecursionCheck {
    /// The depth reached so far.
    pub closed spec fn depth(self) -> nat {
        self.current as nat
    }

    /// The guard at depth zero.
    pub fn new() -> (r: RecursionCheck)
        ensures
            r.depth() == 0,
    {
        RecursionCheck { current: 0 }
    }

    /// Fails when a path of `depth` keys is at or over the limit.
    pub fn check_depth(depth: usize) -> (r: Result<(), ErrorKind>)
        ensures
            r is Ok <==> depth < RECURSION_LIMIT,
            r matches Err(k) ==> k is RecursionLimitExceeded,
    {
        if depth < RECURSION_LIMIT {
            Ok(())
        } else {
            Err(ErrorKind::RecursionLimitExceeded)
        }
    }

    /// One level deeper; fails once the limit is reached.
    pub fn recursing(self, pos: usize) -> (r: Result<RecursionCheck, PErr>)
        ensures
            r is Ok <==> self.depth() + 1 < RECURSION_LIMIT,
            r matches Ok(c) ==> c.depth() == self.depth() + 1,
            r matches Err(e) ==> e.kind is RecursionLimitExceeded && e.pos == pos && !e.cut,
    {
        if self.current < RECURSION_LIMIT - 1 {
            Ok(RecursionCheck { current: self.current + 1 })
        } else {
            Err(PErr { kind: ErrorKind::RecursionLimitExceeded, pos, cut: false })
        }
    }
}

} // verus!

verus! {

/// Whether an executable parse result is the one that the grammar gives.
pub open spec fn agrees<T>(r: Result<(usize, T), PErr>, sp: Result<(int, T), ErrView>) -> bool {
    match (r, sp) {
        (Ok((e, v)), Ok((se, sv))) => e == se && v == sv,
        (Err(e), Err(se)) => e@ == se,
        _ => false,
    }
}

} // verus!
