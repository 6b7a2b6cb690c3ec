//! The pattern compiler: a recursive-descent parser over code points that
//! builds the automaton while it reads.
//!
//! Grammar:
//!   disjunction := term ('|' term)*
//!   term        := (atom quantifier?)*      ends before '|', ')' or the end
//!   atom        := '(' disjunction ')' | '.' | pattern character
//!   quantifier  := '*' | '+'
use vstd::prelude::*;
use crate::graph::{Condition, Edge, Graph, GraphModel};
use crate::text::{code_points, code_points_of};

verus! {

pub const DOLLAR: u32 = 36;
pub const OPEN: u32 = 40;
pub const CLOSE: u32 = 41;
pub const STAR: u32 = 42;
pub const PLUS: u32 = 43;
pub const DOT: u32 = 46;
pub const QUESTION: u32 = 63;
pub const LBRACKET: u32 = 91;
pub const BACKSLASH: u32 = 92;
pub const RBRACKET: u32 = 93;
pub const CARET: u32 = 94;
pub const LBRACE: u32 = 123;
pub const PIPE: u32 = 124;
pub const RBRACE: u32 = 125;

/// The reserved characters, which never stand for themselves in a pattern.
#[derive(Clone, Copy, Debug, PartialEq, Eq, Structural)]
pub enum Reserved {
    Caret,
    Dollar,
    Backslash,
    Dot,
    Star,
    Plus,
    Question,
    Open,
    Close,
    LBracket,
    RBracket,
    LBrace,
    RBrace,
    Pipe,
}

/// The code point of a reserved character.
pub open spec fn reserved_code(r: Reserved) -> u32 {
    match r {
        Reserved::Caret => CARET,
        Reserved::Dollar => DOLLAR,
        Reserved::Backslash => BACKSLASH,
        Reserved::Dot => DOT,
        Reserved::Star => STAR,
        Reserved::Plus => PLUS,
        Reserved::Question => QUESTION,
        Reserved::Open => OPEN,
        Reserved::Close => CLOSE,
        Reserved::LBracket => LBRACKET,
        Reserved::RBracket => RBRACKET,
        Reserved::LBrace => LBRACE,
        Reserved::RBrace => RBRACE,
        Reserved::Pipe => PIPE,
    }
}

/// A reserved character written as text.
pub open spec fn reserved_text(r: Reserved) -> Seq<char> {
    match r {
        Reserved::Caret => "^"@,
        Reserved::Dollar => "$"@,
        Reserved::Backslash => "\\"@,
        Reserved::Dot => "."@,
        Reserved::Star => "*"@,
        Reserved::Plus => "+"@,
        Reserved::Question => "?"@,
        Reserved::Open => "("@,
        Reserved::Close => ")"@,
        Reserved::LBracket => "["@,
        Reserved::RBracket => "]"@,
        Reserved::LBrace => "{"@,
        Reserved::RBrace => "}"@,
        Reserved::Pipe => "|"@,
    }
}

/// The reserved character whose code point is `c`, if there is one.
pub open spec fn reserved_of(c: u32) -> Option<Reserved> {
    if c == CARET {
        Some(Reserved::Caret)
    } else if c == DOLLAR {
        Some(Reserved::Dollar)
    } else if c == BACKSLASH {
        Some(Reserved::Backslash)
    } else if c == DOT {
        Some(Reserved::Dot)
    } else if c == STAR {
        Some(Reserved::Star)
    } else if c == PLUS {
        Some(Reserved::Plus)
    } else if c == QUESTION {
        Some(Reserved::Question)
    } else if c == OPEN {
        Some(Reserved::Open)
    } else if c == CLOSE {
        Some(Reserved::Close)
    } else if c == LBRACKET {
        Some(Reserved::LBracket)
    } else if c == RBRACKET {
        Some(Reserved::RBracket)
    } else if c == LBRACE {
        Some(Reserved::LBrace)
    } else if c == RBRACE {
        Some(Reserved::RBrace)
    } else if c == PIPE {
        Some(Reserved::Pipe)
    } else {
        None
    }
}

impl Reserved {
    pub fn code_point(&self) -> (r: u32)
        ensures
            r == reserved_code(*self),
    {
        match self {
            Reserved::Caret => CARET,
            Reserved::Dollar => DOLLAR,
            Reserved::Backslash => BACKSLASH,
            Reserved::Dot => DOT,
            Reserved::Star => STAR,
            Reserved::Plus => PLUS,
            Reserved::Question => QUESTION,
            Reserved::Open => OPEN,
            Reserved::Close => CLOSE,
            Reserved::LBracket => LBRACKET,
            Reserved::RBracket => RBRACKET,
            Reserved::LBrace => LBRACE,
            Reserved::RBrace => RBRACE,
            Reserved::Pipe => PIPE,
        }
    }

    pub fn text(&self) -> (r: &'static str)
        ensures
            r@ == reserved_text(*self),
    {
        match self {
            Reserved::Caret => "^",
            Reserved::Dollar => "$",
            Reserved::Backslash => "\\",
            Reserved::Dot => ".",
            Reserved::Star => "*",
            Reserved::Plus => "+",
            Reserved::Question => "?",
            Reserved::Open => "(",
            Reserved::Close => ")",
            Reserved::LBracket => "[",
            Reserved::RBracket => "]",
            Reserved::LBrace => "{",
            Reserved::RBrace => "}",
            Reserved::Pipe => "|",
        }
    }
}

/// The decimal digit `d` as text.
pub open spec fn digit_text(d: nat) -> Seq<char> {
    if d == 0 {
        "0"@
    } else if d == 1 {
        "1"@
    } else if d == 2 {
        "2"@
    } else if d == 3 {
        "3"@
    } else if d == 4 {
        "4"@
    } else if d == 5 {
        "5"@
    } else if d == 6 {
        "6"@
    } else if d == 7 {
        "7"@
    } else if d == 8 {
        "8"@
    } else {
        "9"@
    }
}

/// `n` written in decimal, without leading zeros.
pub open spec fn decimal(n: nat) -> Seq<char>
    decreases n,
{
    if n < 10 {
        digit_text(n)
    } else {
        decimal(n / 10) + digit_text(n % 10)
    }
}

fn digit_str(d: u32) -> (r: &'static str)
    requires
        d < 10,
    ensures
        r@ == digit_text(d as nat),
{
    if d == 0 {
        "0"
    } else if d == 1 {
        "1"
    } else if d == 2 {
        "2"
    } else if d == 3 {
        "3"
    } else if d == 4 {
        "4"
    } else if d == 5 {
        "5"
    } else if d == 6 {
        "6"
    } else if d == 7 {
        "7"
    } else if d == 8 {
        "8"
    } else {
        "9"
    }
}

/// `n` written in decimal.
pub fn decimal_string(n: u32) -> (r: String)
    ensures
        r@ == decimal(n as nat),
    decreases n,
{
    if n < 10 {
        String::from_str(digit_str(n))
    } else {
        let head = decimal_string(n / 10);
        head.concat(digit_str(n % 10))
    }
}

/// Why a pattern was refused.
#[derive(Clone, Copy, Debug, PartialEq, Eq, Structural)]
pub enum ParseErrorKind {
    /// A group was opened and the pattern has no `)` where it should close.
    MissingClose,
    /// This reserved character stands where a literal was expected.
    UnexpectedSymbol(Reserved),
    /// The pattern ended where a literal was expected.
    UnexpectedEnd,
    /// Syntax that is recognised but not supported: escapes, character
    /// classes, anchors, special groups `(?`, and the quantifiers `?` and `{`.
    Unsupported,
}

/// A refused pattern: what went wrong, and at which code point of it.
#[derive(Clone, Copy, Debug, PartialEq, Eq, Structural)]
pub struct ParserError {
    pub kind: ParseErrorKind,
    pub position: usize,
}

pub open spec fn error_at(kind: ParseErrorKind, position: int) -> ParserError {
    ParserError { kind, position: position as usize }
}

/// The description of each kind of error. An unexpected symbol is shown
/// with its code point in decimal.
pub open spec fn description_of(kind: ParseErrorKind) -> Seq<char> {
    match kind {
        ParseErrorKind::MissingClose => "Expected ')'"@,
        ParseErrorKind::UnexpectedSymbol(r) => "Unexpected symbol '"@ + reserved_text(r) + "' (U+"@
            + decimal(reserved_code(r) as nat) + ") encountered"@,
        ParseErrorKind::UnexpectedEnd => "Pattern ended unexpectedly"@,
        ParseErrorKind::Unsupported => "Unsupported syntax"@,
    }
}

impl ParserError {
    pub fn new(kind: ParseErrorKind, position: usize) -> (r: ParserError)
        ensures
            r.kind == kind,
            r.position == position,
    {
        ParserError { kind, position }
    }

    /// A human-readable description of the error.
    pub fn description(&self) -> (r: String)
        ensures
            r@ == description_of(self.kind),
    {
        match self.kind {
            ParseErrorKind::MissingClose => String::from_str("Expected ')'"),
            ParseErrorKind::UnexpectedSymbol(r) => {
                let code = decimal_string(r.code_point());
                String::from_str("Unexpected symbol '").concat(r.text()).concat("' (U+").concat(
                    code.as_str(),
                ).concat(") encountered")
            },
            ParseErrorKind::UnexpectedEnd => String::from_str("Pattern ended unexpectedly"),
            ParseErrorKind::Unsupported => String::from_str("Unsupported syntax"),
        }
    }

    /// The message shown to a user: `ParsingError: ` and the description.
    pub fn message(&self) -> (r: String)
        ensures
            r@ == "ParsingError: "@ + description_of(self.kind),
    {
        let description = self.description();
        String::from_str("ParsingError: ").concat(description.as_str())
    }
}

/// Atoms that begin with these characters are not supported: escapes,
/// character classes and anchors.
pub open spec fn unsupported_atom(c: u32) -> bool {
    c == BACKSLASH || c == LBRACKET || c == CARET || c == DOLLAR
}

/// A term ends at the end of the pattern, before `|` and before `)`.
pub open spec fn ends_term(p: Seq<u32>, i: int) -> bool {
    i >= p.len() || p[i] == PIPE || p[i] == CLOSE
}

/// The nodes `ns` with `e` inserted first among the transitions of `at`.
pub open spec fn add_front(ns: Seq<Seq<Edge>>, at: usize, e: Edge) -> Seq<Seq<Edge>> {
    ns.update(at as int, ns[at as int].insert(0, e))
}

/// The nodes `ns` with `e` appended to the transitions of `at`.
pub open spec fn add_back(ns: Seq<Seq<Edge>>, at: usize, e: Edge) -> Seq<Seq<Edge>> {
    ns.update(at as int, ns[at as int].push(e))
}

/// The nodes `ns` with one more node, without transitions.
pub open spec fn with_node(ns: Seq<Seq<Edge>>) -> Seq<Seq<Edge>> {
    ns.push(Seq::empty())
}

pub open spec fn epsilon_to(to: usize) -> Edge {
    Edge { to, condition: Condition::Epsilon }
}

/// Where reading stopped on an error: the error, the position reached and
/// the nodes of the graph at that moment.
pub type Failed = (ParserError, int, Seq<Seq<Edge>>);

/// What reading a construct yields: the position after it, the nodes of the
/// graph so far, and the node where its automaton ends; or where it failed.
pub type Built = Result<(int, Seq<Seq<Edge>>, usize), Failed>;

/// Reads the atom at `i`, its automaton starting at `base`. A group is a
/// disjunction from `base`; `.` and a literal add a node and put a
/// transition to it first among those of `base`. A reserved character that
/// cannot start an atom is consumed and refused; an unsupported one is
/// refused where it stands.
pub open spec fn build_atom(p: Seq<u32>, i: int, ns: Seq<Seq<Edge>>, base: usize) -> Built
    decreases p.len() - i, 0int,
{
    if !(0 <= i < p.len()) {
        Err((error_at(ParseErrorKind::UnexpectedEnd, i), i, ns))
    } else if p[i] == OPEN {
        if i + 1 < p.len() && p[i + 1] == QUESTION {
            Err((error_at(ParseErrorKind::Unsupported, i), i, ns))
        } else {
            match build_disjunction(p, i + 1, ns, base) {
                Err(f) => Err(f),
                Ok((j, ns2, end)) => if 0 <= j < p.len() && p[j] == CLOSE {
                    Ok((j + 1, ns2, end))
                } else {
                    Err((error_at(ParseErrorKind::MissingClose, j), j, ns2))
                },
            }
        }
    } else if p[i] == DOT {
        let n = ns.len() as usize;
        Ok((i + 1, add_front(with_node(ns), base, Edge { to: n, condition: Condition::AnyCharacter }), n))
    } else if unsupported_atom(p[i]) {
        Err((error_at(ParseErrorKind::Unsupported, i), i, ns))
    } else {
        match reserved_of(p[i]) {
            Some(r) => Err((error_at(ParseErrorKind::UnexpectedSymbol(r), i), i + 1, ns)),
            None => {
                let n = ns.len() as usize;
                Ok((i + 1, add_front(with_node(ns), base, Edge { to: n, condition: Condition::Character(p[i]) }), n))
            },
        }
    }
}

/// Reads the rest of a term from `i`, the automaton so far ending at
/// `current`. After an atom from `current` to `a`:
/// `+` adds a transition from `a` back to `current`, and `a` is current;
/// `*` adds an exit node `x`, transitions from `a` to `x` then back to
/// `current`, and one from `current` to `x` first among its own, and `x` is
/// current; without a quantifier `a` is current.
pub open spec fn build_term(p: Seq<u32>, i: int, ns: Seq<Seq<Edge>>, current: usize) -> Built
    decreases p.len() - i, 1int,
{
    if i < 0 || ends_term(p, i) {
        Ok((i, ns, current))
    } else {
        match build_atom(p, i, ns, current) {
            Err(f) => Err(f),
            Ok((j, ns2, a)) => if 0 <= j < p.len() && (p[j] == QUESTION || p[j] == LBRACE) {
                Err((error_at(ParseErrorKind::Unsupported, j), j, ns2))
            } else if 0 <= j < p.len() && p[j] == PLUS {
                if i < j + 1 <= p.len() {
                    build_term(p, j + 1, add_back(ns2, a, epsilon_to(current)), a)
                } else {
                    Ok((j + 1, ns2, a))
                }
            } else if 0 <= j < p.len() && p[j] == STAR {
                let x = ns2.len() as usize;
                let ns3 = add_front(
                    add_back(add_back(with_node(ns2), a, epsilon_to(x)), a, epsilon_to(current)),
                    current,
                    epsilon_to(x),
                );
                if i < j + 1 <= p.len() {
                    build_term(p, j + 1, ns3, x)
                } else {
                    Ok((j + 1, ns3, x))
                }
            } else if i < j <= p.len() {
                build_term(p, j, ns2, a)
            } else {
                Ok((j, ns2, a))
            },
        }
    }
}

/// Reads the alternatives `('|' term)*` from `i`, each term starting at
/// `base`; `ends` collects where each term read so far ends.
pub open spec fn build_alternatives(
    p: Seq<u32>,
    i: int,
    ns: Seq<Seq<Edge>>,
    base: usize,
    ends: Seq<usize>,
) -> Result<(int, Seq<Seq<Edge>>, Seq<usize>), Failed>
    decreases p.len() - i, 1int,
{
    if 0 <= i < p.len() && p[i] == PIPE {
        match build_term(p, i + 1, ns, base) {
            Err(f) => Err(f),
            Ok((k, ns2, t)) => if i < k <= p.len() {
                build_alternatives(p, k, ns2, base, ends.push(t))
            } else {
                Ok((k, ns2, ends.push(t)))
            },
        }
    } else {
        Ok((i, ns, ends))
    }
}

/// The nodes `ns` with a transition to `end` appended to each node of `ends`, in order.
pub open spec fn join(ns: Seq<Seq<Edge>>, ends: Seq<usize>, end: usize) -> Seq<Seq<Edge>>
    decreases ends.len(),
{
    if ends.len() == 0 {
        ns
    } else {
        add_back(join(ns, ends.drop_last(), end), ends.last(), epsilon_to(end))
    }
}

/// Closes a disjunction whose alternatives were all read: a new node joins
/// their ends. A failed alternative adds no such node.
pub open spec fn finish_disjunction(r: Result<(int, Seq<Seq<Edge>>, Seq<usize>), Failed>) -> Built {
    match r {
        Err(f) => Err(f),
        Ok((k, ns, ends)) => {
            let end = ns.len() as usize;
            Ok((k, join(with_node(ns), ends, end), end))
        },
    }
}

/// Reads the disjunction at `i`, all its alternatives starting at `base`.
pub open spec fn build_disjunction(p: Seq<u32>, i: int, ns: Seq<Seq<Edge>>, base: usize) -> Built
    decreases p.len() - i, 2int,
{
    match build_term(p, i, ns, base) {
        Err(f) => Err(f),
        Ok((j, ns2, first)) => if i <= j <= p.len() {
            finish_disjunction(build_alternatives(p, j, ns2, base, seq![first]))
        } else {
            Ok((j, ns2, first))
        },
    }
}

/// The automaton that the pattern `p` compiles to, or the first error met
/// while reading it. Node 0 is the start, and the whole pattern must be one
/// disjunction: a disjunction stops early only before a `)` that closes
/// nothing.
pub open spec fn compiled(p: Seq<u32>) -> Result<GraphModel, ParserError> {
    match build_disjunction(p, 0, seq![Seq::empty()], 0) {
        Err((e, _at, _ns)) => Err(e),
        Ok((j, ns, _end)) => if j == p.len() {
            Ok(GraphModel { nodes: ns, start: Some(0) })
        } else {
            Err(error_at(ParseErrorKind::UnexpectedSymbol(Reserved::Close), j))
        },
    }
}

fn reserved_symbol(c: u32) -> (r: Option<Reserved>)
    ensures
        r == reserved_of(c),
{
    if c == CARET {
        Some(Reserved::Caret)
    } else if c == DOLLAR {
        Some(Reserved::Dollar)
    } else if c == BACKSLASH {
        Some(Reserved::Backslash)
    } else if c == DOT {
        Some(Reserved::Dot)
    } else if c == STAR {
        Some(Reserved::Star)
    } else if c == PLUS {
        Some(Reserved::Plus)
    } else if c == QUESTION {
        Some(Reserved::Question)
    } else if c == OPEN {
        Some(Reserved::Open)
    } else if c == CLOSE {
        Some(Reserved::Close)
    } else if c == LBRACKET {
        Some(Reserved::LBracket)
    } else if c == RBRACKET {
        Some(Reserved::RBracket)
    } else if c == LBRACE {
        Some(Reserved::LBrace)
    } else if c == RBRACE {
        Some(Reserved::RBrace)
    } else if c == PIPE {
        Some(Reserved::Pipe)
    } else {
        None
    }
}

struct Parser {
    pattern: Vec<u32>,
    pos: usize,
    graph: Graph,
}

impl Parser {
    spec fn wf(&self) -> bool {
        &&& self.pos <= self.pattern@.len()
        &&& self.pattern@.len() <= usize::MAX
        &&& self.graph.wf()
    }

    /// The parser moved forward over the same pattern and only added to the graph.
    spec fn grew(&self, before: &Parser) -> bool {
        &&& self.wf()
        &&& self.pattern@ == before.pattern@
        &&& before.pos <= self.pos
        &&& before.graph@.nodes.len() <= self.graph@.nodes.len()
        &&& self.graph@.start == before.graph@.start
    }

    /// Consumes the next code point if it is `c`.
    fn consume_if(&mut self, c: u32) -> (r: bool)
        requires
            old(self).wf(),
        ensures
            final(self).pattern == old(self).pattern,
            final(self).graph == old(self).graph,
            r == (old(self).pos < old(self).pattern@.len() && old(self).pattern@[old(
                self,
            ).pos as int] == c),
            final(self).pos == if r {
                old(self).pos + 1
            } else {
                old(self).pos as int
            },
    {
        if self.pos < self.pattern.len() && self.pattern[self.pos] == c {
            self.pos = self.pos + 1;
            true
        } else {
            false
        }
    }

    /// The next code point, if any is left.
    fn peek(&self) -> (r: Option<u32>)
        requires
            self.wf(),
        ensures
            r == if self.pos < self.pattern@.len() {
                Some(self.pattern@[self.pos as int])
            } else {
                None::<u32>
            },
    {
        if self.pos < self.pattern.len() {
            Some(self.pattern[self.pos])
        } else {
            None
        }
    }

    /// The whole pattern has been read.
    fn is_finished(&self) -> (r: bool)
        requires
            self.wf(),
        ensures
            r == (self.pos == self.pattern@.len()),
    {
        self.pos == self.pattern.len()
    }

    /// Reads a literal code point: anything but a reserved character. A
    /// reserved character is consumed and refused; at the end of the
    /// pattern nothing is consumed.
    fn parse_pattern_char(&mut self) -> (r: Result<u32, ParserError>)
        requires
            old(self).wf(),
        ensures
            final(self).pattern == old(self).pattern,
            final(self).graph == old(self).graph,
            old(self).pos == old(self).pattern@.len() ==> final(self).pos == old(self).pos && r
                == Err::<u32, ParserError>(error_at(ParseErrorKind::UnexpectedEnd, old(self).pos as int)),
            old(self).pos < old(self).pattern@.len() ==> final(self).pos == old(self).pos + 1 && r
                == match reserved_of(old(self).pattern@[old(self).pos as int]) {
                Some(sym) => Err::<u32, ParserError>(
                    error_at(ParseErrorKind::UnexpectedSymbol(sym), old(self).pos as int),
                ),
                None => Ok::<u32, ParserError>(old(self).pattern@[old(self).pos as int]),
            },
    {
        if self.pos == self.pattern.len() {
            return Err(ParserError::new(ParseErrorKind::UnexpectedEnd, self.pos));
        }
        let c = self.pattern[self.pos];
        let at = self.pos;
        self.pos = self.pos + 1;
        match reserved_symbol(c) {
            Some(sym) => Err(ParserError::new(ParseErrorKind::UnexpectedSymbol(sym), at)),
            None => Ok(c),
        }
    }

    /// Reads the atom at the current position; its automaton starts at `base`
    /// and the returned node is where it ends.
    fn parse_atom(&mut self, base: usize) -> (r: Result<usize, ParserError>)
        requires
            old(self).wf(),
            old(self).pos < old(self).pattern@.len(),
            base < old(self).graph@.nodes.len(),
        ensures
            final(self).grew(old(self)),
            match r {
                Ok(n) => n < final(self).graph@.nodes.len() && old(self).pos < final(self).pos
                    && build_atom(old(self).pattern@, old(self).pos as int, old(self).graph@.nodes, base)
                    == Built::Ok((final(self).pos as int, final(self).graph@.nodes, n)),
                Err(e) => build_atom(old(self).pattern@, old(self).pos as int, old(self).graph@.nodes, base)
                    == Built::Err((e, final(self).pos as int, final(self).graph@.nodes)),
            },
        decreases old(self).pattern@.len() - old(self).pos, 0int,
    {
        let c = self.pattern[self.pos];
        if c == OPEN {
            if self.pos + 1 < self.pattern.len() && self.pattern[self.pos + 1] == QUESTION {
                return Err(ParserError::new(ParseErrorKind::Unsupported, self.pos));
            }
            self.pos = self.pos + 1;
            let end = match self.parse_disjunction(base) {
                Err(e) => return Err(e),
                Ok(end) => end,
            };
            if !self.consume_if(CLOSE) {
                return Err(ParserError::new(ParseErrorKind::MissingClose, self.pos));
            }
            Ok(end)
        } else if c == DOT {
            self.pos = self.pos + 1;
            let node = self.graph.add_node();
            self.graph.add_edge(base, 0, Edge::new(node, Condition::AnyCharacter));
            Ok(node)
        } else if c == BACKSLASH || c == LBRACKET || c == CARET || c == DOLLAR {
            Err(ParserError::new(ParseErrorKind::Unsupported, self.pos))
        } else {
            let ch = match self.parse_pattern_char() {
                Err(e) => return Err(e),
                Ok(ch) => ch,
            };
            let node = self.graph.add_node();
            self.graph.add_edge(base, 0, Edge::new(node, Condition::Character(ch)));
            Ok(node)
        }
    }

    /// Reads a term starting at `base`: atoms in sequence, each with its
    /// optional quantifier. Returns the node where the term ends.
    fn parse_term(&mut self, base: usize) -> (r: Result<usize, ParserError>)
        requires
            old(self).wf(),
            base < old(self).graph@.nodes.len(),
        ensures
            final(self).grew(old(self)),
            match r {
                Ok(n) => n < final(self).graph@.nodes.len()
                    && build_term(old(self).pattern@, old(self).pos as int, old(self).graph@.nodes, base)
                    == Built::Ok((final(self).pos as int, final(self).graph@.nodes, n)),
                Err(e) => build_term(old(self).pattern@, old(self).pos as int, old(self).graph@.nodes, base)
                    == Built::Err((e, final(self).pos as int, final(self).graph@.nodes)),
            },
        decreases old(self).pattern@.len() - old(self).pos, 1int,
    {
        let ghost p = self.pattern@;
        let ghost goal = build_term(p, self.pos as int, self.graph@.nodes, base);
        let mut current = base;
        loop
            invariant
                self.grew(old(self)),
                p == old(self).pattern@,
                goal == build_term(p, old(self).pos as int, old(self).graph@.nodes, base),
                current < self.graph@.nodes.len(),
                build_term(p, self.pos as int, self.graph@.nodes, current) == goal,
            decreases p.len() - self.pos,
        {
            let next = self.peek();
            match next {
                None => return Ok(current),
                Some(c) => {
                    if c == PIPE || c == CLOSE {
                        return Ok(current);
                    }
                },
            }
            let ghost at = self.pos as int;
            let ghost ns = self.graph@.nodes;
            let before_atom = current;
            let atom = match self.parse_atom(current) {
                Err(e) => return Err(e),
                Ok(atom) => atom,
            };
            match self.peek() {
                Some(q) => {
                    if q == QUESTION || q == LBRACE {
                        return Err(ParserError::new(ParseErrorKind::Unsupported, self.pos));
                    } else if q == PLUS {
                        self.pos = self.pos + 1;
                        self.graph.push_edge(atom, Edge::new(current, Condition::Epsilon));
                        current = atom;
                    } else if q == STAR {
                        self.pos = self.pos + 1;
                        let exit = self.graph.add_node();
                        self.graph.push_edge(atom, Edge::new(exit, Condition::Epsilon));
                        self.graph.push_edge(atom, Edge::new(current, Condition::Epsilon));
                        self.graph.add_edge(current, 0, Edge::new(exit, Condition::Epsilon));
                        current = exit;
                    } else {
                        current = atom;
                    }
                },
                None => {
                    current = atom;
                },
            }
            assert(build_term(p, at, ns, before_atom) == build_term(p, self.pos as int, self.graph@.nodes, current));
        }
    }

    /// Reads a disjunction whose alternatives all start at `base`, and joins
    /// their ends in a new node, which is returned.
    fn parse_disjunction(&mut self, base: usize) -> (r: Result<usize, ParserError>)
        requires
            old(self).wf(),
            base < old(self).graph@.nodes.len(),
        ensures
            final(self).grew(old(self)),
            match r {
                Ok(n) => n < final(self).graph@.nodes.len()
                    && build_disjunction(old(self).pattern@, old(self).pos as int, old(self).graph@.nodes, base)
                    == Built::Ok((final(self).pos as int, final(self).graph@.nodes, n)),
                Err(e) => build_disjunction(old(self).pattern@, old(self).pos as int, old(self).graph@.nodes, base)
                    == Built::Err((e, final(self).pos as int, final(self).graph@.nodes)),
            },
        decreases old(self).pattern@.len() - old(self).pos, 2int,
    {
        let ghost p = self.pattern@;
        let ghost goal = build_disjunction(p, self.pos as int, self.graph@.nodes, base);
        let first = match self.parse_term(base) {
            Err(e) => return Err(e),
            Ok(t) => t,
        };
        let mut terms: Vec<usize> = Vec::new();
        terms.push(first);
        assert(terms@ =~= seq![first]);
        loop
            invariant
                self.grew(old(self)),
                p == old(self).pattern@,
                base < old(self).graph@.nodes.len(),
                forall|i: int| 0 <= i < terms@.len() ==> #[trigger] terms@[i] < self.graph@.nodes.len(),
                goal == build_disjunction(p, old(self).pos as int, old(self).graph@.nodes, base),
                goal == finish_disjunction(build_alternatives(p, self.pos as int, self.graph@.nodes, base, terms@)),
            ensures
                self.grew(old(self)),
                forall|i: int| 0 <= i < terms@.len() ==> #[trigger] terms@[i] < self.graph@.nodes.len(),
                goal == finish_disjunction(build_alternatives(p, self.pos as int, self.graph@.nodes, base, terms@)),
                !(self.pos < p.len() && p[self.pos as int] == PIPE),
            decreases p.len() - self.pos,
        {
            if !self.consume_if(PIPE) {
                break;
            }
            let t = match self.parse_term(base) {
                Err(e) => return Err(e),
                Ok(t) => t,
            };
            terms.push(t);
        }
        let ghost ns = self.graph@.nodes;
        let ghost ends = terms@;
        assert(goal == Built::Ok((self.pos as int, join(with_node(ns), ends, ns.len() as usize), ns.len() as usize)));
        let end = self.graph.add_node();
        assert(terms@.take(0) =~= Seq::<usize>::empty());
        let mut i: usize = 0;
        while i < terms.len()
            invariant
                self.grew(old(self)),
                p == old(self).pattern@,
                end < self.graph@.nodes.len(),
                forall|k: int| 0 <= k < terms@.len() ==> #[trigger] terms@[k] < self.graph@.nodes.len(),
                goal == build_disjunction(p, old(self).pos as int, old(self).graph@.nodes, base),
                goal == Built::Ok((self.pos as int, join(with_node(ns), ends, end), end)),
                end == ns.len(),
                terms@ == ends,
                i <= terms@.len(),
                self.graph@.nodes == join(with_node(ns), ends.take(i as int), end),
            decreases terms@.len() - i,
        {
            self.graph.push_edge(terms[i], Edge::new(end, Condition::Epsilon));
            assert(ends.take(i + 1).drop_last() =~= ends.take(i as int));
            i = i + 1;
        }
        assert(ends.take(ends.len() as int) =~= ends);
        Ok(end)
    }

    /// Reads the whole pattern into the graph and designates its start node.
    fn parse(&mut self) -> (r: Result<usize, ParserError>)
        requires
            old(self).wf(),
            old(self).pos == 0,
            old(self).graph@.start is None,
            old(self).graph@.nodes.len() == 0,
        ensures
            final(self).wf(),
            match r {
                Ok(_) => compiled(old(self).pattern@) == Ok::<GraphModel, ParserError>(final(self).graph@),
                Err(e) => compiled(old(self).pattern@) == Err::<GraphModel, ParserError>(e),
            },
    {
        let base = self.graph.add_node();
        assert(self.graph@.nodes =~= seq![Seq::<Edge>::empty()]);
        match self.parse_disjunction(base) {
            Err(e) => return Err(e),
            Ok(_) => {},
        }
        if !self.is_finished() {
            return Err(ParserError::new(ParseErrorKind::UnexpectedSymbol(Reserved::Close), self.pos));
        }
        self.graph.set_start_node(base);
        assert(self.graph@ =~= GraphModel { nodes: self.graph@.nodes, start: Some(0) });
        Ok(base)
    }
}

/// Compiles `regex` into an automaton.
///
/// Succeeds exactly when the pattern is one disjunction of the grammar from
/// its first character to its last, with the automaton `compiled` describes;
/// otherwise returns the first error met.
pub fn parse(regex: &str) -> (r: Result<Graph, ParserError>)
    ensures
        match r {
            Ok(g) => compiled(code_points_of(regex@)) == Ok::<GraphModel, ParserError>(g@) && g.wf(),
            Err(e) => compiled(code_points_of(regex@)) == Err::<GraphModel, ParserError>(e),
        },
{
    let pattern = code_points(regex);
    let _ = pattern.len();
    let mut parser = Parser { pattern, pos: 0, graph: Graph::new() };
    match parser.parse() {
        Err(e) => Err(e),
        Ok(_) => Ok(parser.graph),
    }
}

} // verus!
