//! The grammar of rule programs, as functions on the characters of the
//! (upper-cased) source, and a parser proved to follow it.
//!
//! ```text
//! program   = blank* (rule blank*)*
//! rule      = "(" state "," symbol "," state "," symbol "," direction ")"
//!             (blanks may stand around every field)
//! state     = text | text? list text?
//! symbol    = list | "^"? text | "^"
//! direction = dirs | "[" dirs "]" | "{" dirs "}"
//! list      = "[" "^"? text "]" | "{" "^"? text "}"
//! text      = unit+        unit = plain character | "\" any character
//! dirs      = ("<" | ">" | "-")+
//! ```
//! A plain character is anything but a blank (space, tab, newline, carriage
//! return), a bracket, a brace, a parenthesis, a comma or a backslash.

use vstd::prelude::*;
use crate::parser::BracesType;

verus! {

/// A range `start..end` of positions in the source.
#[derive(Debug, Clone, Copy)]
pub struct Span {
    pub start: usize,
    pub end: usize,
}

/// A bracketed symbol list, or an unbraced one: its braces, whether it is
/// complemented (`^`), and the span of its text.
#[derive(Debug, Clone, Copy)]
pub struct ListSyntax {
    pub braces: BracesType,
    pub compl: bool,
    pub body: Span,
}

/// A state field: an optional text, an optional list, and an optional text
/// after the list.
#[derive(Debug, Clone, Copy)]
pub struct StateSyntax {
    pub prefix: Option<Span>,
    pub list: Option<ListSyntax>,
    pub suffix: Option<Span>,
}

/// A symbol field: a lone `^` (every symbol of the alphabet) or a list.
#[derive(Debug, Clone, Copy)]
pub enum SymbolSyntax {
    Any,
    Listed(ListSyntax),
}

/// A direction field: its braces and the span of its direction characters.
#[derive(Debug, Clone, Copy)]
pub struct DirectionSyntax {
    pub braces: BracesType,
    pub body: Span,
}

/// The five fields of a rule.
#[derive(Debug, Clone, Copy)]
pub struct RuleSyntax {
    pub current: StateSyntax,
    pub read: SymbolSyntax,
    pub next: StateSyntax,
    pub write: SymbolSyntax,
    pub direction: DirectionSyntax,
}

pub open spec fn span(a: int, b: int) -> Span {
    Span { start: a as usize, end: b as usize }
}

/// A span that lies within a source of length `len`.
pub open spec fn span_ok(sp: Span, len: int) -> bool {
    sp.start <= sp.end <= len
}

pub open spec fn list_ok(l: ListSyntax, len: int) -> bool {
    span_ok(l.body, len)
}

pub open spec fn opt_span_ok(o: Option<Span>, len: int) -> bool {
    match o {
        Some(sp) => span_ok(sp, len),
        None => true,
    }
}

pub open spec fn state_ok(st: StateSyntax, len: int) -> bool {
    &&& opt_span_ok(st.prefix, len)
    &&& opt_span_ok(st.suffix, len)
    &&& match st.list {
        Some(l) => list_ok(l, len),
        None => st.prefix is Some,
    }
}

pub open spec fn symbol_ok(sy: SymbolSyntax, len: int) -> bool {
    match sy {
        SymbolSyntax::Any => true,
        SymbolSyntax::Listed(l) => list_ok(l, len),
    }
}

/// All spans of a rule lie within a source of length `len`.
pub open spec fn rule_ok(r: RuleSyntax, len: int) -> bool {
    &&& state_ok(r.current, len)
    &&& symbol_ok(r.read, len)
    &&& state_ok(r.next, len)
    &&& symbol_ok(r.write, len)
    &&& span_ok(r.direction.body, len)
}

pub open spec fn is_blank(c: char) -> bool {
    c == ' ' || c == '\t' || c == '\n' || c == '\r'
}

pub open spec fn is_plain(c: char) -> bool {
    !is_blank(c) && c != '(' && c != ')' && c != ',' && c != '[' && c != ']' && c != '{'
        && c != '}' && c != '\\'
}

pub open spec fn is_dir_char(c: char) -> bool {
    c == '<' || c == '>' || c == '-'
}

/// The kind of list an opening character starts.
pub open spec fn opening(c: char) -> Option<BracesType> {
    if c == '[' {
        Some(BracesType::Square)
    } else if c == '{' {
        Some(BracesType::Curly)
    } else {
        None
    }
}

/// The character that closes a list.
pub open spec fn closing(b: BracesType) -> char {
    match b {
        BracesType::Curly => '}',
        _ => ']',
    }
}

/// The first position at or after `i` that is not a blank.
pub open spec fn skip_blanks(t: Seq<char>, i: int) -> int
    decreases t.len() - i,
{
    if 0 <= i < t.len() && is_blank(t[i]) {
        skip_blanks(t, i + 1)
    } else {
        i
    }
}

/// The end of the longest run of text units starting at `i`.
pub open spec fn scan_units(t: Seq<char>, i: int) -> int
    decreases t.len() - i,
{
    if 0 <= i < t.len() && is_plain(t[i]) {
        scan_units(t, i + 1)
    } else if 0 <= i && i + 1 < t.len() && t[i] == '\\' {
        scan_units(t, i + 2)
    } else {
        i
    }
}

/// The end of the longest run of direction characters starting at `i`.
pub open spec fn scan_dirs(t: Seq<char>, i: int) -> int
    decreases t.len() - i,
{
    if 0 <= i < t.len() && is_dir_char(t[i]) {
        scan_dirs(t, i + 1)
    } else {
        i
    }
}

/// A bracketed list starting at `i`, and the position after it.
pub open spec fn parse_list(t: Seq<char>, i: int) -> Option<(ListSyntax, int)> {
    if 0 <= i < t.len() && opening(t[i]) is Some {
        let b = opening(t[i]).unwrap();
        let j = i + 1;
        let compl = j < t.len() && t[j] == '^';
        let k = if compl { j + 1 } else { j };
        let e = scan_units(t, k);
        if e > k && e < t.len() && t[e] == closing(b) {
            Some((ListSyntax { braces: b, compl, body: span(k, e) }, e + 1))
        } else {
            None
        }
    } else {
        None
    }
}

/// A state field starting at `i`, and the position after it.
pub open spec fn parse_state(t: Seq<char>, i: int) -> Option<(StateSyntax, int)> {
    let b = scan_units(t, i);
    let prefix = if b > i { Some(span(i, b)) } else { None };
    if 0 <= b < t.len() && opening(t[b]) is Some {
        match parse_list(t, b) {
            Some((l, m)) => {
                let f = scan_units(t, m);
                let suffix = if f > m { Some(span(m, f)) } else { None };
                Some((StateSyntax { prefix, list: Some(l), suffix }, f))
            },
            None => None,
        }
    } else if b > i {
        Some((StateSyntax { prefix, list: None, suffix: None }, b))
    } else {
        None
    }
}

/// A symbol field starting at `i`, and the position after it.
pub open spec fn parse_symbol(t: Seq<char>, i: int) -> Option<(SymbolSyntax, int)> {
    if 0 <= i < t.len() && opening(t[i]) is Some {
        match parse_list(t, i) {
            Some((l, m)) => Some((SymbolSyntax::Listed(l), m)),
            None => None,
        }
    } else {
        let compl = 0 <= i < t.len() && t[i] == '^';
        let k = if compl { i + 1 } else { i };
        let e = scan_units(t, k);
        if e > k {
            Some((SymbolSyntax::Listed(ListSyntax { braces: BracesType::Unbraced, compl, body: span(k, e) }), e))
        } else if compl {
            Some((SymbolSyntax::Any, k))
        } else {
            None
        }
    }
}

/// A direction field starting at `i`, and the position after it.
pub open spec fn parse_direction(t: Seq<char>, i: int) -> Option<(DirectionSyntax, int)> {
    if 0 <= i < t.len() && opening(t[i]) is Some {
        let b = opening(t[i]).unwrap();
        let k = i + 1;
        let e = scan_dirs(t, k);
        if e > k && e < t.len() && t[e] == closing(b) {
            Some((DirectionSyntax { braces: b, body: span(k, e) }, e + 1))
        } else {
            None
        }
    } else {
        let e = scan_dirs(t, i);
        if e > i {
            Some((DirectionSyntax { braces: BracesType::Unbraced, body: span(i, e) }, e))
        } else {
            None
        }
    }
}

/// The position after the character `c`, found after blanks from `i`.
pub open spec fn expect(t: Seq<char>, i: int, c: char) -> Option<int> {
    let j = skip_blanks(t, i);
    if 0 <= j < t.len() && t[j] == c {
        Some(j + 1)
    } else {
        None
    }
}

/// A rule starting at `i` (at its opening parenthesis), and the position after it.
pub open spec fn parse_rule(t: Seq<char>, i: int) -> Option<(RuleSyntax, int)> {
    if !(0 <= i < t.len() && t[i] == '(') {
        None
    } else {
        match parse_state(t, skip_blanks(t, i + 1)) {
            None => None,
            Some((current, p1)) => match expect(t, p1, ',') {
                None => None,
                Some(p2) => match parse_symbol(t, skip_blanks(t, p2)) {
                    None => None,
                    Some((read, p3)) => match expect(t, p3, ',') {
                        None => None,
                        Some(p4) => match parse_state(t, skip_blanks(t, p4)) {
                            None => None,
                            Some((next, p5)) => match expect(t, p5, ',') {
                                None => None,
                                Some(p6) => match parse_symbol(t, skip_blanks(t, p6)) {
                                    None => None,
                                    Some((write, p7)) => match expect(t, p7, ',') {
                                        None => None,
                                        Some(p8) => match parse_direction(t, skip_blanks(t, p8)) {
                                            None => None,
                                            Some((direction, p9)) => match expect(t, p9, ')') {
                                                None => None,
                                                Some(p10) => Some((
                                                    RuleSyntax { current, read, next, write, direction },
                                                    p10,
                                                )),
                                            },
                                        },
                                    },
                                },
                            },
                        },
                    },
                },
            },
        }
    }
}

/// The rules of the program from position `i` on.
pub open spec fn parse_rules_from(t: Seq<char>, i: int) -> Option<Seq<RuleSyntax>>
    decreases t.len() - i,
{
    let j = skip_blanks(t, i);
    if j < 0 || j >= t.len() {
        Some(seq![])
    } else {
        match parse_rule(t, j) {
            Some((r, e)) => if i < e <= t.len() {
                match parse_rules_from(t, e) {
                    Some(rs) => Some(seq![r].add(rs)),
                    None => None,
                }
            } else {
                None
            },
            None => None,
        }
    }
}

/// The rules of a whole program, or `None` when it does not follow the grammar.
pub open spec fn parse_program(t: Seq<char>) -> Option<Seq<RuleSyntax>> {
    parse_rules_from(t, 0)
}


fn is_blank_exec(c: char) -> (b: bool)
    ensures
        b == is_blank(c),
{
    c == ' ' || c == '\t' || c == '\n' || c == '\r'
}

fn is_plain_exec(c: char) -> (b: bool)
    ensures
        b == is_plain(c),
{
    !is_blank_exec(c) && c != '(' && c != ')' && c != ',' && c != '[' && c != ']' && c != '{'
        && c != '}' && c != '\\'
}

fn is_dir_char_exec(c: char) -> (b: bool)
    ensures
        b == is_dir_char(c),
{
    c == '<' || c == '>' || c == '-'
}

fn opening_exec(c: char) -> (r: Option<BracesType>)
    ensures
        r == opening(c),
{
    if c == '[' {
        Some(BracesType::Square)
    } else if c == '{' {
        Some(BracesType::Curly)
    } else {
        None
    }
}

fn closing_exec(b: BracesType) -> (c: char)
    ensures
        c == closing(b),
{
    match b {
        BracesType::Curly => '}',
        _ => ']',
    }
}

fn skip_blanks_exec(t: &Vec<char>, i: usize) -> (j: usize)
    requires
        i <= t.len(),
    ensures
        j == skip_blanks(t@, i as int),
        i <= j <= t.len(),
{
    let mut j = i;
    while j < t.len() && is_blank_exec(t[j])
        invariant
            i <= j <= t.len(),
            skip_blanks(t@, j as int) == skip_blanks(t@, i as int),
        decreases t.len() - j,
    {
        j = j + 1;
    }
    j
}

fn scan_units_exec(t: &Vec<char>, i: usize) -> (j: usize)
    requires
        i <= t.len(),
    ensures
        j == scan_units(t@, i as int),
        i <= j <= t.len(),
{
    let mut j = i;
    loop
        invariant
            i <= j <= t.len(),
            scan_units(t@, j as int) == scan_units(t@, i as int),
        decreases t.len() - j,
    {
        if j < t.len() && is_plain_exec(t[j]) {
            j = j + 1;
        } else if j < t.len() && j + 1 < t.len() && t[j] == '\\' {
            j = j + 2;
        } else {
            return j;
        }
    }
}

fn scan_dirs_exec(t: &Vec<char>, i: usize) -> (j: usize)
    requires
        i <= t.len(),
    ensures
        j == scan_dirs(t@, i as int),
        i <= j <= t.len(),
{
    let mut j = i;
    while j < t.len() && is_dir_char_exec(t[j])
        invariant
            i <= j <= t.len(),
            scan_dirs(t@, j as int) == scan_dirs(t@, i as int),
        decreases t.len() - j,
    {
        j = j + 1;
    }
    j
}

fn parse_list_exec(t: &Vec<char>, i: usize) -> (r: Option<(ListSyntax, usize)>)
    requires
        i <= t.len(),
    ensures
        match r {
            Some((l, e)) => parse_list(t@, i as int) == Some((l, e as int)) && e <= t.len() && list_ok(l, t.len() as int),
            None => parse_list(t@, i as int) is None,
        },
{
    if i >= t.len() {
        return None;
    }
    let b = match opening_exec(t[i]) {
        Some(b) => b,
        None => {
            return None;
        },
    };
    let j = i + 1;
    let compl = j < t.len() && t[j] == '^';
    let k = if compl { j + 1 } else { j };
    let e = scan_units_exec(t, k);
    if e > k && e < t.len() && t[e] == closing_exec(b) {
        Some((ListSyntax { braces: b, compl, body: Span { start: k, end: e } }, e + 1))
    } else {
        None
    }
}

fn parse_state_exec(t: &Vec<char>, i: usize) -> (r: Option<(StateSyntax, usize)>)
    requires
        i <= t.len(),
    ensures
        match r {
            Some((x, e)) => parse_state(t@, i as int) == Some((x, e as int)) && e <= t.len() && state_ok(x, t.len() as int),
            None => parse_state(t@, i as int) is None,
        },
{
    let b = scan_units_exec(t, i);
    let prefix = if b > i { Some(Span { start: i, end: b }) } else { None };
    if b < t.len() && opening_exec(t[b]).is_some() {
        match parse_list_exec(t, b) {
            Some((l, m)) => {
                let f = scan_units_exec(t, m);
                let suffix = if f > m { Some(Span { start: m, end: f }) } else { None };
                Some((StateSyntax { prefix, list: Some(l), suffix }, f))
            },
            None => None,
        }
    } else if b > i {
        Some((StateSyntax { prefix, list: None, suffix: None }, b))
    } else {
        None
    }
}

fn parse_symbol_exec(t: &Vec<char>, i: usize) -> (r: Option<(SymbolSyntax, usize)>)
    requires
        i <= t.len(),
    ensures
        match r {
            Some((x, e)) => parse_symbol(t@, i as int) == Some((x, e as int)) && e <= t.len() && symbol_ok(x, t.len() as int),
            None => parse_symbol(t@, i as int) is None,
        },
{
    if i < t.len() && opening_exec(t[i]).is_some() {
        match parse_list_exec(t, i) {
            Some((l, m)) => Some((SymbolSyntax::Listed(l), m)),
            None => None,
        }
    } else {
        let compl = i < t.len() && t[i] == '^';
        let k = if compl { i + 1 } else { i };
        let e = scan_units_exec(t, k);
        if e > k {
            Some((SymbolSyntax::Listed(ListSyntax { braces: BracesType::Unbraced, compl, body: Span { start: k, end: e } }), e))
        } else if compl {
            Some((SymbolSyntax::Any, k))
        } else {
            None
        }
    }
}

fn parse_direction_exec(t: &Vec<char>, i: usize) -> (r: Option<(DirectionSyntax, usize)>)
    requires
        i <= t.len(),
    ensures
        match r {
            Some((x, e)) => parse_direction(t@, i as int) == Some((x, e as int)) && e <= t.len() && span_ok(x.body, t.len() as int),
            None => parse_direction(t@, i as int) is None,
        },
{
    if i < t.len() && opening_exec(t[i]).is_some() {
        let b = match opening_exec(t[i]) {
            Some(b) => b,
            None => {
                return None;
            },
        };
        let k = i + 1;
        let e = scan_dirs_exec(t, k);
        if e > k && e < t.len() && t[e] == closing_exec(b) {
            Some((DirectionSyntax { braces: b, body: Span { start: k, end: e } }, e + 1))
        } else {
            None
        }
    } else {
        let e = scan_dirs_exec(t, i);
        if e > i {
            Some((DirectionSyntax { braces: BracesType::Unbraced, body: Span { start: i, end: e } }, e))
        } else {
            None
        }
    }
}

fn expect_exec(t: &Vec<char>, i: usize, c: char) -> (r: Option<usize>)
    requires
        i <= t.len(),
    ensures
        match r {
            Some(e) => expect(t@, i as int, c) == Some(e as int) && e <= t.len(),
            None => expect(t@, i as int, c) is None,
        },
{
    let j = skip_blanks_exec(t, i);
    if j < t.len() && t[j] == c {
        Some(j + 1)
    } else {
        None
    }
}

fn parse_rule_exec(t: &Vec<char>, i: usize) -> (r: Option<(RuleSyntax, usize)>)
    requires
        i <= t.len(),
    ensures
        match r {
            Some((x, e)) => parse_rule(t@, i as int) == Some((x, e as int)) && e <= t.len() && rule_ok(x, t.len() as int),
            None => parse_rule(t@, i as int) is None,
        },
{
    if !(i < t.len() && t[i] == '(') {
        return None;
    }
    let (current, p1) = match parse_state_exec(t, skip_blanks_exec(t, i + 1)) {
        Some(x) => x,
        None => {
            return None;
        },
    };
    let p2 = match expect_exec(t, p1, ',') {
        Some(x) => x,
        None => {
            return None;
        },
    };
    let (read, p3) = match parse_symbol_exec(t, skip_blanks_exec(t, p2)) {
        Some(x) => x,
        None => {
            return None;
        },
    };
    let p4 = match expect_exec(t, p3, ',') {
        Some(x) => x,
        None => {
            return None;
        },
    };
    let (next, p5) = match parse_state_exec(t, skip_blanks_exec(t, p4)) {
        Some(x) => x,
        None => {
            return None;
        },
    };
    let p6 = match expect_exec(t, p5, ',') {
        Some(x) => x,
        None => {
            return None;
        },
    };
    let (write, p7) = match parse_symbol_exec(t, skip_blanks_exec(t, p6)) {
        Some(x) => x,
        None => {
            return None;
        },
    };
    let p8 = match expect_exec(t, p7, ',') {
        Some(x) => x,
        None => {
            return None;
        },
    };
    let (direction, p9) = match parse_direction_exec(t, skip_blanks_exec(t, p8)) {
        Some(x) => x,
        None => {
            return None;
        },
    };
    let p10 = match expect_exec(t, p9, ')') {
        Some(x) => x,
        None => {
            return None;
        },
    };
    Some((RuleSyntax { current, read, next, write, direction }, p10))
}

/// `p` in front of the rules in `o`, if there are any.
pub open spec fn prepend_rules(p: Seq<RuleSyntax>, o: Option<Seq<RuleSyntax>>) -> Option<Seq<RuleSyntax>> {
    match o {
        Some(x) => Some(p + x),
        None => None,
    }
}

/// Parses a whole program into its rules; `None` when it does not follow the
/// grammar.
pub fn parse_program_exec(t: &Vec<char>) -> (r: Option<Vec<RuleSyntax>>)
    ensures
        match r {
            Some(v) => parse_program(t@) == Some(v@) && forall|k: int| 0 <= k < v.len() ==> rule_ok(#[trigger] v@[k], t.len() as int),
            None => parse_program(t@) is None,
        },
{
    let mut out: Vec<RuleSyntax> = Vec::new();
    let mut pos: usize = 0;
    loop
        invariant
            pos <= t.len(),
            parse_program(t@) == prepend_rules(out@, parse_rules_from(t@, pos as int)),
            forall|k: int| 0 <= k < out.len() ==> rule_ok(#[trigger] out@[k], t.len() as int),
        decreases t.len() - pos,
    {
        let j = skip_blanks_exec(t, pos);
        if j >= t.len() {
            assert(out@ + seq![] =~= out@);
            return Some(out);
        }
        match parse_rule_exec(t, j) {
            Some((r, e)) => {
                if pos < e {
                    let ghost before = out@;
                    out.push(r);
                    proof {
                        match parse_rules_from(t@, e as int) {
                            Some(rs) => {
                                assert(before + seq![r].add(rs) =~= out@ + rs);
                            },
                            None => {},
                        }
                    }
                    pos = e;
                } else {
                    return None;
                }
            },
            None => {
                return None;
            },
        }
    }
}

} // verus!
