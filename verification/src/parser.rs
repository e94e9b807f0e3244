//! From rule programs to transition rules: each rule of a program stands for
//! a family of rules, one for each combination of the entries of its lists.

use vstd::prelude::*;
use vstd::utf8::encode_utf8;
use crate::expand::{expand_spec, expands, expand_symbol_list, slice_chars, push_all};
use crate::pattern::{Pattern, regex_compiles, regex_replace_all};
use crate::rule::{HeadDirection, MDTRule, RuleView};
use crate::syntax::{Span, ListSyntax, StateSyntax, SymbolSyntax, DirectionSyntax, RuleSyntax, rule_ok, state_ok, symbol_ok, span_ok, opt_span_ok, parse_program, parse_program_exec};
use crate::text::{string_of, all_ascii, uppercase};

verus! {

/// How a field's list is written: without braces, in `[...]` or in `{...}`.
/// Fields with square braces vary together, and so do fields with curly
/// braces and unbraced fields with more than one entry.
#[derive(Debug, Clone, Copy, PartialEq, Eq, Structural)]
pub enum BracesType {
    Unbraced,
    Square,
    Curly,
}

/// Matches a `-`, together with the character before it when that is not a
/// backslash.
pub const DASH_PATTERN: &'static str = r"(?P<before>[^\\]?)\-";

/// Keeps the character before the `-` and puts a blank for the `-`.
pub const DASH_REPLACEMENT: &'static str = "${before} ";

/// Matches a backslash and the character it escapes.
pub const ESCAPE_PATTERN: &'static str = r"\\(?P<next>.)";

/// Keeps the escaped character.
pub const ESCAPE_REPLACEMENT: &'static str = "${next}";

/// The text of a field as the machine sees it: the result of replacing by
/// `DASH_PATTERN` (which makes a `-` a blank) and then by `ESCAPE_PATTERN`
/// (which drops the backslash of an escape).
pub open spec fn cleaned(s: Seq<char>) -> Seq<char> {
    regex_replace_all(
        ESCAPE_PATTERN@,
        regex_replace_all(DASH_PATTERN@, s, DASH_REPLACEMENT@),
        ESCAPE_REPLACEMENT@,
    )
}

/// Whether both patterns that clean field texts compile.
pub open spec fn cleaner_available() -> bool {
    regex_compiles(DASH_PATTERN@) && regex_compiles(ESCAPE_PATTERN@)
}

/// The two compiled patterns that clean field texts.
pub struct Cleaner {
    dashes: Pattern,
    escapes: Pattern,
}

impl Cleaner {
    pub closed spec fn wf(&self) -> bool {
        &&& self.dashes.source() == DASH_PATTERN@
        &&& self.escapes.source() == ESCAPE_PATTERN@
    }

    /// Compiles the two patterns; `None` exactly when one does not compile.
    pub fn new() -> (r: Option<Cleaner>)
        ensures
            r is Some <==> cleaner_available(),
            r matches Some(c) ==> c.wf(),
    {
        let dashes = match Pattern::compile(DASH_PATTERN) {
            Some(p) => p,
            None => {
                return None;
            },
        };
        let escapes = match Pattern::compile(ESCAPE_PATTERN) {
            Some(p) => p,
            None => {
                return None;
            },
        };
        Some(Cleaner { dashes, escapes })
    }
}

/// Turns each `-` into a blank and each escaped character into itself.
fn cleanup_string(c: &Cleaner, s: &str) -> (r: String)
    requires
        c.wf(),
    ensures
        r@ == cleaned(s@),
{
    let out = c.dashes.replace_all(s, DASH_REPLACEMENT);
    c.escapes.replace_all(out.as_str(), ESCAPE_REPLACEMENT)
}

/// `cleanup_string` on a character vector, giving characters back.
fn cleanup_chars(c: &Cleaner, s: &Vec<char>) -> (r: Vec<char>)
    requires
        c.wf(),
    ensures
        r@ == cleaned(s@),
{
    let st = string_of(s.as_slice());
    let out = cleanup_string(c, st.as_str());
    crate::text::chars_of(out.as_str())
}

/// The text that a span covers.
pub open spec fn text_of(t: Seq<char>, sp: Span) -> Seq<char> {
    t.subrange(sp.start as int, sp.end as int)
}

/// The cleaned text of an optional span, empty when there is none.
pub open spec fn opt_cleaned(t: Seq<char>, o: Option<Span>) -> Seq<char> {
    match o {
        Some(sp) => cleaned(text_of(t, sp)),
        None => seq![],
    }
}

/// The symbols a list stands for: expanded, complemented if marked, cleaned.
pub open spec fn list_symbols(t: Seq<char>, l: ListSyntax) -> Option<Seq<char>> {
    match expand_spec(text_of(t, l.body), l.compl) {
        Some(e) => Some(cleaned(e)),
        None => None,
    }
}

/// The state names a state field stands for, its braces, and its length.
pub open spec fn state_entries(t: Seq<char>, st: StateSyntax) -> Option<(BracesType, Seq<Seq<char>>, usize)> {
    match st.list {
        None => Some((BracesType::Unbraced, seq![opt_cleaned(t, st.prefix)], 1usize)),
        Some(l) => match list_symbols(t, l) {
            None => None,
            Some(syms) => {
                let first = opt_cleaned(t, st.prefix);
                let second = opt_cleaned(t, st.suffix);
                Some((l.braces, syms.map_values(|c: char| first + seq![c] + second), syms.len() as usize))
            },
        },
    }
}

/// The symbols a symbol field stands for, its braces, and its length: the
/// number of bytes of the symbols in UTF-8.
pub open spec fn symbol_entries(t: Seq<char>, sy: SymbolSyntax) -> Option<(BracesType, Seq<char>, usize)> {
    let (b, e) = match sy {
        SymbolSyntax::Any => (BracesType::Unbraced, expand_spec(seq![], true)),
        SymbolSyntax::Listed(l) => (l.braces, expand_spec(text_of(t, l.body), l.compl)),
    };
    match e {
        None => None,
        Some(x) => {
            let syms = cleaned(x);
            Some((b, syms, encode_utf8(syms).len() as usize))
        },
    }
}

/// The direction a character stands for.
pub open spec fn direction_of(c: char) -> HeadDirection {
    if c == '>' {
        HeadDirection::Right
    } else if c == '<' {
        HeadDirection::Left
    } else {
        HeadDirection::Stay
    }
}

/// The directions a direction field stands for, its braces, and its length.
pub open spec fn direction_entries(t: Seq<char>, d: DirectionSyntax) -> (BracesType, Seq<HeadDirection>, usize) {
    let text = text_of(t, d.body);
    (d.braces, text.map_values(|c: char| direction_of(c)), text.len() as usize)
}

/// One field's effect on the length shared by the fields with braces `target`
/// (`None`: two such fields differ in length). An unbraced field of length 1
/// does not take part.
pub open spec fn update_dim(acc: Option<Option<usize>>, target: BracesType, b: BracesType, len: usize) -> Option<Option<usize>> {
    match acc {
        None => None,
        Some(cur) => if b == target && (b != BracesType::Unbraced || len != 1) {
            match cur {
                None => Some(Some(len)),
                Some(l) => if l == len {
                    Some(Some(l))
                } else {
                    None
                },
            }
        } else {
            Some(cur)
        },
    }
}

/// The entry at index `i`, or the last entry when the list is shorter.
pub open spec fn pick<A>(v: Seq<A>, i: int) -> A {
    if 0 <= i < v.len() {
        v[i]
    } else {
        v.last()
    }
}

/// The index that a field with braces `b` uses.
pub open spec fn index_for(b: BracesType, nb: int, sb: int, cb: int) -> int {
    match b {
        BracesType::Unbraced => nb,
        BracesType::Square => sb,
        BracesType::Curly => cb,
    }
}

/// The entries of the five fields of a rule.
pub struct RuleEntries {
    pub current: (BracesType, Seq<Seq<char>>, usize),
    pub read: (BracesType, Seq<char>, usize),
    pub next: (BracesType, Seq<Seq<char>>, usize),
    pub write: (BracesType, Seq<char>, usize),
    pub direction: (BracesType, Seq<HeadDirection>, usize),
}

impl RuleEntries {
    /// The length shared by the fields with braces `target`, taking the
    /// fields in order; `Some(None)` when no field takes part, `None` when
    /// two of them differ.
    pub open spec fn shared_dim(self, target: BracesType) -> Option<Option<usize>> {
        let a0 = update_dim(Some(None), target, self.current.0, self.current.2);
        let a1 = update_dim(a0, target, self.read.0, self.read.2);
        let a2 = update_dim(a1, target, self.next.0, self.next.2);
        let a3 = update_dim(a2, target, self.write.0, self.write.2);
        update_dim(a3, target, self.direction.0, self.direction.2)
    }

    /// The fields agree on the lengths of each kind of braces.
    pub open spec fn dims_agree(self) -> bool {
        &&& self.shared_dim(BracesType::Unbraced) is Some
        &&& self.shared_dim(BracesType::Square) is Some
        &&& self.shared_dim(BracesType::Curly) is Some
    }

    /// How many values the index of braces `target` runs over (1 when no
    /// field takes part).
    pub open spec fn dim(self, target: BracesType) -> usize {
        match self.shared_dim(target) {
            Some(Some(n)) => n,
            _ => 1,
        }
    }

    /// The rule for the index triple `(nb, sb, cb)`.
    pub open spec fn rule_at(self, nb: int, sb: int, cb: int) -> RuleView {
        RuleView {
            current_state: pick(self.current.1, index_for(self.current.0, nb, sb, cb)),
            read_symbol: pick(self.read.1, index_for(self.read.0, nb, sb, cb)),
            next_state: pick(self.next.1, index_for(self.next.0, nb, sb, cb)),
            write_symbol: pick(self.write.1, index_for(self.write.0, nb, sb, cb)),
            direction: pick(self.direction.1, index_for(self.direction.0, nb, sb, cb)),
        }
    }

    /// All the rules, the unbraced index varying slowest and the curly one
    /// fastest.
    pub open spec fn grid(self) -> Seq<RuleView> {
        let n = self.dim(BracesType::Unbraced) as int;
        let s = self.dim(BracesType::Square) as int;
        let c = self.dim(BracesType::Curly) as int;
        Seq::new((n * s * c) as nat, |k: int| self.rule_at(k / (s * c), (k / c) % s, k % c))
    }
}

/// The rules that one rule of a program stands for; `None` when a list is
/// malformed or fields that vary together differ in length.
pub open spec fn rule_family(t: Seq<char>, r: RuleSyntax) -> Option<Seq<RuleView>> {
    match (state_entries(t, r.current), symbol_entries(t, r.read), state_entries(t, r.next), symbol_entries(t, r.write)) {
        (Some(cur), Some(rd), Some(nx), Some(wr)) => {
            let e = RuleEntries { current: cur, read: rd, next: nx, write: wr, direction: direction_entries(t, r.direction) };
            if e.dims_agree() {
                Some(e.grid())
            } else {
                None
            }
        },
        _ => None,
    }
}

/// The rules of all the rules of a program, in order.
pub open spec fn all_families(t: Seq<char>, rs: Seq<RuleSyntax>) -> Option<Seq<RuleView>>
    decreases rs.len(),
{
    if rs.len() == 0 {
        Some(seq![])
    } else {
        match (all_families(t, rs.drop_last()), rule_family(t, rs.last())) {
            (Some(a), Some(b)) => Some(a + b),
            _ => None,
        }
    }
}


/// The views of a sequence of strings.
pub open spec fn string_views(v: Seq<String>) -> Seq<Seq<char>> {
    Seq::new(v.len(), |i: int| v[i]@)
}

/// The views of a sequence of rules.
pub open spec fn rule_views(v: Seq<MDTRule>) -> Seq<RuleView> {
    Seq::new(v.len(), |i: int| v[i]@)
}

/// The cleaned text of an optional span (empty when there is none).
fn opt_cleaned_exec(c: &Cleaner, t: &Vec<char>, o: Option<Span>) -> (r: Vec<char>)
    requires
        c.wf(),
        opt_span_ok(o, t.len() as int),
    ensures
        r@ == opt_cleaned(t@, o),
{
    match o {
        Some(sp) => cleanup_chars(c, &slice_chars(t, sp.start, sp.end)),
        None => Vec::new(),
    }
}

/// Whether the list of a state field, if it has one, is well formed.
fn state_field_expands(t: &Vec<char>, st: StateSyntax) -> (b: bool)
    requires
        state_ok(st, t.len() as int),
    ensures
        b == state_entries(t@, st) is Some,
{
    match st.list {
        None => true,
        Some(l) => expands(&slice_chars(t, l.body.start, l.body.end), l.compl),
    }
}

/// The state names a state field stands for, its braces and its length.
pub fn generate_states_from_state_pair(c: &Cleaner, t: &Vec<char>, st: StateSyntax) -> (r: (BracesType, Vec<String>, usize))
    requires
        c.wf(),
        state_ok(st, t.len() as int),
        state_entries(t@, st) is Some,
    ensures
        state_entries(t@, st) == Some((r.0, string_views(r.1@), r.2)),
        r.2 == r.1.len(),
{
    match st.list {
        None => {
            let p = opt_cleaned_exec(c, t, st.prefix);
            let mut v: Vec<String> = Vec::new();
            v.push(string_of(p.as_slice()));
            assert(string_views(v@) =~= seq![opt_cleaned(t@, st.prefix)]);
            (BracesType::Unbraced, v, 1)
        },
        Some(l) => {
            let e = expand_symbol_list(&slice_chars(t, l.body.start, l.body.end), l.compl);
            let syms = cleanup_chars(c, &e);
            let first = opt_cleaned_exec(c, t, st.prefix);
            let second = opt_cleaned_exec(c, t, st.suffix);
            let ghost f = |ch: char| first@ + seq![ch] + second@;
            let mut v: Vec<String> = Vec::new();
            let mut i: usize = 0;
            while i < syms.len()
                invariant
                    i <= syms.len(),
                    string_views(v@) =~= syms@.take(i as int).map_values(f),
                    f == (|ch: char| first@ + seq![ch] + second@),
                decreases syms.len() - i,
            {
                let mut name: Vec<char> = Vec::new();
                push_all(&mut name, &first);
                name.push(syms[i]);
                push_all(&mut name, &second);
                let ghost before = v@;
                v.push(string_of(name.as_slice()));
                assert(string_views(v@) =~= string_views(before).push(name@));
                assert(name@ == f(syms@[i as int]));
                assert(syms@.take(i + 1) =~= syms@.take(i as int).push(syms@[i as int]));
                assert(syms@.take(i + 1).map_values(f) =~= syms@.take(i as int).map_values(f).push(f(syms@[i as int])));
                i = i + 1;
            }
            assert(syms@.take(syms.len() as int) =~= syms@);
            (l.braces, v, syms.len())
        },
    }
}

/// Whether the list of a symbol field is well formed.
fn symbol_field_expands(t: &Vec<char>, sy: SymbolSyntax) -> (b: bool)
    requires
        symbol_ok(sy, t.len() as int),
    ensures
        b == symbol_entries(t@, sy) is Some,
{
    match sy {
        SymbolSyntax::Any => {
            let nothing: Vec<char> = Vec::new();
            assert(nothing@ =~= seq![]);
            expands(&nothing, true)
        },
        SymbolSyntax::Listed(l) => expands(&slice_chars(t, l.body.start, l.body.end), l.compl),
    }
}

/// The symbols a symbol field stands for, its braces and its length in bytes.
pub fn generate_states_from_symbol_pair(c: &Cleaner, t: &Vec<char>, sy: SymbolSyntax) -> (r: (BracesType, Vec<char>, usize))
    requires
        c.wf(),
        symbol_ok(sy, t.len() as int),
        symbol_entries(t@, sy) is Some,
    ensures
        symbol_entries(t@, sy) == Some((r.0, r.1@, r.2)),
        r.1.len() == 0 ==> r.2 == 0,
{
    let nothing: Vec<char> = Vec::new();
    proof {
        assert(nothing@ =~= seq![]);
    }
    let (b, x) = match sy {
        SymbolSyntax::Any => (BracesType::Unbraced, expand_symbol_list(&nothing, true)),
        SymbolSyntax::Listed(l) => (l.braces, expand_symbol_list(&slice_chars(t, l.body.start, l.body.end), l.compl)),
    };
    let syms = cleanup_chars(c, &x);
    let as_text = string_of(syms.as_slice());
    let n = as_text.as_str().len();
    proof {
        if syms.len() == 0 {
            assert(syms@ =~= seq![]);
            assert(encode_utf8(syms@) =~= seq![]);
        }
    }
    (b, syms, n)
}

/// The direction a character stands for.
fn direction_of_exec(ch: char) -> (d: HeadDirection)
    ensures
        d == direction_of(ch),
{
    if ch == '>' {
        HeadDirection::Right
    } else if ch == '<' {
        HeadDirection::Left
    } else {
        HeadDirection::Stay
    }
}

/// The directions a direction field stands for, its braces and its length.
pub fn generate_states_from_direction_pair(t: &Vec<char>, d: DirectionSyntax) -> (r: (BracesType, Vec<HeadDirection>, usize))
    requires
        span_ok(d.body, t.len() as int),
    ensures
        r.0 == direction_entries(t@, d).0,
        r.1@ == direction_entries(t@, d).1,
        r.2 == direction_entries(t@, d).2,
{
    let text = slice_chars(t, d.body.start, d.body.end);
    let mut v: Vec<HeadDirection> = Vec::new();
    let mut i: usize = 0;
    while i < text.len()
        invariant
            i <= text.len(),
            v@ =~= text@.take(i as int).map_values(|ch: char| direction_of(ch)),
        decreases text.len() - i,
    {
        v.push(direction_of_exec(text[i]));
        assert(text@.take(i + 1) =~= text@.take(i as int).push(text@[i as int]));
        i = i + 1;
    }
    assert(text@.take(text.len() as int) =~= text@);
    (d.braces, v, text.len())
}

/// `update_dim`, run.
fn update_dim_exec(acc: Option<Option<usize>>, target: BracesType, b: BracesType, len: usize) -> (r: Option<Option<usize>>)
    ensures
        r == update_dim(acc, target, b, len),
{
    match acc {
        None => None,
        Some(cur) => if b == target && (b != BracesType::Unbraced || len != 1) {
            match cur {
                None => Some(Some(len)),
                Some(l) => if l == len {
                    Some(Some(l))
                } else {
                    None
                },
            }
        } else {
            Some(cur)
        },
    }
}

/// The index that a field with braces `b` uses.
fn index_for_exec(b: BracesType, nb: usize, sb: usize, cb: usize) -> (i: usize)
    ensures
        i as int == index_for(b, nb as int, sb as int, cb as int),
{
    match b {
        BracesType::Unbraced => nb,
        BracesType::Square => sb,
        BracesType::Curly => cb,
    }
}

fn pick_string(v: &Vec<String>, i: usize) -> (r: String)
    requires
        v.len() > 0,
    ensures
        r@ == pick(string_views(v@), i as int),
{
    if i < v.len() {
        v[i].clone()
    } else {
        v[v.len() - 1].clone()
    }
}

fn pick_char(v: &Vec<char>, i: usize) -> (r: char)
    requires
        v.len() > 0,
    ensures
        r == pick(v@, i as int),
{
    if i < v.len() {
        v[i]
    } else {
        v[v.len() - 1]
    }
}

fn pick_direction(v: &Vec<HeadDirection>, i: usize) -> (r: HeadDirection)
    requires
        v.len() > 0,
    ensures
        r == pick(v@, i as int),
{
    if i < v.len() {
        v[i]
    } else {
        v[v.len() - 1]
    }
}

/// Where the `k`-th rule of a family comes from: for `k = nb*(s*c) + sb*c + cb`
/// the index triple is recovered by division.
proof fn lemma_grid_index(s: int, c: int, nb: int, sb: int, cb: int)
    requires
        0 <= nb,
        0 <= sb < s,
        0 <= cb < c,
    ensures
        ({
            let k = nb * (s * c) + sb * c + cb;
            &&& 0 <= k
            &&& k / (s * c) == nb
            &&& (k / c) % s == sb
            &&& k % c == cb
        }),
{
    let k = nb * (s * c) + sb * c + cb;
    assert(nb * (s * c) + sb * c + cb == (nb * s + sb) * c + cb) by (nonlinear_arith);
    assert(0 <= sb * c + cb < s * c) by (nonlinear_arith)
        requires
            0 <= sb < s,
            0 <= cb < c,
    ;
    assert(0 <= nb * (s * c)) by (nonlinear_arith)
        requires
            0 <= nb,
            0 <= sb < s,
            0 <= cb < c,
    ;
    vstd::arithmetic::div_mod::lemma_fundamental_div_mod_converse(k, s * c, nb, sb * c + cb);
    vstd::arithmetic::div_mod::lemma_fundamental_div_mod_converse(k, c, nb * s + sb, cb);
    vstd::arithmetic::div_mod::lemma_fundamental_div_mod_converse(nb * s + sb, s, nb, sb);
}


/// An update of a settled length either keeps it or reports a conflict.
proof fn lemma_update_keeps(acc: Option<Option<usize>>, target: BracesType, b: BracesType, len: usize)
    ensures
        acc is None ==> update_dim(acc, target, b, len) is None,
        acc matches Some(Some(x)) ==> (update_dim(acc, target, b, len) is None || update_dim(acc, target, b, len) == Some(Some(x))),
{
}

/// While the three indices are within their ranges, every field has an entry.
proof fn lemma_entries_nonempty(e: RuleEntries, nb: int, sb: int, cb: int)
    requires
        e.dims_agree(),
        0 <= nb < e.dim(BracesType::Unbraced),
        0 <= sb < e.dim(BracesType::Square),
        0 <= cb < e.dim(BracesType::Curly),
        e.current.1.len() == 0 ==> e.current.2 == 0,
        e.read.1.len() == 0 ==> e.read.2 == 0,
        e.next.1.len() == 0 ==> e.next.2 == 0,
        e.write.1.len() == 0 ==> e.write.2 == 0,
        e.direction.1.len() == 0 ==> e.direction.2 == 0,
    ensures
        e.current.1.len() > 0,
        e.read.1.len() > 0,
        e.next.1.len() > 0,
        e.write.1.len() > 0,
        e.direction.1.len() > 0,
{
    let targets = seq![BracesType::Unbraced, BracesType::Square, BracesType::Curly];
    assert forall|k: int| 0 <= k < 3 implies {
        let tg = #[trigger] targets[k];
        let a0 = update_dim(Some(None), tg, e.current.0, e.current.2);
        let a1 = update_dim(a0, tg, e.read.0, e.read.2);
        let a2 = update_dim(a1, tg, e.next.0, e.next.2);
        let a3 = update_dim(a2, tg, e.write.0, e.write.2);
        &&& a0 is Some && a1 is Some && a2 is Some && a3 is Some
        &&& (a0 matches Some(Some(x)) ==> e.shared_dim(tg) == Some(Some(x)))
        &&& (a1 matches Some(Some(x)) ==> e.shared_dim(tg) == Some(Some(x)))
        &&& (a2 matches Some(Some(x)) ==> e.shared_dim(tg) == Some(Some(x)))
        &&& (a3 matches Some(Some(x)) ==> e.shared_dim(tg) == Some(Some(x)))
    } by {
        let tg = targets[k];
        let a0 = update_dim(Some(None), tg, e.current.0, e.current.2);
        let a1 = update_dim(a0, tg, e.read.0, e.read.2);
        let a2 = update_dim(a1, tg, e.next.0, e.next.2);
        let a3 = update_dim(a2, tg, e.write.0, e.write.2);
        lemma_update_keeps(a0, tg, e.read.0, e.read.2);
        lemma_update_keeps(a1, tg, e.next.0, e.next.2);
        lemma_update_keeps(a2, tg, e.write.0, e.write.2);
        lemma_update_keeps(a3, tg, e.direction.0, e.direction.2);
        assert(e.shared_dim(tg) is Some);
    }
    assert(targets[0] == BracesType::Unbraced);
    assert(targets[1] == BracesType::Square);
    assert(targets[2] == BracesType::Curly);
}

/// The entries of the five fields of a rule: for each, its braces, its
/// entries and its length.
pub struct FieldEntries {
    pub cur_b: BracesType,
    pub cur_v: Vec<String>,
    pub cur_l: usize,
    pub read_b: BracesType,
    pub read_v: Vec<char>,
    pub read_l: usize,
    pub next_b: BracesType,
    pub next_v: Vec<String>,
    pub next_l: usize,
    pub write_b: BracesType,
    pub write_v: Vec<char>,
    pub write_l: usize,
    pub dir_b: BracesType,
    pub dir_v: Vec<HeadDirection>,
    pub dir_l: usize,
}

impl FieldEntries {
    /// The entries as mathematical values.
    pub open spec fn entries(&self) -> RuleEntries {
        RuleEntries {
            current: (self.cur_b, string_views(self.cur_v@), self.cur_l),
            read: (self.read_b, self.read_v@, self.read_l),
            next: (self.next_b, string_views(self.next_v@), self.next_l),
            write: (self.write_b, self.write_v@, self.write_l),
            direction: (self.dir_b, self.dir_v@, self.dir_l),
        }
    }

    /// A field without entries has length 0 (as every field the parser
    /// builds has).
    pub open spec fn lengths_ok(&self) -> bool {
        let e = self.entries();
        &&& (e.current.1.len() == 0 ==> e.current.2 == 0)
        &&& (e.read.1.len() == 0 ==> e.read.2 == 0)
        &&& (e.next.1.len() == 0 ==> e.next.2 == 0)
        &&& (e.write.1.len() == 0 ==> e.write.2 == 0)
        &&& (e.direction.1.len() == 0 ==> e.direction.2 == 0)
    }

    /// The length shared by the fields with braces `target`.
    fn shared_dim(&self, target: BracesType) -> (r: Option<Option<usize>>)
        ensures
            r == self.entries().shared_dim(target),
    {
        let mut acc = update_dim_exec(Some(None), target, self.cur_b, self.cur_l);
        acc = update_dim_exec(acc, target, self.read_b, self.read_l);
        acc = update_dim_exec(acc, target, self.next_b, self.next_l);
        acc = update_dim_exec(acc, target, self.write_b, self.write_l);
        update_dim_exec(acc, target, self.dir_b, self.dir_l)
    }

    /// The ranges of the three indices; `None` when the fields disagree.
    fn dims(&self) -> (r: Option<(usize, usize, usize)>)
        ensures
            r is Some <==> self.entries().dims_agree(),
            r matches Some((n, s, c)) ==> {
                &&& n == self.entries().dim(BracesType::Unbraced)
                &&& s == self.entries().dim(BracesType::Square)
                &&& c == self.entries().dim(BracesType::Curly)
            },
    {
        let n = match self.shared_dim(BracesType::Unbraced) {
            None => {
                return None;
            },
            Some(Some(x)) => x,
            Some(None) => 1,
        };
        let s = match self.shared_dim(BracesType::Square) {
            None => {
                return None;
            },
            Some(Some(x)) => x,
            Some(None) => 1,
        };
        let c = match self.shared_dim(BracesType::Curly) {
            None => {
                return None;
            },
            Some(Some(x)) => x,
            Some(None) => 1,
        };
        Some((n, s, c))
    }

    /// The rule for the index triple `(nb, sb, cb)`.
    fn rule_at(&self, nb: usize, sb: usize, cb: usize) -> (r: MDTRule)
        requires
            self.cur_v.len() > 0,
            self.read_v.len() > 0,
            self.next_v.len() > 0,
            self.write_v.len() > 0,
            self.dir_v.len() > 0,
        ensures
            r@ == self.entries().rule_at(nb as int, sb as int, cb as int),
    {
        MDTRule {
            current_state: pick_string(&self.cur_v, index_for_exec(self.cur_b, nb, sb, cb)),
            read_symbol: pick_char(&self.read_v, index_for_exec(self.read_b, nb, sb, cb)),
            next_state: pick_string(&self.next_v, index_for_exec(self.next_b, nb, sb, cb)),
            write_symbol: pick_char(&self.write_v, index_for_exec(self.write_b, nb, sb, cb)),
            direction: pick_direction(&self.dir_v, index_for_exec(self.dir_b, nb, sb, cb)),
        }
    }

    /// The family of rules the fields stand for: one rule for each index
    /// triple, the unbraced index varying slowest and the curly one fastest;
    /// `None` exactly when fields that vary together differ in length.
    pub fn build_family(&self) -> (r: Option<Vec<MDTRule>>)
        requires
            self.lengths_ok(),
        ensures
            r is Some <==> self.entries().dims_agree(),
            r matches Some(v) ==> rule_views(v@) == self.entries().grid(),
    {
        match self.dims() {
            None => None,
            Some((n, s, cc)) => Some(self.family(n, s, cc)),
        }
    }

    /// All the rules, for every index triple.
    fn family(&self, n: usize, s: usize, cc: usize) -> (out: Vec<MDTRule>)
        requires
            self.entries().dims_agree(),
            self.lengths_ok(),
            n == self.entries().dim(BracesType::Unbraced),
            s == self.entries().dim(BracesType::Square),
            cc == self.entries().dim(BracesType::Curly),
        ensures
            rule_views(out@) == self.entries().grid(),
    {
        let ghost e = self.entries();
        let ghost si = s as int;
        let ghost ci = cc as int;
        let mut out: Vec<MDTRule> = Vec::new();
        let mut nb: usize = 0;
        while nb < n
            invariant
                e == self.entries(),
                e.dims_agree(),
                self.lengths_ok(),
                n == e.dim(BracesType::Unbraced),
                s == e.dim(BracesType::Square),
                cc == e.dim(BracesType::Curly),
                si == s,
                ci == cc,
                nb <= n,
                out.len() == nb * (si * ci),
                forall|k: int| 0 <= k < out.len() ==> (#[trigger] out@[k])@ == e.rule_at(k / (si * ci), (k / ci) % si, k % ci),
            decreases n - nb,
        {
            let mut sb: usize = 0;
            while sb < s
                invariant
                    e == self.entries(),
                    e.dims_agree(),
                    self.lengths_ok(),
                    n == e.dim(BracesType::Unbraced),
                    s == e.dim(BracesType::Square),
                    cc == e.dim(BracesType::Curly),
                    si == s,
                    ci == cc,
                    nb < n,
                    sb <= s,
                    out.len() == nb * (si * ci) + sb * ci,
                    forall|k: int| 0 <= k < out.len() ==> (#[trigger] out@[k])@ == e.rule_at(k / (si * ci), (k / ci) % si, k % ci),
                decreases s - sb,
            {
                let mut cb: usize = 0;
                while cb < cc
                    invariant
                        e == self.entries(),
                        e.dims_agree(),
                        self.lengths_ok(),
                        n == e.dim(BracesType::Unbraced),
                        s == e.dim(BracesType::Square),
                        cc == e.dim(BracesType::Curly),
                        si == s,
                        ci == cc,
                        nb < n,
                        sb < s,
                        cb <= cc,
                        out.len() == nb * (si * ci) + sb * ci + cb,
                        forall|k: int| 0 <= k < out.len() ==> (#[trigger] out@[k])@ == e.rule_at(k / (si * ci), (k / ci) % si, k % ci),
                    decreases cc - cb,
                {
                    proof {
                        lemma_entries_nonempty(e, nb as int, sb as int, cb as int);
                        lemma_grid_index(si, ci, nb as int, sb as int, cb as int);
                    }
                    let rule = self.rule_at(nb, sb, cb);
                    out.push(rule);
                    cb = cb + 1;
                }
                assert(nb * (si * ci) + sb * ci + ci == nb * (si * ci) + (sb + 1) * ci) by (nonlinear_arith);
                sb = sb + 1;
            }
            assert(nb * (si * ci) + si * ci == (nb + 1) * (si * ci)) by (nonlinear_arith);
            nb = nb + 1;
        }
        assert(n * (si * ci) == n * si * ci) by (nonlinear_arith);
        assert(rule_views(out@) =~= e.grid());
        out
    }
}

/// The rules that one rule of a program stands for; `None` when a list is
/// malformed or fields that vary together differ in length.
fn rule_family_checked(c: &Cleaner, t: &Vec<char>, r: RuleSyntax) -> (res: Option<Vec<MDTRule>>)
    requires
        c.wf(),
        rule_ok(r, t.len() as int),
    ensures
        match res {
            Some(v) => rule_family(t@, r) == Some(rule_views(v@)),
            None => rule_family(t@, r) is None,
        },
{
    if !(state_field_expands(t, r.current) && symbol_field_expands(t, r.read)
        && state_field_expands(t, r.next) && symbol_field_expands(t, r.write)) {
        return None;
    }
    let (cur_b, cur_v, cur_l) = generate_states_from_state_pair(c, t, r.current);
    let (read_b, read_v, read_l) = generate_states_from_symbol_pair(c, t, r.read);
    let (next_b, next_v, next_l) = generate_states_from_state_pair(c, t, r.next);
    let (write_b, write_v, write_l) = generate_states_from_symbol_pair(c, t, r.write);
    let (dir_b, dir_v, dir_l) = generate_states_from_direction_pair(t, r.direction);
    let f = FieldEntries {
        cur_b, cur_v, cur_l, read_b, read_v, read_l, next_b, next_v, next_l,
        write_b, write_v, write_l, dir_b, dir_v, dir_l,
    };
    assert(f.entries().direction == direction_entries(t@, r.direction));
    f.build_family()
}


/// A program that breaks off early has no rules either.
proof fn lemma_families_prefix_none(t: Seq<char>, rs: Seq<RuleSyntax>, i: int)
    requires
        0 <= i <= rs.len(),
        all_families(t, rs.take(i)) is None,
    ensures
        all_families(t, rs) is None,
    decreases rs.len() - i,
{
    if i < rs.len() {
        assert(rs.take(i + 1).drop_last() =~= rs.take(i));
        lemma_families_prefix_none(t, rs, i + 1);
    } else {
        assert(rs.take(i) =~= rs);
    }
}

/// The rules of all the rules of a program, in order; `None` when one of
/// them has no family.
fn families_checked(c: &Cleaner, t: &Vec<char>, rs: &Vec<RuleSyntax>) -> (res: Option<Vec<MDTRule>>)
    requires
        c.wf(),
        forall|k: int| 0 <= k < rs.len() ==> rule_ok(#[trigger] rs@[k], t.len() as int),
    ensures
        match res {
            Some(v) => all_families(t@, rs@) == Some(rule_views(v@)),
            None => all_families(t@, rs@) is None,
        },
{
    let mut out: Vec<MDTRule> = Vec::new();
    let mut i: usize = 0;
    while i < rs.len()
        invariant
            c.wf(),
            forall|k: int| 0 <= k < rs.len() ==> rule_ok(#[trigger] rs@[k], t.len() as int),
            i <= rs.len(),
            all_families(t@, rs@.take(i as int)) == Some(rule_views(out@)),
        decreases rs.len() - i,
    {
        assert(rs@.take(i + 1).drop_last() =~= rs@.take(i as int));
        assert(rs@.take(i + 1).last() == rs@[i as int]);
        match rule_family_checked(c, t, rs[i]) {
            None => {
                proof {
                    lemma_families_prefix_none(t@, rs@, i + 1);
                }
                return None;
            },
            Some(family) => {
                append_rules(&mut out, &family);
            },
        }
        i = i + 1;
    }
    assert(rs@.take(rs.len() as int) =~= rs@);
    Some(out)
}

/// The rules that one rule of a program stands for, when its lists are well
/// formed and fields that vary together agree in length.
pub fn generate_mdtrule_from_rule(c: &Cleaner, t: &Vec<char>, r: RuleSyntax) -> (res: Vec<MDTRule>)
    requires
        c.wf(),
        rule_ok(r, t.len() as int),
        rule_family(t@, r) is Some,
    ensures
        rule_family(t@, r) == Some(rule_views(res@)),
{
    match rule_family_checked(c, t, r) {
        Some(v) => v,
        None => Vec::new(),
    }
}

/// Appends copies of the rules of `family` to `out`.
fn append_rules(out: &mut Vec<MDTRule>, family: &Vec<MDTRule>)
    ensures
        rule_views(final(out)@) == rule_views(old(out)@) + rule_views(family@),
{
    let mut j: usize = 0;
    while j < family.len()
        invariant
            j <= family.len(),
            rule_views(out@) =~= rule_views(old(out)@) + rule_views(family@).take(j as int),
        decreases family.len() - j,
    {
        let ghost prev = out@;
        let d = family[j].duplicate();
        out.push(d);
        assert(rule_views(out@) =~= rule_views(prev).push(d@));
        assert(rule_views(family@).take(j + 1) =~= rule_views(family@).take(j as int).push(family@[j as int]@));
        j = j + 1;
    }
    assert(rule_views(family@).take(family.len() as int) =~= rule_views(family@));
}

/// The rules of all the rules of a well-formed program, in order.
fn generate_mdtrules_from_program(c: &Cleaner, t: &Vec<char>, rs: &Vec<RuleSyntax>) -> (res: Vec<MDTRule>)
    requires
        c.wf(),
        forall|k: int| 0 <= k < rs.len() ==> rule_ok(#[trigger] rs@[k], t.len() as int),
        all_families(t@, rs@) is Some,
    ensures
        all_families(t@, rs@) == Some(rule_views(res@)),
{
    let mut out: Vec<MDTRule> = Vec::new();
    let mut i: usize = 0;
    while i < rs.len()
        invariant
            c.wf(),
            forall|k: int| 0 <= k < rs.len() ==> rule_ok(#[trigger] rs@[k], t.len() as int),
            all_families(t@, rs@) is Some,
            i <= rs.len(),
            all_families(t@, rs@.take(i as int)) == Some(rule_views(out@)),
        decreases rs.len() - i,
    {
        assert(rs@.take(i + 1).drop_last() =~= rs@.take(i as int));
        assert(rs@.take(i + 1).last() == rs@[i as int]);
        proof {
            if all_families(t@, rs@.take(i + 1)) is None {
                lemma_families_prefix_none(t@, rs@, i + 1);
            }
        }
        let family = generate_mdtrule_from_rule(c, t, rs[i]);
        append_rules(&mut out, &family);
        i = i + 1;
    }
    assert(rs@.take(rs.len() as int) =~= rs@);
    out
}

/// The rules of a program text: it is upper-cased, parsed, and each of its
/// rules stands for its family of rules, in order. `None` when the program
/// does not follow the grammar, has a malformed range, has fields that vary
/// together with different lengths, or the cleaning patterns do not compile.
pub open spec fn program_rules(source: Seq<char>) -> Option<Seq<RuleView>> {
    if !cleaner_available() {
        None
    } else {
        let t = crate::text::uppercase(source);
        match parse_program(t) {
            None => None,
            Some(rs) => all_families(t, rs),
        }
    }
}

/// Whether a program text is well formed (see `program_rules`).
pub open spec fn accepted(source: Seq<char>) -> bool {
    program_rules(source) is Some
}

/// An ASCII program stands for the same rules as its upper-cased text.
pub open spec fn case_law(source: Seq<char>) -> bool {
    all_ascii(source) ==> program_rules(source) == program_rules(uppercase(source))
}

fn parse_rules(source: &str) -> (r: Option<Vec<MDTRule>>)
    ensures
        match r {
            Some(v) => program_rules(source@) == Some(rule_views(v@)),
            None => program_rules(source@) is None,
        },
        case_law(source@),
{
    let upper = crate::text::to_uppercase(source);
    let cleaner = match Cleaner::new() {
        Some(c) => c,
        None => {
            return None;
        },
    };
    let t = crate::text::chars_of(upper.as_str());
    match parse_program_exec(&t) {
        None => None,
        Some(rs) => families_checked(&cleaner, &t, &rs),
    }
}

/// Whether a program text is well formed, so that `parse` may be called on it.
pub fn accepts(source: &str) -> (b: bool)
    ensures
        b == accepted(source@),
        case_law(source@),
{
    parse_rules(source).is_some()
}

/// The rules of a well-formed program text, in order.
pub fn parse(source: &str) -> (rules: Vec<MDTRule>)
    requires
        accepted(source@),
    ensures
        program_rules(source@) == Some(rule_views(rules@)),
        case_law(source@),
{
    let upper = crate::text::to_uppercase(source);
    let cleaner = match Cleaner::new() {
        Some(c) => c,
        None => {
            return Vec::new();
        },
    };
    let t = crate::text::chars_of(upper.as_str());
    match parse_program_exec(&t) {
        None => Vec::new(),
        Some(rs) => generate_mdtrules_from_program(&cleaner, &t, &rs),
    }
}

/// The rules of a program text, or `None` when it is not well formed.
pub fn try_parse(source: &str) -> (r: Option<Vec<MDTRule>>)
    ensures
        r is Some <==> accepted(source@),
        case_law(source@),
        r matches Some(v) ==> program_rules(source@) == Some(rule_views(v@)),
{
    if accepts(source) {
        Some(parse(source))
    } else {
        None
    }
}


/// The index triple that the `k`-th rule of a family is made from lies
/// within the ranges of the three indices.
proof fn lemma_grid_bounds(n: int, s: int, c: int, k: int)
    requires
        0 <= n,
        0 <= s,
        0 <= c,
        0 <= k < n * s * c,
    ensures
        0 <= k / (s * c) < n,
        0 <= (k / c) % s < s,
        0 <= k % c < c,
{
    assert(s * c > 0 && n * s * c == n * (s * c)) by (nonlinear_arith)
        requires
            0 <= n,
            0 <= s,
            0 <= c,
            0 <= k < n * s * c,
    ;
    assert(c > 0 && s > 0) by (nonlinear_arith)
        requires
            s * c > 0,
            0 <= s,
            0 <= c,
    ;
    vstd::arithmetic::div_mod::lemma_fundamental_div_mod(k, s * c);
    let q = k / (s * c);
    let r = k % (s * c);
    assert(0 <= q < n) by (nonlinear_arith)
        requires
            k == (s * c) * q + r,
            0 <= r < s * c,
            0 <= k < n * (s * c),
            s * c > 0,
    ;
    vstd::arithmetic::div_mod::lemma_fundamental_div_mod(k, c);
    assert(k / c >= 0) by (nonlinear_arith)
        requires
            k == c * (k / c) + k % c,
            0 <= k % c < c,
            0 <= k,
            c > 0,
    ;
}

/// Every rule of a family takes each of its fields from the entries of the
/// corresponding field of the program's rule, and a family has as many rules
/// as the product of the three index ranges.
pub proof fn law_family_fields(t: Seq<char>, r: RuleSyntax, k: int)
    requires
        rule_family(t, r) is Some,
        0 <= k < rule_family(t, r).unwrap().len(),
    ensures
        ({
            let rv = rule_family(t, r).unwrap()[k];
            &&& state_entries(t, r.current).unwrap().1.contains(rv.current_state)
            &&& symbol_entries(t, r.read).unwrap().1.contains(rv.read_symbol)
            &&& state_entries(t, r.next).unwrap().1.contains(rv.next_state)
            &&& symbol_entries(t, r.write).unwrap().1.contains(rv.write_symbol)
            &&& direction_entries(t, r.direction).1.contains(rv.direction)
        }),
{
    let e = RuleEntries {
        current: state_entries(t, r.current).unwrap(),
        read: symbol_entries(t, r.read).unwrap(),
        next: state_entries(t, r.next).unwrap(),
        write: symbol_entries(t, r.write).unwrap(),
        direction: direction_entries(t, r.direction),
    };
    let n = e.dim(BracesType::Unbraced) as int;
    let s = e.dim(BracesType::Square) as int;
    let c = e.dim(BracesType::Curly) as int;
    lemma_grid_bounds(n, s, c, k);
    let nb = k / (s * c);
    let sb = (k / c) % s;
    let cb = k % c;
    // An empty list has length 0.
    let syms_r = e.read.1;
    let syms_w = e.write.1;
    if syms_r.len() == 0 {
        assert(syms_r =~= seq![]);
        assert(encode_utf8(syms_r) =~= seq![]);
    }
    if syms_w.len() == 0 {
        assert(syms_w =~= seq![]);
        assert(encode_utf8(syms_w) =~= seq![]);
    }
    lemma_entries_nonempty(e, nb, sb, cb);
    let rv = e.rule_at(nb, sb, cb);
    assert(rule_family(t, r).unwrap()[k] == rv);
    assert(e.current.1.contains(rv.current_state)) by {
        let i = index_for(e.current.0, nb, sb, cb);
        if 0 <= i < e.current.1.len() {
            assert(e.current.1[i] == rv.current_state);
        } else {
            assert(e.current.1[e.current.1.len() - 1] == rv.current_state);
        }
    }
    assert(e.read.1.contains(rv.read_symbol)) by {
        let i = index_for(e.read.0, nb, sb, cb);
        if 0 <= i < e.read.1.len() {
            assert(e.read.1[i] == rv.read_symbol);
        } else {
            assert(e.read.1[e.read.1.len() - 1] == rv.read_symbol);
        }
    }
    assert(e.next.1.contains(rv.next_state)) by {
        let i = index_for(e.next.0, nb, sb, cb);
        if 0 <= i < e.next.1.len() {
            assert(e.next.1[i] == rv.next_state);
        } else {
            assert(e.next.1[e.next.1.len() - 1] == rv.next_state);
        }
    }
    assert(e.write.1.contains(rv.write_symbol)) by {
        let i = index_for(e.write.0, nb, sb, cb);
        if 0 <= i < e.write.1.len() {
            assert(e.write.1[i] == rv.write_symbol);
        } else {
            assert(e.write.1[e.write.1.len() - 1] == rv.write_symbol);
        }
    }
    assert(e.direction.1.contains(rv.direction)) by {
        let i = index_for(e.direction.0, nb, sb, cb);
        if 0 <= i < e.direction.1.len() {
            assert(e.direction.1[i] == rv.direction);
        } else {
            assert(e.direction.1[e.direction.1.len() - 1] == rv.direction);
        }
    }
}

} // verus!
