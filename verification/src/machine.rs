//! The machine: a tape that grows on demand in both directions, a head on
//! it, a current state, and a rule table.

use vstd::prelude::*;
use crate::rule::{HeadDirection, MDTRule, RuleView};
use crate::table::{RuleTable, table_of};
use crate::parser::{accepted, program_rules, rule_views, parse, accepts};
use crate::text::{uppercase, to_uppercase, chars_of, string_of, char_whitespace, is_whitespace, all_ascii, ascii_upper};
use crate::expand::push_all;

verus! {

/// One cell of the tape: its position number (0 for the first cell of the
/// initial tape, growing to the right) and its symbol.
#[derive(Debug, Clone, Copy)]
pub struct Node {
    id: i64,
    value: char,
}

impl Node {
    /// The cell's position number.
    pub closed spec fn cell_id(&self) -> int {
        self.id as int
    }

    /// The cell's symbol.
    pub closed spec fn symbol(&self) -> char {
        self.value
    }

    /// A blank cell to the right of `node`.
    pub fn add_next(node: &Node) -> (r: Node)
        requires
            node.cell_id() < i64::MAX,
        ensures
            r.cell_id() == node.cell_id() + 1,
            r.symbol() == ' ',
    {
        Self::add_next_with_value(node, ' ')
    }

    /// A cell holding `c` to the right of `node`.
    pub fn add_next_with_value(node: &Node, c: char) -> (r: Node)
        requires
            node.cell_id() < i64::MAX,
        ensures
            r.cell_id() == node.cell_id() + 1,
            r.symbol() == c,
    {
        Node { id: node.id + 1, value: c }
    }

    /// A blank cell to the left of `node`.
    pub fn add_prev(node: &Node) -> (r: Node)
        requires
            node.cell_id() > i64::MIN,
        ensures
            r.cell_id() == node.cell_id() - 1,
            r.symbol() == ' ',
    {
        Self::add_prev_with_value(node, ' ')
    }

    /// A cell holding `c` to the left of `node`.
    pub fn add_prev_with_value(node: &Node, c: char) -> (r: Node)
        requires
            node.cell_id() > i64::MIN,
        ensures
            r.cell_id() == node.cell_id() - 1,
            r.symbol() == c,
    {
        Node { id: node.id - 1, value: c }
    }
}

/// The mathematical value of a machine.
pub struct MdtView {
    /// The symbols on the tape, from its leftmost cell.
    pub tape: Seq<char>,
    /// The position of the head on the tape.
    pub head: int,
    /// The current state.
    pub state: Seq<char>,
    /// How many cells the tape has grown to the left.
    pub id_offset: nat,
}

/// The tape a machine starts with: the upper-cased input, or one blank cell
/// when that is empty.
pub open spec fn tape_for(input: Seq<char>) -> Seq<char> {
    if uppercase(input).len() == 0 {
        seq![' ']
    } else {
        uppercase(input)
    }
}

/// Whether the tape for `input` can be numbered with `i64` positions.
pub open spec fn tape_fits(input: Seq<char>) -> bool {
    uppercase(input).len() < i64::MAX
}

/// Whether the tape for `input` can be numbered with `i64` positions.
pub fn fits_tape(input: &str) -> (b: bool)
    ensures
        b == tape_fits(input@),
{
    let upper = to_uppercase(input);
    (chars_of(upper.as_str()).len() as u64) < (i64::MAX as u64)
}

/// The state a machine starts in.
pub open spec fn initial_state() -> Seq<char> {
    seq!['0']
}

/// A machine as it starts on an input: the head on the first cell, in the
/// initial state, the tape not grown.
pub open spec fn start_view(input: Seq<char>) -> MdtView {
    MdtView { tape: tape_for(input), head: 0, state: initial_state(), id_offset: 0 }
}

/// Moving the head: moving off either end of the tape first adds a blank
/// cell there (on the left, the growth counter goes up by one).
pub open spec fn move_head_spec(v: MdtView, dir: HeadDirection) -> MdtView {
    match dir {
        HeadDirection::Right => if v.head + 1 == v.tape.len() {
            MdtView { tape: v.tape.push(' '), head: v.head + 1, ..v }
        } else {
            MdtView { head: v.head + 1, ..v }
        },
        HeadDirection::Left => if v.head == 0 {
            MdtView { tape: seq![' '] + v.tape, head: 0, id_offset: v.id_offset + 1, ..v }
        } else {
            MdtView { head: v.head - 1, ..v }
        },
        HeadDirection::Stay => v,
    }
}

/// What applying `rule` does to a machine: write its symbol under the head,
/// go to its next state, then move the head its way.
pub open spec fn apply_rule(v: MdtView, rule: RuleView) -> MdtView {
    move_head_spec(
        MdtView { tape: v.tape.update(v.head, rule.write_symbol), state: rule.next_state, ..v },
        rule.direction,
    )
}

/// Room for one more step: the tape can grow by a cell on either side
/// without its numbering or the growth counter overflowing.
pub open spec fn view_has_room(v: MdtView) -> bool {
    &&& v.tape.len() + 1 < i64::MAX
    &&& v.id_offset + 1 <= u32::MAX
}

/// The key of the rule that applies to a machine: the symbol under the head
/// and the current state.
pub open spec fn current_key(v: MdtView) -> (char, Seq<char>) {
    (v.tape[v.head], v.state)
}

/// A Turing machine.
pub struct Mdt {
    rules: RuleTable,
    tape: Vec<Node>,
    head: usize,
    state: String,
    id_offset: u32,
}

impl View for Mdt {
    type V = MdtView;

    closed spec fn view(&self) -> MdtView {
        MdtView {
            tape: Seq::new(self.tape@.len(), |i: int| self.tape@[i].value),
            head: self.head as int,
            state: self.state@,
            id_offset: self.id_offset as nat,
        }
    }
}

impl Mdt {
    /// The rule table, by key.
    pub closed spec fn rules(&self) -> Map<(char, Seq<char>), RuleView> {
        self.rules.entries()
    }

    /// The internal invariant: a nonempty tape, the head on it, cells
    /// numbered from `-id_offset` up, and a well-formed table.
    pub closed spec fn wf(&self) -> bool {
        &&& self.tape.len() > 0
        &&& self.head < self.tape.len()
        &&& forall|i: int| 0 <= i < self.tape.len() ==> (#[trigger] self.tape@[i]).id == i - self.id_offset
        &&& self.rules.wf()
    }

    /// The position number of the cell under the head.
    pub closed spec fn head_id(&self) -> int {
        self.tape@[self.head as int].id as int
    }

    /// What the invariant gives a caller: a nonempty tape with the head on it.
    pub proof fn lemma_view_wf(&self)
        requires
            self.wf(),
        ensures
            self@.tape.len() > 0,
            0 <= self@.head < self@.tape.len(),
    {
    }

    /// Room for one more step: the tape can grow by a cell on either side
    /// without its numbering or the growth counter overflowing.
    pub open spec fn has_room_spec(&self) -> bool {
        view_has_room(self@)
    }

}


/// Entering rules one by one gives at most as many keys as rules.
pub proof fn lemma_table_size(rules: Seq<RuleView>)
    ensures
        table_of(rules).dom().finite(),
        table_of(rules).len() <= rules.len(),
    decreases rules.len(),
{
    if rules.len() > 0 {
        lemma_table_size(rules.drop_last());
    }
}

/// The character at position `i`.
fn char_at(v: &Vec<char>, i: usize) -> (c: char)
    requires
        i < v.len(),
    ensures
        c == v@[i as int],
{
    v[i]
}

impl Mdt {
    /// The tape for an input: its upper-cased symbols, or one blank cell.
    fn load_tape(initial_tape: &str) -> (tape: Vec<Node>)
        requires
            tape_fits(initial_tape@),
        ensures
            tape.len() > 0,
            forall|i: int| 0 <= i < tape.len() ==> (#[trigger] tape@[i]).id == i,
            Seq::new(tape@.len(), |i: int| tape@[i].value) == tape_for(initial_tape@),
            all_ascii(initial_tape@) && initial_tape@.len() > 0
                ==> Seq::new(tape@.len(), |i: int| tape@[i].value) == initial_tape@.map_values(|c: char| ascii_upper(c)),
    {
        let upper = to_uppercase(initial_tape);
        let chars = chars_of(upper.as_str());
        let mut cells: Vec<Node> = Vec::new();
        if chars.len() == 0 {
            cells.push(Node { id: 0, value: ' ' });
        } else {
            let mut i: usize = 0;
            while i < chars.len()
                invariant
                    i <= chars.len(),
                    chars.len() < i64::MAX,
                    cells.len() == i,
                    forall|j: int| 0 <= j < i ==> (#[trigger] cells@[j]).id == j && cells@[j].value == chars@[j],
                decreases chars.len() - i,
            {
                let symbol = char_at(&chars, i);
                let cell = if i == 0 {
                    Node { id: 0, value: symbol }
                } else {
                    Node::add_next_with_value(&cells[i - 1], symbol)
                };
                cells.push(cell);
                i = i + 1;
            }
        }
        assert(Seq::new(cells@.len(), |i: int| cells@[i].value) =~= tape_for(initial_tape@));
        cells
    }

    /// The symbol under the head.
    fn get_head_value(&self) -> (c: char)
        requires
            self.wf(),
        ensures
            c == self@.tape[self@.head],
    {
        self.tape[self.head].value
    }

    /// Writes a symbol under the head.
    fn set_head_value(&mut self, value: char)
        requires
            old(self).wf(),
        ensures
            final(self).wf(),
            final(self)@ == (MdtView { tape: old(self)@.tape.update(old(self)@.head, value), ..old(self)@ }),
            final(self).rules() == old(self).rules(),
    {
        let id = self.tape[self.head].id;
        self.tape.set(self.head, Node { id, value });
        assert(self@.tape =~= old(self)@.tape.update(old(self)@.head, value));
    }

    /// Moves the head, growing the tape when the head leaves it.
    pub fn move_head(&mut self, dir: HeadDirection)
        requires
            old(self).wf(),
            old(self).has_room_spec(),
        ensures
            final(self).wf(),
            final(self)@ == move_head_spec(old(self)@, dir),
            final(self).rules() == old(self).rules(),
    {
        match dir {
            HeadDirection::Right => {
                if self.head + 1 == self.tape.len() {
                    let last = self.tape[self.head];
                    let cell = Node::add_next(&last);
                    self.tape.push(cell);
                    assert(self@.tape =~= old(self)@.tape.push(' '));
                }
                self.head = self.head + 1;
            },
            HeadDirection::Left => {
                if self.head == 0 {
                    let first = self.tape[0];
                    let cell = Node::add_prev(&first);
                    self.tape.insert(0, cell);
                    self.id_offset = self.id_offset + 1;
                    assert(self@.tape =~= seq![' '] + old(self)@.tape);
                    assert forall|i: int| 0 <= i < self.tape.len() implies (#[trigger] self.tape@[i]).id == i - self.id_offset by {
                        if i > 0 {
                            assert(self.tape@[i] == old(self).tape@[i - 1]);
                        }
                    }
                } else {
                    self.head = self.head - 1;
                }
            },
            HeadDirection::Stay => {},
        }
    }

    /// Whether there is room for one more step (see `has_room_spec`).
    pub fn has_room(&self) -> (b: bool)
        ensures
            b == self.has_room_spec(),
    {
        (self.tape.len() as u64) < (i64::MAX as u64) - 1 && self.id_offset < u32::MAX
    }

    /// One step: when a rule applies to the symbol under the head and the
    /// current state, applies it and returns `true`; otherwise changes
    /// nothing and returns `false`.
    pub fn step(&mut self) -> (moved: bool)
        requires
            old(self).wf(),
            old(self).has_room_spec(),
        ensures
            final(self).wf(),
            final(self).rules() == old(self).rules(),
            moved == old(self).rules().contains_key(current_key(old(self)@)),
            moved ==> final(self)@ == apply_rule(old(self)@, old(self).rules()[current_key(old(self)@)]),
            !moved ==> final(self)@ == old(self)@,
    {
        let symbol = self.get_head_value();
        let (write, next, dir) = match self.rules.get(symbol, self.state.as_str()) {
            Some(r) => (r.write_symbol, r.next_state.clone(), r.direction),
            None => {
                return false;
            },
        };
        self.set_head_value(write);
        self.state = next;
        self.move_head(dir);
        true
    }

    /// A machine with the given input on its tape and the given rules, in
    /// state `0` with the head on the first cell.
    pub fn from_rules(initial_tape: &str, rules: &Vec<MDTRule>) -> (m: Mdt)
        requires
            tape_fits(initial_tape@),
        ensures
            m.wf(),
            m@ == start_view(initial_tape@),
            m.rules() == table_of(rule_views(rules@)),
            all_ascii(initial_tape@) && initial_tape@.len() > 0
                ==> m@.tape == initial_tape@.map_values(|c: char| ascii_upper(c)),
    {
        let mut table = RuleTable::new();
        let mut i: usize = 0;
        while i < rules.len()
            invariant
                i <= rules.len(),
                table.wf(),
                table.entries() == table_of(rule_views(rules@).take(i as int)),
            decreases rules.len() - i,
        {
            proof {
                lemma_table_size(rule_views(rules@).take(i as int));
                assert(rule_views(rules@).take(i + 1).drop_last() =~= rule_views(rules@).take(i as int));
            }
            table.insert(rules[i].duplicate());
            i = i + 1;
        }
        assert(rule_views(rules@).take(rules.len() as int) =~= rule_views(rules@));
        let tape = Self::load_tape(initial_tape);
        let state = crate::text::string_of(&['0']);
        let m = Mdt { rules: table, tape, head: 0, state, id_offset: 0 };
        assert(m@.state =~= initial_state());
        m
    }

    /// A machine with the given input on its tape and the rules of a
    /// well-formed program.
    pub fn new(initial_tape: &str, rules_str: &str) -> (m: Mdt)
        requires
            accepted(rules_str@),
            tape_fits(initial_tape@),
        ensures
            m.wf(),
            m@ == start_view(initial_tape@),
            m.rules() == table_of(program_rules(rules_str@).unwrap()),
            all_ascii(initial_tape@) && initial_tape@.len() > 0
                ==> m@.tape == initial_tape@.map_values(|c: char| ascii_upper(c)),
    {
        let rules = parse(rules_str);
        Self::from_rules(initial_tape, &rules)
    }

    /// `new`, or `None` when the program is not well formed or the tape is
    /// too long to number.
    pub fn try_new(initial_tape: &str, rules_str: &str) -> (r: Option<Mdt>)
        ensures
            r is Some <==> accepted(rules_str@) && tape_fits(initial_tape@),
            r matches Some(m) ==> {
                &&& m.wf()
                &&& m@ == start_view(initial_tape@)
                &&& m.rules() == table_of(program_rules(rules_str@).unwrap())
                &&& all_ascii(initial_tape@) && initial_tape@.len() > 0
                    ==> m@.tape == initial_tape@.map_values(|c: char| ascii_upper(c))
            },
    {
        if fits_tape(initial_tape) && accepts(rules_str) {
            Some(Self::new(initial_tape, rules_str))
        } else {
            None
        }
    }

    /// The number of keys (read symbol and state) that have a rule.
    pub fn rule_count(&self) -> (n: usize)
        requires
            self.wf(),
        ensures
            n == self.rules().len(),
    {
        self.rules.len()
    }

    /// The symbols on the tape, from its leftmost cell.
    pub fn as_char_vec(&self) -> (out: Vec<char>)
        requires
            self.wf(),
        ensures
            out@ == self@.tape,
    {
        let mut out: Vec<char> = Vec::new();
        let mut i: usize = 0;
        while i < self.tape.len()
            invariant
                i <= self.tape.len(),
                out@ =~= self@.tape.take(i as int),
            decreases self.tape.len() - i,
        {
            out.push(self.tape[i].value);
            i = i + 1;
        }
        assert(self@.tape.take(self.tape.len() as int) =~= self@.tape);
        out
    }
}


/// A text without its leading whitespace.
pub open spec fn trim_start(s: Seq<char>) -> Seq<char>
    decreases s.len(),
{
    if s.len() > 0 && char_whitespace(s[0]) {
        trim_start(s.drop_first())
    } else {
        s
    }
}

/// A text without its trailing whitespace.
pub open spec fn trim_end(s: Seq<char>) -> Seq<char>
    decreases s.len(),
{
    if s.len() > 0 && char_whitespace(s.last()) {
        trim_end(s.drop_last())
    } else {
        s
    }
}

/// A text without its leading and trailing whitespace.
pub open spec fn trimmed(s: Seq<char>) -> Seq<char> {
    trim_end(trim_start(s))
}

/// The digits of a natural number in decimal.
pub open spec fn digits(n: nat) -> Seq<char>
    decreases n,
{
    if n < 10 {
        seq![(48 + n) as char]
    } else {
        digits(n / 10) + seq![(48 + n % 10) as char]
    }
}

/// An integer in decimal, with `-` in front when it is negative.
pub open spec fn decimal(n: int) -> Seq<char> {
    if n < 0 {
        seq!['-'] + digits((-n) as nat)
    } else {
        digits(n as nat)
    }
}

/// How one cell is shown: its symbol in quotes, inside `>` `<` under the head.
pub open spec fn cell_text(c: char, under_head: bool) -> Seq<char> {
    if under_head {
        seq!['>', '\'', c, '\'', '<']
    } else {
        seq!['\'', c, '\'']
    }
}

/// The cells of a tape, shown one after the other with commas between.
pub open spec fn cells_text(tape: Seq<char>, head: int) -> Seq<char>
    decreases tape.len(),
{
    if tape.len() == 0 {
        seq![]
    } else if tape.len() == 1 {
        cell_text(tape[0], head == 0)
    } else {
        cells_text(tape.drop_last(), head) + seq![','] + cell_text(tape.last(), head == tape.len() - 1)
    }
}

/// The text between the cells and the head's position number.
pub const HEAD_LABEL: &'static str = "] -- head pos id: ";

/// The text between the head's position number and the state.
pub const STATE_LABEL: &'static str = ", state: ";

/// How a machine is shown in full: its cells, the position number of the
/// cell under the head, and its state.
pub open spec fn debug_text(v: MdtView) -> Seq<char> {
    seq!['['] + cells_text(v.tape, v.head) + HEAD_LABEL@ + decimal(v.head - v.id_offset) + STATE_LABEL@ + v.state
}

/// The decimal digits of a number.
fn digits_exec(n: u64) -> (r: Vec<char>)
    ensures
        r@ == digits(n as nat),
    decreases n,
{
    let d = (n % 10) as u8;
    let c = (48u8 + d) as char;
    if n < 10 {
        let mut r: Vec<char> = Vec::new();
        r.push(c);
        r
    } else {
        let mut r = digits_exec(n / 10);
        r.push(c);
        r
    }
}

/// A number in decimal, with `-` in front when it is negative.
fn decimal_exec(n: i64) -> (r: Vec<char>)
    ensures
        r@ == decimal(n as int),
{
    if n < 0 {
        let magnitude = (-(n as i128)) as u64;
        let mut r: Vec<char> = Vec::new();
        r.push('-');
        push_all(&mut r, &digits_exec(magnitude));
        r
    } else {
        digits_exec(n as u64)
    }
}

impl Mdt {
    /// The tape as text without its leading and trailing whitespace.
    pub fn to_display_string(&self) -> (s: String)
        requires
            self.wf(),
        ensures
            s@ == trimmed(self@.tape),
    {
        let cells = self.as_char_vec();
        let mut a: usize = 0;
        assert(cells@.skip(0) =~= cells@);
        while a < cells.len() && is_whitespace(cells[a])
            invariant
                a <= cells.len(),
                trim_start(cells@.skip(a as int)) == trim_start(cells@),
            decreases cells.len() - a,
        {
            assert(cells@.skip(a as int).drop_first() =~= cells@.skip(a + 1));
            a = a + 1;
        }
        let ghost rest = cells@.skip(a as int);
        assert(trim_start(rest) == rest);
        let mut b: usize = cells.len();
        while b > a && is_whitespace(cells[b - 1])
            invariant
                a <= b <= cells.len(),
                trim_end(cells@.subrange(a as int, b as int)) == trim_end(rest),
            decreases b,
        {
            assert(cells@.subrange(a as int, b as int).drop_last() =~= cells@.subrange(a as int, b - 1));
            b = b - 1;
        }
        assert(cells@.subrange(a as int, cells.len() as int) =~= rest);
        let kept = crate::expand::slice_chars(&cells, a, b);
        string_of(kept.as_slice())
    }

    /// The machine in full: `[cells] -- head pos id: N, state: S`, with the
    /// cell under the head marked.
    pub fn to_debug_string(&self) -> (s: String)
        requires
            self.wf(),
        ensures
            s@ == debug_text(self@),
    {
        let mut out: Vec<char> = Vec::new();
        out.push('[');
        let mut i: usize = 0;
        while i < self.tape.len()
            invariant
                self.wf(),
                i <= self.tape.len(),
                out@ == seq!['['] + cells_text(self@.tape.take(i as int), self@.head),
            decreases self.tape.len() - i,
        {
            let ghost before = out@;
            let c = self.tape[i].value;
            if i > 0 {
                out.push(',');
            }
            if i == self.head {
                out.push('>');
                out.push('\'');
                out.push(c);
                out.push('\'');
                out.push('<');
            } else {
                out.push('\'');
                out.push(c);
                out.push('\'');
            }
            assert(self@.tape.take(i + 1).drop_last() =~= self@.tape.take(i as int));
            assert(out@ =~= seq!['['] + cells_text(self@.tape.take(i + 1), self@.head));
            i = i + 1;
        }
        assert(self@.tape.take(self.tape.len() as int) =~= self@.tape);
        push_all(&mut out, &chars_of(HEAD_LABEL));
        push_all(&mut out, &decimal_exec(self.tape[self.head].id));
        push_all(&mut out, &chars_of(STATE_LABEL));
        push_all(&mut out, &chars_of(self.state.as_str()));
        string_of(out.as_slice())
    }
}


/// One step on a machine's view with a rule table: the machine after it, and
/// whether a rule applied.
pub open spec fn step_view(v: MdtView, rules: Map<(char, Seq<char>), RuleView>) -> (MdtView, bool) {
    if rules.contains_key(current_key(v)) {
        (apply_rule(v, rules[current_key(v)]), true)
    } else {
        (v, false)
    }
}

/// Running from a count of `it` steps taken: stop (unfinished) when there is
/// no room for a step; otherwise take a step, and stop when no rule applied
/// or the count is past `limit`, else count it and go on. Gives the machine,
/// the count, and whether the run finished.
pub open spec fn run_from(v: MdtView, rules: Map<(char, Seq<char>), RuleView>, it: nat, limit: nat) -> (MdtView, nat, bool)
    decreases limit + 1 - it,
{
    if !view_has_room(v) {
        (v, it, false)
    } else {
        let (w, moved) = step_view(v, rules);
        if !moved || it > limit {
            (w, it, true)
        } else {
            run_from(w, rules, it + 1, limit)
        }
    }
}

/// A step grows the tape by at most one cell, and the growth counter by at
/// most one.
pub proof fn lemma_step_growth(v: MdtView, rules: Map<(char, Seq<char>), RuleView>)
    requires
        0 <= v.head < v.tape.len(),
    ensures
        v.tape.len() <= step_view(v, rules).0.tape.len() <= v.tape.len() + 1,
        v.id_offset <= step_view(v, rules).0.id_offset <= v.id_offset + 1,
{
}

impl Mdt {
    /// Steps until no rule applies or more than `limit` steps have been
    /// counted, and returns the count (steps taken, less one when the limit
    /// stopped the run); `None` when the tape ran out of room before that.
    pub fn run(&mut self, limit: u64) -> (r: Option<u64>)
        requires
            old(self).wf(),
            limit < u64::MAX,
        ensures
            final(self).wf(),
            final(self).rules() == old(self).rules(),
            ({
                let (v, it, finished) = run_from(old(self)@, old(self).rules(), 0, limit as nat);
                &&& final(self)@ == v
                &&& r == (if finished { Some(it as u64) } else { None::<u64> })
            }),
            old(self)@.tape.len() + limit + 3 < i64::MAX && old(self)@.id_offset + limit + 2 <= u32::MAX
                ==> r is Some,
    {
        proof {
            self.lemma_view_wf();
            if self@.tape.len() + limit + 3 < i64::MAX && self@.id_offset + limit + 2 <= u32::MAX {
                crate::laws::law_run_finishes_with_room(self@, self.rules(), 0, limit as nat);
            }
        }
        let mut it: u64 = 0;
        loop
            invariant
                self.wf(),
                self.rules() == old(self).rules(),
                limit < u64::MAX,
                it <= limit + 1,
                run_from(self@, self.rules(), it as nat, limit as nat) == run_from(old(self)@, old(self).rules(), 0, limit as nat),
                old(self)@.tape.len() + limit + 3 < i64::MAX && old(self)@.id_offset + limit + 2 <= u32::MAX
                    ==> run_from(old(self)@, old(self).rules(), 0, limit as nat).2,
            decreases limit + 1 - it,
        {
            if !self.has_room() {
                return None;
            }
            let moved = self.step();
            if !moved || it > limit {
                return Some(it);
            }
            it = it + 1;
        }
    }
}

} // verus!
