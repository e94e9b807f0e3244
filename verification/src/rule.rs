//! Transition rules and head movements.

use vstd::prelude::*;
use crate::pattern::{Pattern, regex_compiles, regex_replace_first};
use crate::text::{chars_of, string_of};

verus! {

/// Where the head goes after a transition.
#[derive(Debug, Clone, Copy, PartialEq, Eq, Structural)]
pub enum HeadDirection {
    Right,
    Left,
    /// The head stays where it is.
    Stay,
}

/// One transition: in state `current_state` reading `read_symbol`, write
/// `write_symbol`, go to `next_state` and move the head by `direction`.
#[derive(Debug, Clone)]
pub struct MDTRule {
    pub current_state: String,
    pub read_symbol: char,
    pub next_state: String,
    pub write_symbol: char,
    pub direction: HeadDirection,
}

/// The mathematical value of a rule: its state names as character sequences.
pub struct RuleView {
    pub current_state: Seq<char>,
    pub read_symbol: char,
    pub next_state: Seq<char>,
    pub write_symbol: char,
    pub direction: HeadDirection,
}

impl View for MDTRule {
    type V = RuleView;

    open spec fn view(&self) -> RuleView {
        RuleView {
            current_state: self.current_state@,
            read_symbol: self.read_symbol,
            next_state: self.next_state@,
            write_symbol: self.write_symbol,
            direction: self.direction,
        }
    }
}

impl MDTRule {
    /// A copy of this rule, field by field.
    pub fn duplicate(&self) -> (r: MDTRule)
        ensures
            r@ == self@,
    {
        MDTRule {
            current_state: self.current_state.clone(),
            read_symbol: self.read_symbol,
            next_state: self.next_state.clone(),
            write_symbol: self.write_symbol,
            direction: self.direction,
        }
    }
}


/// The character that shows a direction.
pub open spec fn direction_symbol(d: HeadDirection) -> char {
    match d {
        HeadDirection::Right => '>',
        HeadDirection::Left => '<',
        HeadDirection::Stay => '-',
    }
}

impl HeadDirection {
    /// The character that shows this direction: `>`, `<` or `-`.
    pub fn symbol(&self) -> (c: char)
        ensures
            c == direction_symbol(*self),
    {
        match self {
            HeadDirection::Right => '>',
            HeadDirection::Left => '<',
            HeadDirection::Stay => '-',
        }
    }
}

/// Matches the first character that the rule syntax treats specially.
pub const SPECIAL_PATTERN: &'static str = r"(?P<c>[\\<\\>\\^\\.\\,\[\]\{\}\(\)\\])";

/// Puts a backslash before the matched character.
pub const SPECIAL_REPLACEMENT: &'static str = "\\${c}";

/// A text with each blank shown as `-`.
pub open spec fn blanks_as_dashes(s: Seq<char>) -> Seq<char> {
    s.map_values(|c: char| if c == ' ' { '-' } else { c })
}

/// A state name or symbol as a rule shows it: blanks as `-`, and the first
/// special character escaped.
pub open spec fn printable(s: Seq<char>) -> Seq<char> {
    regex_replace_first(SPECIAL_PATTERN@, blanks_as_dashes(s), SPECIAL_REPLACEMENT@)
}

/// How a rule is shown: `(current,read,next,write,direction)`.
pub open spec fn rule_text(r: RuleView) -> Seq<char> {
    seq!['('] + printable(r.current_state) + seq![','] + printable(seq![r.read_symbol]) + seq![',']
        + printable(r.next_state) + seq![','] + printable(seq![r.write_symbol]) + seq![',']
        + seq![direction_symbol(r.direction), ')']
}

/// Replaces each blank of a text by `-`.
fn blanks_as_dashes_exec(s: &Vec<char>) -> (r: Vec<char>)
    ensures
        r@ == blanks_as_dashes(s@),
{
    let mut r: Vec<char> = Vec::new();
    let mut i: usize = 0;
    while i < s.len()
        invariant
            i <= s.len(),
            r@ =~= blanks_as_dashes(s@.take(i as int)),
        decreases s.len() - i,
    {
        let c = s[i];
        r.push(if c == ' ' { '-' } else { c });
        assert(s@.take(i + 1) =~= s@.take(i as int).push(c));
        i = i + 1;
    }
    assert(s@.take(s.len() as int) =~= s@);
    r
}

/// A state name or symbol as a rule shows it.
fn make_special_chars_printable(special: &Pattern, s: &Vec<char>) -> (r: Vec<char>)
    requires
        special.source() == SPECIAL_PATTERN@,
    ensures
        r@ == printable(s@),
{
    let dashed = string_of(blanks_as_dashes_exec(s).as_slice());
    let out = special.replace_first(dashed.as_str(), SPECIAL_REPLACEMENT);
    chars_of(out.as_str())
}

impl MDTRule {
    /// How this rule is shown, `(current,read,next,write,direction)`; `None`
    /// exactly when the pattern for special characters does not compile.
    pub fn to_display_string(&self) -> (r: Option<String>)
        ensures
            r is Some <==> regex_compiles(SPECIAL_PATTERN@),
            r matches Some(s) ==> s@ == rule_text(self@),
    {
        let special = match Pattern::compile(SPECIAL_PATTERN) {
            Some(p) => p,
            None => {
                return None;
            },
        };
        let mut out: Vec<char> = Vec::new();
        out.push('(');
        crate::expand::push_all(&mut out, &make_special_chars_printable(&special, &chars_of(self.current_state.as_str())));
        out.push(',');
        let mut read: Vec<char> = Vec::new();
        read.push(self.read_symbol);
        crate::expand::push_all(&mut out, &make_special_chars_printable(&special, &read));
        out.push(',');
        crate::expand::push_all(&mut out, &make_special_chars_printable(&special, &chars_of(self.next_state.as_str())));
        out.push(',');
        let mut write: Vec<char> = Vec::new();
        write.push(self.write_symbol);
        crate::expand::push_all(&mut out, &make_special_chars_printable(&special, &write));
        out.push(',');
        out.push(self.direction.symbol());
        out.push(')');
        assert(out@ =~= rule_text(self@));
        Some(string_of(out.as_slice()))
    }
}

} // verus!
