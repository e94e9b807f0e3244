//! Properties of the rule language and of the machine that hold for all
//! inputs.

use vstd::prelude::*;
use crate::expand::{ALPHABET, chars_up, chars_down, range_fill, without, expand_spec, split_dots, find_dots, join_ranges};
use crate::machine::{MdtView, apply_rule, move_head_spec, trim_start, trim_end, trimmed};
use crate::rule::{HeadDirection, RuleView, direction_symbol};
use crate::parser::direction_of;
use crate::syntax::is_dir_char;
use crate::table::{table_of, rule_key};
use crate::text::{is_scalar, char_whitespace, uppercase};
use crate::syntax::{parse_list, scan_units, span};
use crate::machine::{digits, decimal, tape_for, run_from, step_view, lemma_step_growth};
use crate::rule::rule_text;
use crate::parser::BracesType;

verus! {

/// The table built from a list of rules has a rule under a key exactly when
/// some rule of the list has that key.
pub proof fn law_table_keys(rules: Seq<RuleView>, k: (char, Seq<char>))
    ensures
        table_of(rules).contains_key(k) <==> exists|i: int| 0 <= i < rules.len() && #[trigger] rule_key(rules[i]) == k,
    decreases rules.len(),
{
    if rules.len() > 0 {
        let init = rules.drop_last();
        law_table_keys(init, k);
        if table_of(rules).contains_key(k) && rule_key(rules.last()) != k {
            let i = choose|i: int| 0 <= i < init.len() && #[trigger] rule_key(init[i]) == k;
            assert(rule_key(rules[i]) == k);
        }
        if exists|i: int| 0 <= i < rules.len() && #[trigger] rule_key(rules[i]) == k {
            let i = choose|i: int| 0 <= i < rules.len() && #[trigger] rule_key(rules[i]) == k;
            if i < rules.len() - 1 {
                assert(rule_key(init[i]) == k);
            }
        }
    }
}

/// Of several rules with the same key, the last one in the list is the one
/// in the table.
pub proof fn law_table_last_wins(rules: Seq<RuleView>, i: int)
    requires
        0 <= i < rules.len(),
        forall|j: int| i < j < rules.len() ==> #[trigger] rule_key(rules[j]) != rule_key(rules[i]),
    ensures
        table_of(rules).contains_key(rule_key(rules[i])),
        table_of(rules)[rule_key(rules[i])] == rules[i],
    decreases rules.len(),
{
    if i < rules.len() - 1 {
        let init = rules.drop_last();
        assert forall|j: int| i < j < init.len() implies #[trigger] rule_key(init[j]) != rule_key(init[i]) by {
            assert(init[j] == rules[j]);
        }
        law_table_last_wins(init, i);
        assert(rule_key(rules[rules.len() - 1]) != rule_key(rules[i]));
    }
}

/// Each rule in the table is filed under its own key.
pub proof fn law_table_entries_keyed(rules: Seq<RuleView>, k: (char, Seq<char>))
    requires
        table_of(rules).contains_key(k),
    ensures
        rule_key(table_of(rules)[k]) == k,
    decreases rules.len(),
{
    if rules.len() > 0 && rule_key(rules.last()) != k {
        law_table_entries_keyed(rules.drop_last(), k);
    }
}

/// Applying a rule writes its symbol under the head and leaves every other
/// cell as it was (one place further right when the tape grew on the left).
pub proof fn law_apply_rule_cells(v: MdtView, r: RuleView)
    requires
        0 <= v.head < v.tape.len(),
    ensures
        ({
            let w = apply_rule(v, r);
            let shift: int = if w.id_offset > v.id_offset { 1 } else { 0 };
            &&& w.state == r.next_state
            &&& w.tape[v.head + shift] == r.write_symbol
            &&& forall|i: int| 0 <= i < v.tape.len() && i != v.head ==> #[trigger] w.tape[i + shift] == v.tape[i]
            &&& (w.tape.len() == v.tape.len() || w.tape.len() == v.tape.len() + 1)
            &&& (w.tape.len() == v.tape.len() + 1 ==> (if shift == 1 { w.tape[0] == ' ' } else { w.tape.last() == ' ' }))
        }),
{
}

/// The distance the head moves, in cell positions.
pub open spec fn head_delta(d: HeadDirection) -> int {
    match d {
        HeadDirection::Right => 1,
        HeadDirection::Left => -1,
        HeadDirection::Stay => 0,
    }
}

/// Counting positions from the first cell of the initial tape, the head
/// moves by exactly one cell to the right or left (or not at all), whether or
/// not the tape grows, and it stays on the tape.
pub proof fn law_head_position(v: MdtView, d: HeadDirection)
    requires
        0 <= v.head < v.tape.len(),
    ensures
        ({
            let w = move_head_spec(v, d);
            &&& w.head - w.id_offset == v.head - v.id_offset + head_delta(d)
            &&& 0 <= w.head < w.tape.len()
        }),
{
}


/// `chars_up` gains its last character at the top end.
proof fn lemma_chars_up_snoc(lo: int, hi: int)
    requires
        lo < hi,
    ensures
        chars_up(lo, hi) == chars_up(lo, hi - 1) + (if is_scalar(hi - 1) { seq![(hi - 1) as char] } else { seq![] }),
    decreases hi - lo,
{
    if lo < hi - 1 {
        lemma_chars_up_snoc(lo + 1, hi);
        if is_scalar(lo) {
            assert(seq![lo as char].add(chars_up(lo + 1, hi)) =~= seq![lo as char].add(chars_up(lo + 1, hi - 1))
                + (if is_scalar(hi - 1) { seq![(hi - 1) as char] } else { seq![] }));
        }
    } else {
        assert(chars_up(lo, hi - 1) =~= seq![]);
        assert(chars_up(lo + 1, hi) =~= seq![]);
        if is_scalar(lo) {
            assert(seq![lo as char].add(chars_up(lo + 1, hi)) =~= seq![lo as char]);
        }
    }
}

/// The descending characters are the ascending ones reversed.
proof fn lemma_down_is_reversed_up(top: int, bottom: int)
    ensures
        chars_down(top, bottom) == chars_up(bottom + 1, top).reverse(),
    decreases top - bottom,
{
    if top - 1 <= bottom {
        assert(chars_up(bottom + 1, top) =~= seq![]);
        assert(chars_up(bottom + 1, top).reverse() =~= seq![]);
    } else {
        lemma_down_is_reversed_up(top - 1, bottom);
        lemma_chars_up_snoc(bottom + 1, top);
        let init = chars_up(bottom + 1, top - 1);
        if is_scalar(top - 1) {
            let last = seq![(top - 1) as char];
            assert((init + last).reverse() =~= last + init.reverse());
        } else {
            assert(init + seq![] =~= init);
        }
    }
}

/// A range read backwards, `b..a`, gives the characters of `a..b` in
/// reverse order.
pub proof fn law_range_reversed(a: char, b: char)
    ensures
        range_fill(b, a) == range_fill(a, b).reverse(),
{
    if (a as int) < (b as int) {
        lemma_down_is_reversed_up(b as int, a as int);
    } else if (b as int) < (a as int) {
        lemma_down_is_reversed_up(a as int, b as int);
        assert(chars_up(b as int + 1, a as int).reverse().reverse() =~= chars_up(b as int + 1, a as int));
    } else {
        assert(chars_up(a as int + 1, b as int) =~= seq![]);
        assert(chars_down(a as int, b as int) =~= seq![]);
        let empty: Seq<char> = seq![];
        assert(empty.reverse() =~= empty);
        assert(range_fill(a, b) =~= empty);
    }
}

/// The ascending characters run through exactly the scalar values of the range.
proof fn lemma_chars_up_members(lo: int, hi: int, c: char)
    ensures
        chars_up(lo, hi).contains(c) <==> lo <= (c as int) < hi,
    decreases hi - lo,
{
    vstd::utf8::char_is_scalar(c);
    if lo < hi {
        lemma_chars_up_members(lo + 1, hi, c);
        let rest = chars_up(lo + 1, hi);
        if is_scalar(lo) {
            let full = seq![lo as char].add(rest);
            assert(full[0] == lo as char);
            assert forall|i: int| 0 <= i < rest.len() implies full[i + 1] == #[trigger] rest[i] by {}
            if c as int == lo {
                vstd::utf8::char_u32_cast(c, c as u32);
                assert(full[0] == c);
            }
            if full.contains(c) {
                let i = choose|i: int| 0 <= i < full.len() && #[trigger] full[i] == c;
                if i > 0 {
                    assert(rest[i - 1] == c);
                }
            }
            if rest.contains(c) {
                let i = choose|i: int| 0 <= i < rest.len() && #[trigger] rest[i] == c;
                assert(full[i + 1] == c);
            }
        } else {
            assert(c as int != lo);
        }
    }
}

/// A range `a..b` with `a` before `b` fills in exactly the characters
/// strictly between its ends, in ascending order.
pub proof fn law_range_between(a: char, b: char, c: char)
    requires
        (a as int) < (b as int),
    ensures
        range_fill(a, b).contains(c) <==> (a as int) < (c as int) < (b as int),
{
    lemma_chars_up_members(a as int + 1, b as int, c);
}

/// Without a `..`, the search for one reaches the end.
proof fn lemma_no_dots(s: Seq<char>, from: int)
    requires
        0 <= from <= s.len(),
        forall|i: int| 0 <= i && i + 1 < s.len() ==> !(s[i] == '.' && #[trigger] s[i + 1] == '.'),
    ensures
        find_dots(s, from) == s.len(),
    decreases s.len() - from,
{
    if from + 1 < s.len() {
        lemma_no_dots(s, from + 1);
    }
}

/// A list without `..` stands for its own characters.
pub proof fn law_expand_plain(s: Seq<char>)
    requires
        forall|i: int| 0 <= i && i + 1 < s.len() ==> !(s[i] == '.' && #[trigger] s[i + 1] == '.'),
    ensures
        expand_spec(s, false) == Some(s),
{
    lemma_no_dots(s, 0);
    assert(split_dots(s) =~= seq![s.subrange(0, s.len() as int)]);
    assert(s.subrange(0, s.len() as int) =~= s);
}

/// The characters kept by `without`.
proof fn lemma_without_members(a: Seq<char>, ex: Seq<char>, c: char)
    ensures
        without(a, ex).contains(c) <==> (a.contains(c) && !ex.contains(c)),
    decreases a.len(),
{
    if a.len() > 0 {
        lemma_without_members(a.drop_last(), ex, c);
        let w = without(a.drop_last(), ex);
        if a.contains(c) && c != a.last() {
            let i = choose|i: int| 0 <= i < a.len() && #[trigger] a[i] == c;
            assert(a.drop_last()[i] == c);
        }
        if a.drop_last().contains(c) {
            let i = choose|i: int| 0 <= i < a.drop_last().len() && #[trigger] a.drop_last()[i] == c;
            assert(a[i] == c);
        }
        if !ex.contains(a.last()) {
            assert(w.push(a.last())[w.len() as int] == a.last());
            if w.contains(c) {
                let i = choose|i: int| 0 <= i < w.len() && #[trigger] w[i] == c;
                assert(w.push(a.last())[i] == c);
            }
            if w.push(a.last()).contains(c) && c != a.last() {
                let i = choose|i: int| 0 <= i < w.push(a.last()).len() && #[trigger] w.push(a.last())[i] == c;
                assert(w[i] == c);
            }
        }
        assert(a[a.len() - 1] == a.last());
    }
}

/// A complemented list stands for the symbols of the alphabet that the list
/// does not name: a symbol is in it exactly when it is in the alphabet and not
/// in the expanded list.
pub proof fn law_complement(s: Seq<char>, c: char)
    ensures
        expand_spec(s, true) is Some <==> expand_spec(s, false) is Some,
        expand_spec(s, true) matches Some(w) ==> (w.contains(c) <==> (ALPHABET@.contains(c)
            && !expand_spec(s, false).unwrap().contains(c))),
{
    if let Some(e) = join_ranges(split_dots(s)) {
        lemma_without_members(ALPHABET@, e, c);
    }
}


/// `trim_start` drops a run of leading whitespace and stops at the first
/// other character.
proof fn lemma_trim_start(s: Seq<char>)
    ensures
        exists|a: int| #![trigger s.skip(a)]
            0 <= a <= s.len() && trim_start(s) == s.skip(a)
            && (forall|i: int| 0 <= i < a ==> char_whitespace(#[trigger] s[i]))
            && (a < s.len() ==> !char_whitespace(s[a])),
    decreases s.len(),
{
    if s.len() > 0 && char_whitespace(s[0]) {
        lemma_trim_start(s.drop_first());
        let t = s.drop_first();
        let a = choose|a: int| #![trigger t.skip(a)]
            0 <= a <= t.len() && trim_start(t) == t.skip(a)
            && (forall|i: int| 0 <= i < a ==> char_whitespace(#[trigger] t[i]))
            && (a < t.len() ==> !char_whitespace(t[a]));
        assert(t.skip(a) =~= s.skip(a + 1));
        assert forall|i: int| 0 <= i < a + 1 implies char_whitespace(#[trigger] s[i]) by {
            if i > 0 {
                assert(s[i] == t[i - 1]);
            }
        }
    } else {
        assert(s.skip(0) =~= s);
    }
}

/// `trim_end` drops a run of trailing whitespace and stops at the last
/// other character.
proof fn lemma_trim_end(s: Seq<char>)
    ensures
        exists|b: int| #![trigger s.take(b)]
            0 <= b <= s.len() && trim_end(s) == s.take(b)
            && (forall|i: int| b <= i < s.len() ==> char_whitespace(#[trigger] s[i]))
            && (b > 0 ==> !char_whitespace(s[b - 1])),
    decreases s.len(),
{
    if s.len() > 0 && char_whitespace(s.last()) {
        lemma_trim_end(s.drop_last());
        let t = s.drop_last();
        let b = choose|b: int| #![trigger t.take(b)]
            0 <= b <= t.len() && trim_end(t) == t.take(b)
            && (forall|i: int| b <= i < t.len() ==> char_whitespace(#[trigger] t[i]))
            && (b > 0 ==> !char_whitespace(t[b - 1]));
        assert(t.take(b) =~= s.take(b));
        assert forall|i: int| b <= i < s.len() implies char_whitespace(#[trigger] s[i]) by {
            if i < s.len() - 1 {
                assert(s[i] == t[i]);
            }
        }
    } else {
        assert(s.take(s.len() as int) =~= s);
    }
}

/// Trimming keeps a contiguous piece of the text, drops only whitespace
/// around it, and leaves no whitespace at either end of it.
pub proof fn law_trimmed(s: Seq<char>)
    ensures
        exists|a: int, b: int|
            0 <= a <= b <= s.len() && #[trigger] s.subrange(a, b) == trimmed(s)
            && (forall|i: int| 0 <= i < a ==> char_whitespace(#[trigger] s[i]))
            && (forall|i: int| b <= i < s.len() ==> char_whitespace(#[trigger] s[i])),
        trimmed(s).len() > 0 ==> !char_whitespace(trimmed(s)[0]) && !char_whitespace(trimmed(s).last()),
{
    lemma_trim_start(s);
    let a = choose|a: int| #![trigger s.skip(a)]
        0 <= a <= s.len() && trim_start(s) == s.skip(a)
        && (forall|i: int| 0 <= i < a ==> char_whitespace(#[trigger] s[i]))
        && (a < s.len() ==> !char_whitespace(s[a]));
    let u = s.skip(a);
    lemma_trim_end(u);
    let b = choose|b: int| #![trigger u.take(b)]
        0 <= b <= u.len() && trim_end(u) == u.take(b)
        && (forall|i: int| b <= i < u.len() ==> char_whitespace(#[trigger] u[i]))
        && (b > 0 ==> !char_whitespace(u[b - 1]));
    assert(u.take(b) =~= s.subrange(a, a + b));
    assert forall|i: int| a + b <= i < s.len() implies char_whitespace(#[trigger] s[i]) by {
        assert(s[i] == u[i - a]);
    }
    if b > 0 {
        assert(trimmed(s)[0] == s[a]);
        assert(trimmed(s).last() == u[b - 1]);
    }
}


/// Reading a direction character and showing the direction give the
/// character back, and showing a direction and reading the character give
/// the direction back.
pub proof fn law_direction_symbols(c: char, d: HeadDirection)
    ensures
        is_dir_char(c) ==> direction_symbol(direction_of(c)) == c,
        direction_of(direction_symbol(d)) == d,
{
}

/// Moving right and then left puts the head back on its cell; the tape has
/// gained a blank at its right end when the head started on the last cell.
pub proof fn law_right_then_left(v: MdtView)
    requires
        0 <= v.head < v.tape.len(),
    ensures
        ({
            let w = move_head_spec(move_head_spec(v, HeadDirection::Right), HeadDirection::Left);
            &&& w.head == v.head
            &&& w.id_offset == v.id_offset
            &&& w.state == v.state
            &&& w.tape == (if v.head + 1 == v.tape.len() { v.tape.push(' ') } else { v.tape })
        }),
{
}

/// Moving left and then right puts the head back on its cell; the tape has
/// gained a blank at its left end (and every cell moved one place right) when
/// the head started on the first cell.
pub proof fn law_left_then_right(v: MdtView)
    requires
        0 <= v.head < v.tape.len(),
    ensures
        ({
            let w = move_head_spec(move_head_spec(v, HeadDirection::Left), HeadDirection::Right);
            &&& w.head - w.id_offset == v.head - v.id_offset
            &&& w.state == v.state
            &&& (if v.head == 0 {
                w.tape == seq![' '] + v.tape && w.head == 1 && w.id_offset == v.id_offset + 1
            } else {
                w.tape == v.tape && w.head == v.head && w.id_offset == v.id_offset
            })
        }),
{
}


/// The number that a text of decimal digits stands for, most significant
/// digit first.
pub open spec fn decimal_value(s: Seq<char>) -> int
    decreases s.len(),
{
    if s.len() == 0 {
        0
    } else {
        decimal_value(s.drop_last()) * 10 + (s.last() as int - 48)
    }
}

/// Whether a character is one of the digits `0`..`9`.
pub open spec fn is_digit(c: char) -> bool {
    '0' <= c && c <= '9'
}

/// A list opens with `[` or `{` and closes with the matching bracket; it is
/// complemented exactly when a `^` follows the opening bracket, and its text
/// starts right after the bracket and that `^`, and ends before the closing
/// bracket.
pub proof fn law_list_complement(t: Seq<char>, i: int)
    requires
        t.len() <= usize::MAX,
        parse_list(t, i) is Some,
    ensures
        ({
            let (l, e) = parse_list(t, i).unwrap();
            &&& 0 <= i && i + 1 < e && e <= t.len()
            &&& t[i] == '[' || t[i] == '{'
            &&& t[e - 1] == (if t[i] == '[' { ']' } else { '}' })
            &&& l.braces == (if t[i] == '[' { BracesType::Square } else { BracesType::Curly })
            &&& (l.compl <==> t[i + 1] == '^')
            &&& l.body.start == (if t[i + 1] == '^' { i + 2 } else { i + 1 })
            &&& l.body.end == e - 1
        }),
{
    let j = i + 1;
    let k = if j < t.len() && t[j] == '^' { j + 1 } else { j };
    let e = scan_units(t, k);
    assert(e < t.len());
    assert(span(k, e).start as int == k);
    assert(span(k, e).end as int == e);
}

/// The decimal digits of a number are digits, the first of them is `0` only
/// for zero, and read back in base ten they give the number.
pub proof fn law_digits_read_back(n: nat)
    ensures
        digits(n).len() > 0,
        forall|i: int| 0 <= i < digits(n).len() ==> is_digit(#[trigger] digits(n)[i]),
        digits(n)[0] == '0' ==> n == 0,
        decimal_value(digits(n)) == n,
    decreases n,
{
    if n < 10 {
        let c = (48 + n) as char;
        assert(c as int == 48 + n);
        assert(digits(n) == seq![c]);
        assert(digits(n).drop_last() =~= seq![]);
        assert(decimal_value(seq![]) == 0);
        assert(decimal_value(digits(n)) == decimal_value(digits(n).drop_last()) * 10 + (c as int - 48));
    } else {
        law_digits_read_back(n / 10);
        let d = digits(n);
        assert(d.drop_last() =~= digits(n / 10));
        let c = (48 + n % 10) as char;
        assert(c as int == 48 + n % 10);
        assert(d.last() == c);
        assert(decimal_value(d) == decimal_value(d.drop_last()) * 10 + (c as int - 48));
        assert(n == (n / 10) * 10 + n % 10) by (nonlinear_arith);
        assert forall|i: int| 0 <= i < d.len() implies is_digit(#[trigger] d[i]) by {
            if i < d.len() - 1 {
                assert(d[i] == digits(n / 10)[i]);
            }
        }
        assert(d[0] == digits(n / 10)[0]);
    }
}

/// A number in decimal: `-` and the digits of its magnitude when it is
/// negative, else its digits; either way they read back as the magnitude.
pub proof fn law_decimal_read_back(n: int)
    ensures
        n < 0 ==> decimal(n)[0] == '-' && decimal_value(decimal(n).drop_first()) == -n,
        n >= 0 ==> decimal_value(decimal(n)) == n && decimal(n)[0] != '-',
{
    if n < 0 {
        law_digits_read_back((-n) as nat);
        assert(decimal(n).drop_first() =~= digits((-n) as nat));
    } else {
        law_digits_read_back(n as nat);
    }
}

/// A blank in a rule's states or symbols is shown as `-`: two rules that
/// differ only where one has a blank and the other a `-` are shown alike.
pub proof fn law_blanks_shown_as_dashes(r1: RuleView, r2: RuleView)
    requires
        r1.current_state.len() == r2.current_state.len(),
        forall|i: int| 0 <= i < r1.current_state.len() ==> #[trigger] r1.current_state[i] == r2.current_state[i]
            || (r1.current_state[i] == ' ' && r2.current_state[i] == '-')
            || (r1.current_state[i] == '-' && r2.current_state[i] == ' '),
        r1.next_state.len() == r2.next_state.len(),
        forall|i: int| 0 <= i < r1.next_state.len() ==> #[trigger] r1.next_state[i] == r2.next_state[i]
            || (r1.next_state[i] == ' ' && r2.next_state[i] == '-')
            || (r1.next_state[i] == '-' && r2.next_state[i] == ' '),
        r1.read_symbol == r2.read_symbol || (r1.read_symbol == ' ' && r2.read_symbol == '-')
            || (r1.read_symbol == '-' && r2.read_symbol == ' '),
        r1.write_symbol == r2.write_symbol || (r1.write_symbol == ' ' && r2.write_symbol == '-')
            || (r1.write_symbol == '-' && r2.write_symbol == ' '),
        r1.direction == r2.direction,
    ensures
        rule_text(r1) == rule_text(r2),
{
    assert(crate::rule::blanks_as_dashes(r1.current_state) =~= crate::rule::blanks_as_dashes(r2.current_state));
    assert(crate::rule::blanks_as_dashes(r1.next_state) =~= crate::rule::blanks_as_dashes(r2.next_state));
    assert(crate::rule::blanks_as_dashes(seq![r1.read_symbol]) =~= crate::rule::blanks_as_dashes(seq![r2.read_symbol]));
    assert(crate::rule::blanks_as_dashes(seq![r1.write_symbol]) =~= crate::rule::blanks_as_dashes(seq![r2.write_symbol]));
}

/// A machine starts on its upper-cased input cell for cell, blanks
/// included; an empty input gives a single blank cell.
pub proof fn law_start_tape(input: Seq<char>)
    ensures
        uppercase(input).len() > 0 ==> tape_for(input).len() == uppercase(input).len(),
        forall|i: int| 0 <= i < uppercase(input).len() ==> #[trigger] tape_for(input)[i] == uppercase(input)[i],
        uppercase(input).len() == 0 ==> tape_for(input) == seq![' '],
{
}

/// Room runs out only at the numbering limits: a run that can take at most
/// `limit + 2 - it` more steps finishes whenever the tape can grow by that
/// many cells on either side without reaching them.
pub proof fn law_run_finishes_with_room(v: MdtView, rules: Map<(char, Seq<char>), RuleView>, it: nat, limit: nat)
    requires
        0 <= v.head < v.tape.len(),
        it <= limit + 1,
        v.tape.len() + (limit + 2 - it) + 1 < i64::MAX,
        v.id_offset + (limit + 2 - it) <= u32::MAX,
    ensures
        run_from(v, rules, it, limit).2,
    decreases limit + 1 - it,
{
    let (w, moved) = step_view(v, rules);
    lemma_step_growth(v, rules);
    if moved && it <= limit {
        let k = crate::machine::current_key(v);
        let r = rules[k];
        law_head_position(MdtView { tape: v.tape.update(v.head, r.write_symbol), state: r.next_state, ..v }, r.direction);
        law_run_finishes_with_room(w, rules, it + 1, limit);
    }
}
} // verus!
