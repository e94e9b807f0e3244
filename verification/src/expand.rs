//! Symbol lists: `..` ranges between digits or letters, and complements
//! with respect to the tape alphabet.

use vstd::prelude::*;
use crate::text::{char_alphabetic, char_numeric, is_scalar, is_alphabetic, is_numeric, char_from_u32, chars_of};

verus! {

/// The symbols a complemented list is taken from.
pub const ALPHABET: &'static str = " !\"#$%&'()*+,-./0123456789:;<=>?@ABCDEFGHIJKLMNOPQRSTUVWXYZ[\\]^-{|}";

/// The first position at or after `from` where `..` starts, or `s.len()`
/// when there is none.
pub open spec fn find_dots(s: Seq<char>, from: int) -> int
    decreases s.len() - from,
{
    if from < 0 || from + 1 >= s.len() {
        s.len() as int
    } else if s[from] == '.' && s[from + 1] == '.' {
        from
    } else {
        find_dots(s, from + 1)
    }
}

pub proof fn lemma_find_dots(s: Seq<char>, from: int)
    requires
        0 <= from <= s.len(),
    ensures
        from <= find_dots(s, from) <= s.len(),
        find_dots(s, from) < s.len() ==> find_dots(s, from) + 2 <= s.len(),
    decreases s.len() - from,
{
    if from + 1 < s.len() && !(s[from] == '.' && s[from + 1] == '.') {
        lemma_find_dots(s, from + 1);
    }
}

/// The pieces of `s` from `from` on, split at each `..` from left to right.
pub open spec fn split_dots_from(s: Seq<char>, from: int) -> Seq<Seq<char>>
    decreases s.len() - from,
{
    if from < 0 || from > s.len() {
        seq![]
    } else {
        let d = find_dots(s, from);
        if from <= d && d + 2 <= s.len() {
            seq![s.subrange(from, d)].add(split_dots_from(s, d + 2))
        } else {
            seq![s.subrange(from, s.len() as int)]
        }
    }
}

/// The pieces of `s` split at each `..`.
pub open spec fn split_dots(s: Seq<char>) -> Seq<Seq<char>> {
    split_dots_from(s, 0)
}

/// Whether `a..b` is a range: both ends are digits or both are letters.
pub open spec fn range_ends_ok(a: char, b: char) -> bool {
    (char_numeric(a) && char_numeric(b)) || (char_alphabetic(a) && char_alphabetic(b))
}

/// The characters with codes in `lo..hi`, ascending.
pub open spec fn chars_up(lo: int, hi: int) -> Seq<char>
    decreases hi - lo,
{
    if lo >= hi {
        seq![]
    } else if is_scalar(lo) {
        seq![lo as char].add(chars_up(lo + 1, hi))
    } else {
        chars_up(lo + 1, hi)
    }
}

/// The characters with codes strictly between `bottom` and `top`, descending.
pub open spec fn chars_down(top: int, bottom: int) -> Seq<char>
    decreases top - bottom,
{
    if top - 1 <= bottom {
        seq![]
    } else if is_scalar(top - 1) {
        seq![(top - 1) as char].add(chars_down(top - 1, bottom))
    } else {
        chars_down(top - 1, bottom)
    }
}

/// The characters strictly between `a` and `b`, going from `a` towards `b`.
pub open spec fn range_fill(a: char, b: char) -> Seq<char> {
    if (a as int) < (b as int) {
        chars_up(a as int + 1, b as int)
    } else {
        chars_down(a as int, b as int)
    }
}

/// Joins the pieces of a list, filling each `..` with the characters between
/// its two ends; `None` when a `..` lacks an end or its ends are not a range.
pub open spec fn join_ranges(segs: Seq<Seq<char>>) -> Option<Seq<char>>
    decreases segs.len(),
{
    if segs.len() == 0 {
        Some(seq![])
    } else if segs.len() == 1 {
        Some(segs[0])
    } else {
        let a = segs[0];
        let b = segs[1];
        if a.len() > 0 && b.len() > 0 && range_ends_ok(a.last(), b[0]) {
            match join_ranges(segs.drop_first()) {
                Some(rest) => Some(a + range_fill(a.last(), b[0]) + rest),
                None => None,
            }
        } else {
            None
        }
    }
}

/// The characters of `a` that do not occur in `ex`, in order.
pub open spec fn without(a: Seq<char>, ex: Seq<char>) -> Seq<char>
    decreases a.len(),
{
    if a.len() == 0 {
        seq![]
    } else {
        let w = without(a.drop_last(), ex);
        if ex.contains(a.last()) {
            w
        } else {
            w.push(a.last())
        }
    }
}

/// A symbol list with its ranges expanded, or the alphabet without those
/// symbols when `compl` holds; `None` for a malformed range.
pub open spec fn expand_spec(list: Seq<char>, compl: bool) -> Option<Seq<char>> {
    match join_ranges(split_dots(list)) {
        Some(e) => Some(if compl { without(ALPHABET@, e) } else { e }),
        None => None,
    }
}

/// The position of the first `..` at or after `from`, or `s.len()`.
fn find_dots_exec(s: &Vec<char>, from: usize) -> (d: usize)
    requires
        from <= s.len(),
    ensures
        d as int == find_dots(s@, from as int),
{
    let mut i = from;
    while i < s.len() && i + 1 < s.len() && !(s[i] == '.' && s[i + 1] == '.')
        invariant
            from <= i <= s.len(),
            find_dots(s@, i as int) == find_dots(s@, from as int),
        decreases s.len() - i,
    {
        i = i + 1;
    }
    if i < s.len() && i + 1 < s.len() {
        i
    } else {
        s.len()
    }
}

/// The characters `s[from..to]`.
pub fn slice_chars(s: &Vec<char>, from: usize, to: usize) -> (r: Vec<char>)
    requires
        from <= to <= s.len(),
    ensures
        r@ == s@.subrange(from as int, to as int),
{
    let mut r: Vec<char> = Vec::new();
    let mut i = from;
    while i < to
        invariant
            from <= i <= to <= s.len(),
            r@ == s@.subrange(from as int, i as int),
        decreases to - i,
    {
        r.push(s[i]);
        i = i + 1;
    }
    r
}

/// The views of a vector of character vectors.
pub open spec fn views(v: Seq<Vec<char>>) -> Seq<Seq<char>> {
    Seq::new(v.len(), |i: int| v[i]@)
}

/// Splits a list at each `..`.
fn split_dots_exec(s: &Vec<char>) -> (segs: Vec<Vec<char>>)
    ensures
        views(segs@) == split_dots(s@),
{
    let mut segs: Vec<Vec<char>> = Vec::new();
    let mut pos: usize = 0;
    loop
        invariant
            pos <= s.len(),
            split_dots(s@) == views(segs@) + split_dots_from(s@, pos as int),
        decreases s.len() - pos,
    {
        proof {
            lemma_find_dots(s@, pos as int);
        }
        let d = find_dots_exec(s, pos);
        let ghost before = segs@;
        if d < s.len() {
            let seg = slice_chars(s, pos, d);
            assert(split_dots_from(s@, pos as int) == seq![seg@].add(split_dots_from(s@, d + 2)));
            segs.push(seg);
            assert(views(segs@) =~= views(before).push(seg@));
            pos = d + 2;
        } else {
            let seg = slice_chars(s, pos, s.len());
            assert(split_dots_from(s@, pos as int) == seq![seg@]);
            segs.push(seg);
            assert(views(segs@) =~= views(before).push(seg@));
            return segs;
        }
    }
}


/// The characters strictly between `a` and `b`, going from `a` towards `b`.
fn range_fill_exec(a: char, b: char) -> (v: Vec<char>)
    ensures
        v@ == range_fill(a, b),
{
    let mut v: Vec<char> = Vec::new();
    let au = a as u32;
    let bu = b as u32;
    if au < bu {
        let mut x: u32 = au + 1;
        while x < bu
            invariant
                au < x <= bu,
                bu == b as u32,
                v@ + chars_up(x as int, bu as int) == chars_up(au + 1, bu as int),
            decreases bu - x,
        {
            let ghost before = v@;
            match char_from_u32(x) {
                Some(c) => {
                    v.push(c);
                    proof { vstd::utf8::char_u32_cast(c, x); }
                    assert(chars_up(x as int, bu as int) == seq![c].add(chars_up(x + 1, bu as int)));
                    assert(v@ + chars_up(x + 1, bu as int) =~= before + chars_up(x as int, bu as int));
                },
                None => {},
            }
            x = x + 1;
        }
    } else {
        let mut x: u32 = au;
        while x > bu + 1
            invariant
                bu + 1 <= x + 1,
                x <= au,
                bu == b as u32,
                bu < 0x110000,
                v@ + chars_down(x as int, bu as int) == chars_down(au as int, bu as int),
            decreases x,
        {
            let ghost before = v@;
            let y = x - 1;
            match char_from_u32(y) {
                Some(c) => {
                    v.push(c);
                    proof { vstd::utf8::char_u32_cast(c, y); }
                    assert(chars_down(x as int, bu as int) == seq![c].add(chars_down(y as int, bu as int)));
                    assert(v@ + chars_down(y as int, bu as int) =~= before + chars_down(x as int, bu as int));
                },
                None => {},
            }
            x = y;
        }
    }
    v
}


/// `p` in front of the sequence in `o`, if there is one.
pub open spec fn prepend_opt(p: Seq<char>, o: Option<Seq<char>>) -> Option<Seq<char>> {
    match o {
        Some(x) => Some(p + x),
        None => None,
    }
}

/// Appends the characters of `src` to `out`.
pub fn push_all(out: &mut Vec<char>, src: &Vec<char>)
    ensures
        final(out)@ == old(out)@ + src@,
{
    let mut i: usize = 0;
    while i < src.len()
        invariant
            i <= src.len(),
            out@ == old(out)@ + src@.take(i as int),
        decreases src.len() - i,
    {
        out.push(src[i]);
        i = i + 1;
        assert(src@.take(i as int) == src@.take(i - 1).push(src@[i - 1]));
    }
    assert(src@.take(src.len() as int) =~= src@);
}

/// Whether `c` occurs in `v`.
pub fn contains_char(v: &Vec<char>, c: char) -> (b: bool)
    ensures
        b == v@.contains(c),
{
    let mut i: usize = 0;
    while i < v.len()
        invariant
            i <= v.len(),
            forall|j: int| 0 <= j < i ==> v@[j] != c,
        decreases v.len() - i,
    {
        if v[i] == c {
            return true;
        }
        i = i + 1;
    }
    false
}

/// Joins the pieces of a list, filling each `..` with the characters between
/// its ends; `None` when a `..` lacks an end or its ends are not a range.
fn join_ranges_exec(segs: &Vec<Vec<char>>) -> (r: Option<Vec<char>>)
    ensures
        match r {
            Some(v) => join_ranges(views(segs@)) == Some(v@),
            None => join_ranges(views(segs@)) is None,
        },
{
    let n = segs.len();
    if n == 0 {
        return Some(Vec::new());
    }
    let ghost all = views(segs@);
    let mut out: Vec<char> = Vec::new();
    let mut i: usize = 0;
    assert(all.skip(0) =~= all);
    while i + 1 < n
        invariant
            i < n,
            n == segs.len(),
            all == views(segs@),
            join_ranges(all) == prepend_opt(out@, join_ranges(all.skip(i as int))),
        decreases n - i,
    {
        let a = &segs[i];
        let b = &segs[i + 1];
        let ghost rest = all.skip(i as int);
        assert(rest[0] == a@ && rest[1] == b@);
        assert(rest.drop_first() =~= all.skip(i + 1));
        if a.len() == 0 || b.len() == 0 {
            return None;
        }
        let la = a[a.len() - 1];
        let fb = b[0];
        if !((is_numeric(la) && is_numeric(fb)) || (is_alphabetic(la) && is_alphabetic(fb))) {
            return None;
        }
        let ghost before = out@;
        push_all(&mut out, a);
        let fill = range_fill_exec(la, fb);
        push_all(&mut out, &fill);
        assert(a@.last() == la);
        proof {
            match join_ranges(all.skip(i + 1)) {
                Some(x) => {
                    assert(before + (a@ + range_fill(la, fb) + x) =~= out@ + x);
                },
                None => {},
            }
        }
        i = i + 1;
    }
    let ghost before = out@;
    push_all(&mut out, &segs[n - 1]);
    assert(all.skip(i as int) =~= seq![all[n - 1]]);
    Some(out)
}

/// The characters of `a` that do not occur in `ex`.
fn without_exec(a: &Vec<char>, ex: &Vec<char>) -> (r: Vec<char>)
    ensures
        r@ == without(a@, ex@),
{
    let mut r: Vec<char> = Vec::new();
    let mut i: usize = 0;
    while i < a.len()
        invariant
            i <= a.len(),
            r@ == without(a@.take(i as int), ex@),
        decreases a.len() - i,
    {
        assert(a@.take(i + 1).drop_last() =~= a@.take(i as int));
        if !contains_char(ex, a[i]) {
            r.push(a[i]);
        }
        i = i + 1;
    }
    assert(a@.take(a.len() as int) =~= a@);
    r
}

/// Expands the ranges of a symbol list; with `compl`, gives the alphabet
/// without the listed symbols instead. `None` for a malformed range.
pub(crate) fn expand_checked(list: &Vec<char>, compl: bool) -> (r: Option<Vec<char>>)
    ensures
        match r {
            Some(v) => expand_spec(list@, compl) == Some(v@),
            None => expand_spec(list@, compl) is None,
        },
{
    let segs = split_dots_exec(list);
    match join_ranges_exec(&segs) {
        None => None,
        Some(expanded) => {
            if compl {
                let alphabet = chars_of(ALPHABET);
                Some(without_exec(&alphabet, &expanded))
            } else {
                Some(expanded)
            }
        },
    }
}

/// Whether a symbol list is well formed: every `..` has a digit on both sides
/// or a letter on both sides.
pub fn expands(list: &Vec<char>, compl: bool) -> (b: bool)
    ensures
        b == expand_spec(list@, compl) is Some,
{
    expand_checked(list, compl).is_some()
}

/// Expands the ranges of a well-formed symbol list; with `compl`, gives the
/// alphabet without the listed symbols instead.
pub fn expand_symbol_list(list: &Vec<char>, compl: bool) -> (r: Vec<char>)
    requires
        expand_spec(list@, compl) is Some,
    ensures
        expand_spec(list@, compl) == Some(r@),
{
    match expand_checked(list, compl) {
        Some(v) => v,
        None => Vec::new(),
    }
}

/// `expand_symbol_list`, or `None` when the list is not well formed.
pub fn try_expand_symbol_list(list: &Vec<char>, compl: bool) -> (r: Option<Vec<char>>)
    ensures
        r is Some <==> expand_spec(list@, compl) is Some,
        r matches Some(v) ==> expand_spec(list@, compl) == Some(v@),
{
    if expands(list, compl) {
        Some(expand_symbol_list(list, compl))
    } else {
        None
    }
}

} // verus!
