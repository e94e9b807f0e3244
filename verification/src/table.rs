//! The rule table: for each read symbol and current state, the rule that
//! applies.

use vstd::prelude::*;
use vstd::hash_map::{HashMapWithView, StringHashMap};
use crate::rule::{MDTRule, RuleView};

verus! {

broadcast use vstd::std_specs::hash::group_hash_axioms;

/// The key under which a rule is found: its read symbol and current state.
pub open spec fn rule_key(r: RuleView) -> (char, Seq<char>) {
    (r.read_symbol, r.current_state)
}

/// The table that entering `rules` in order gives: a later rule with the
/// same key replaces an earlier one.
pub open spec fn table_of(rules: Seq<RuleView>) -> Map<(char, Seq<char>), RuleView>
    decreases rules.len(),
{
    if rules.len() == 0 {
        Map::empty()
    } else {
        table_of(rules.drop_last()).insert(rule_key(rules.last()), rules.last())
    }
}

/// Rules indexed by read symbol, then by current state.
pub struct RuleTable {
    by_symbol: HashMapWithView<u32, StringHashMap<MDTRule>>,
    count: usize,
    keys: Ghost<Set<(char, Seq<char>)>>,
}

impl RuleTable {
    /// The rules of the table, by key.
    pub closed spec fn entries(&self) -> Map<(char, Seq<char>), RuleView> {
        Map::new(
            |k: (char, Seq<char>)|
                self.by_symbol@.contains_key(k.0 as u32) && self.by_symbol@[k.0 as u32]@.contains_key(k.1),
            |k: (char, Seq<char>)| self.by_symbol@[k.0 as u32]@[k.1]@,
        )
    }

    pub closed spec fn wf(&self) -> bool {
        &&& self.keys@.finite()
        &&& self.count == self.keys@.len()
        &&& self.entries().dom() == self.keys@
    }

    /// An empty table.
    pub fn new() -> (t: RuleTable)
        ensures
            t.wf(),
            t.entries() == Map::<(char, Seq<char>), RuleView>::empty(),
    {
        let t = RuleTable {
            by_symbol: HashMapWithView::new(),
            count: 0,
            keys: Ghost(Set::empty()),
        };
        assert(t.entries() =~= Map::<(char, Seq<char>), RuleView>::empty());
        t
    }

    /// Enters a rule under its key, replacing the rule there was.
    pub fn insert(&mut self, rule: MDTRule)
        requires
            old(self).wf(),
            old(self).entries().len() < usize::MAX,
        ensures
            final(self).wf(),
            final(self).entries() == old(self).entries().insert(rule_key(rule@), rule@),
    {
        let ghost k = rule_key(rule@);
        let key = rule.read_symbol as u32;
        let mut inner = match self.by_symbol.remove(&key) {
            Some(m) => m,
            None => StringHashMap::new(),
        };
        let ghost old_inner = inner@;
        assert(old(self).by_symbol@.contains_key(key) ==> old_inner == old(self).by_symbol@[key]@);
        assert(!old(self).by_symbol@.contains_key(key) ==> old_inner == Map::<Seq<char>, MDTRule>::empty());
        let existed = inner.contains_key(rule.current_state.as_str());
        let ghost rv = rule@;
        inner.insert(rule.current_state.clone(), rule);
        assert(inner@ == old_inner.insert(rv.current_state, inner@[rv.current_state]));
        self.by_symbol.insert(key, inner);
        assert forall|q: (char, Seq<char>)| #[trigger] self.entries().contains_key(q) == old(self).entries().insert(k, rv).contains_key(q)
            && (self.entries().contains_key(q) ==> self.entries()[q] == old(self).entries().insert(k, rv)[q]) by {
            if q.0 as u32 == key {
                vstd::utf8::char_u32_cast(q.0, key);
                vstd::utf8::char_u32_cast(rv.read_symbol, key);
                assert(q.0 == rv.read_symbol);
            }
        }
        assert(self.entries() =~= old(self).entries().insert(k, rv));
        if !existed {
            assert(!old(self).keys@.contains(k));
            self.count = self.count + 1;
            self.keys = Ghost(self.keys@.insert(k));
        } else {
            assert(old(self).keys@.contains(k));
            assert(self.keys@.insert(k) =~= self.keys@);
        }
        assert(self.entries().dom() =~= self.keys@);
    }

    /// The rule for a read symbol and a current state, if there is one.
    pub fn get(&self, symbol: char, state: &str) -> (r: Option<&MDTRule>)
        requires
            self.wf(),
        ensures
            match r {
                Some(rule) => self.entries().contains_key((symbol, state@)) && rule@ == self.entries()[(symbol, state@)],
                None => !self.entries().contains_key((symbol, state@)),
            },
    {
        match self.by_symbol.get(&(symbol as u32)) {
            Some(inner) => inner.get(state),
            None => None,
        }
    }

    /// The number of keys that have a rule.
    pub fn len(&self) -> (n: usize)
        requires
            self.wf(),
        ensures
            n == self.entries().len(),
    {
        self.count
    }
}

} // verus!
