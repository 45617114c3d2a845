//! Bracket tables: thresholds in ascending order, each with its ratio.

use crate::error::ConfigFault;
use crate::units::RATIO_ONE;
use vstd::prelude::*;

verus! {

/// One bracket: an upper bound in whole currency units and the ratio, in
/// millionths, that applies up to it.
#[derive(Clone, Copy, Debug, PartialEq, Eq, Structural)]
pub struct Bracket {
    pub bound: i64,
    pub ratio: u32,
}

/// The bounds grow strictly from one entry to the next.
pub open spec fn ascending(s: Seq<Bracket>) -> bool {
    forall|i: int, j: int| 0 <= i < j < s.len() ==> s[i].bound < s[j].bound
}

/// No ratio is above one.
pub open spec fn ratios_in_range(s: Seq<Bracket>) -> bool {
    forall|i: int| 0 <= i < s.len() ==> (#[trigger] s[i]).ratio <= RATIO_ONE
}

/// What every table holds: at least one bracket, bounds strictly ascending,
/// ratios between zero and one.
pub open spec fn well_formed(s: Seq<Bracket>) -> bool {
    &&& s.len() > 0
    &&& ascending(s)
    &&& ratios_in_range(s)
}

/// Some entry of `s` has the bound `k`.
pub open spec fn has_bound(s: Seq<Bracket>, k: i64) -> bool {
    exists|i: int| 0 <= i < s.len() && (#[trigger] s[i]).bound == k
}

/// The mapping from bound to ratio that a list of rules stands for: rules are
/// taken in order, and a later rule replaces an earlier one with the same
/// bound.
pub open spec fn rule_map(s: Seq<Bracket>) -> Map<i64, u32>
    decreases s.len(),
{
    if s.len() == 0 {
        Map::empty()
    } else {
        rule_map(s.drop_last()).insert(s.last().bound, s.last().ratio)
    }
}

/// Entry `i` has the least bound among the entries whose bound is at least `x`.
pub open spec fn is_successor(s: Seq<Bracket>, x: int, i: int) -> bool {
    &&& 0 <= i < s.len()
    &&& s[i].bound >= x
    &&& forall|j: int| 0 <= j < s.len() && (#[trigger] s[j]).bound >= x ==> s[i].bound <= s[j].bound
}

/// The bracket with the smallest bound that is at least `x`, if there is one.
pub open spec fn successor_of(s: Seq<Bracket>, x: int) -> Option<Bracket> {
    if exists|i: int| is_successor(s, x, i) {
        Some(s[choose|i: int| is_successor(s, x, i)])
    } else {
        None
    }
}

/// The keys of `rule_map(s)` are the bounds that occur in `s`.
pub proof fn lemma_rule_map_domain(s: Seq<Bracket>)
    ensures
        forall|k: i64| #[trigger] rule_map(s).contains_key(k) <==> has_bound(s, k),
    decreases s.len(),
{
    if s.len() > 0 {
        let p = s.drop_last();
        lemma_rule_map_domain(p);
        assert forall|k: i64| #[trigger] rule_map(s).contains_key(k) implies has_bound(s, k) by {
            if k != s.last().bound {
                assert(rule_map(p).contains_key(k));
            }
        }
        assert forall|k: i64| has_bound(s, k) implies #[trigger] rule_map(s).contains_key(k) by {
            let i = choose|i: int| 0 <= i < s.len() && (#[trigger] s[i]).bound == k;
            if i < s.len() - 1 {
                assert(p[i].bound == k);
            }
        }
    }
}

/// In an ascending list every entry is found in the map under its own bound.
pub proof fn lemma_rule_map_value(s: Seq<Bracket>, i: int)
    requires
        ascending(s),
        0 <= i < s.len(),
    ensures
        rule_map(s).contains_key(s[i].bound),
        rule_map(s)[s[i].bound] == s[i].ratio,
    decreases s.len(),
{
    if i < s.len() - 1 {
        let p = s.drop_last();
        assert(ascending(p)) by {
            assert forall|a: int, b: int| 0 <= a < b < p.len() implies p[a].bound < p[b].bound by {
            }
        }
        lemma_rule_map_value(p, i);
    }
}

/// Putting a new bound at its place in an ascending list keeps the list
/// ascending and adds that one rule to the map.
pub proof fn lemma_rule_map_insert(s: Seq<Bracket>, pos: int, b: Bracket)
    requires
        ascending(s),
        0 <= pos <= s.len(),
        forall|i: int| 0 <= i < pos ==> (#[trigger] s[i]).bound < b.bound,
        forall|i: int| pos <= i < s.len() ==> (#[trigger] s[i]).bound > b.bound,
    ensures
        ascending(s.insert(pos, b)),
        rule_map(s.insert(pos, b)) == rule_map(s).insert(b.bound, b.ratio),
{
    let t = s.insert(pos, b);
    assert(ascending(t)) by {
        assert forall|x: int, y: int| 0 <= x < y < t.len() implies t[x].bound < t[y].bound by {
        }
    }
    let left = rule_map(t);
    let right = rule_map(s).insert(b.bound, b.ratio);
    lemma_rule_map_domain(s);
    lemma_rule_map_domain(t);
    assert forall|k: i64| left.contains_key(k) <==> right.contains_key(k) by {
        if right.contains_key(k) {
            if k == b.bound {
                assert(t[pos].bound == k);
            } else {
                let j = choose|j: int| 0 <= j < s.len() && (#[trigger] s[j]).bound == k;
                if j < pos {
                    assert(t[j].bound == k);
                } else {
                    assert(t[j + 1].bound == k);
                }
            }
        }
    }
    assert forall|k: i64| left.contains_key(k) implies left[k] == right[k] by {
        let j = choose|j: int| 0 <= j < t.len() && (#[trigger] t[j]).bound == k;
        lemma_rule_map_value(t, j);
        if j < pos {
            lemma_rule_map_value(s, j);
        } else if j > pos {
            lemma_rule_map_value(s, j - 1);
        }
    }
}

/// Giving the entry at `pos` a new ratio replaces that one rule in the map.
pub proof fn lemma_rule_map_update(s: Seq<Bracket>, pos: int, b: Bracket)
    requires
        ascending(s),
        0 <= pos < s.len(),
        s[pos].bound == b.bound,
    ensures
        ascending(s.update(pos, b)),
        rule_map(s.update(pos, b)) == rule_map(s).insert(b.bound, b.ratio),
{
    let t = s.update(pos, b);
    assert(ascending(t)) by {
        assert forall|x: int, y: int| 0 <= x < y < t.len() implies t[x].bound < t[y].bound by {
        }
    }
    let left = rule_map(t);
    let right = rule_map(s).insert(b.bound, b.ratio);
    lemma_rule_map_domain(s);
    lemma_rule_map_domain(t);
    assert forall|k: i64| left.contains_key(k) <==> right.contains_key(k) by {
        if right.contains_key(k) {
            if k == b.bound {
                assert(t[pos].bound == k);
            } else {
                let j = choose|j: int| 0 <= j < s.len() && (#[trigger] s[j]).bound == k;
                assert(t[j].bound == k);
            }
        }
    }
    assert forall|k: i64| left.contains_key(k) implies left[k] == right[k] by {
        let j = choose|j: int| 0 <= j < t.len() && (#[trigger] t[j]).bound == k;
        lemma_rule_map_value(t, j);
        if j != pos {
            lemma_rule_map_value(s, j);
        }
    }
}

/// Without its last entry, an ascending list stands for the same mapping
/// without the last bound.
pub proof fn lemma_rule_map_drop_last(s: Seq<Bracket>)
    requires
        ascending(s),
        s.len() > 0,
    ensures
        ascending(s.drop_last()),
        rule_map(s.drop_last()) == rule_map(s).remove(s.last().bound),
{
    let p = s.drop_last();
    assert(ascending(p)) by {
        assert forall|a: int, b: int| 0 <= a < b < p.len() implies p[a].bound < p[b].bound by {
        }
    }
    lemma_rule_map_domain(p);
}

/// An ascending list is the only ascending list that stands for its mapping:
/// the mapping of a table and the order of its entries say what the table
/// holds.
pub proof fn lemma_table_is_determined(a: Seq<Bracket>, b: Seq<Bracket>)
    requires
        ascending(a),
        ascending(b),
        rule_map(a) == rule_map(b),
    ensures
        a == b,
    decreases a.len(),
{
    lemma_rule_map_domain(a);
    lemma_rule_map_domain(b);
    if a.len() == 0 {
        if b.len() > 0 {
            assert(rule_map(a).contains_key(b[0].bound));
        }
    } else {
        let x = a.last();
        assert(rule_map(b).contains_key(x.bound));
        let y = b.last();
        assert(rule_map(a).contains_key(y.bound));
        lemma_rule_map_value(a, a.len() - 1);
        lemma_rule_map_value(b, b.len() - 1);
        lemma_rule_map_drop_last(a);
        lemma_rule_map_drop_last(b);
        lemma_table_is_determined(a.drop_last(), b.drop_last());
        assert(b =~= b.drop_last().push(y));
    }
}

/// An ascending list splits, at one position, into the bounds below `x` and
/// the bounds at or above `x`.
pub proof fn lemma_split_point(s: Seq<Bracket>, x: int) -> (pos: int)
    requires
        ascending(s),
    ensures
        0 <= pos <= s.len(),
        forall|i: int| 0 <= i < pos ==> (#[trigger] s[i]).bound < x,
        forall|i: int| pos <= i < s.len() ==> (#[trigger] s[i]).bound >= x,
    decreases s.len(),
{
    if s.len() == 0 {
        0
    } else if s.last().bound < x {
        assert forall|i: int| 0 <= i < s.len() implies (#[trigger] s[i]).bound < x by {
        }
        s.len() as int
    } else {
        let p = s.drop_last();
        assert(ascending(p)) by {
            assert forall|a: int, b: int| 0 <= a < b < p.len() implies p[a].bound < p[b].bound by {
            }
        }
        let pos = lemma_split_point(p, x);
        assert forall|i: int| 0 <= i < pos implies (#[trigger] s[i]).bound < x by {
            assert(p[i] == s[i]);
        }
        assert forall|i: int| pos <= i < s.len() implies (#[trigger] s[i]).bound >= x by {
            if i < s.len() - 1 {
                assert(p[i] == s[i]);
            }
        }
        pos
    }
}

/// Where an ascending list splits into bounds below `x` and bounds at or
/// above `x`, the successor of `x` is the first entry of the second part.
pub proof fn lemma_successor_at(s: Seq<Bracket>, x: int, pos: int)
    requires
        ascending(s),
        0 <= pos <= s.len(),
        forall|i: int| 0 <= i < pos ==> (#[trigger] s[i]).bound < x,
        forall|i: int| pos <= i < s.len() ==> (#[trigger] s[i]).bound >= x,
    ensures
        successor_of(s, x) == (if pos < s.len() {
            Some(s[pos])
        } else {
            None
        }),
{
    if pos < s.len() {
        assert(is_successor(s, x, pos)) by {
            assert forall|j: int| 0 <= j < s.len() && (#[trigger] s[j]).bound >= x implies s[pos].bound
                <= s[j].bound by {
            }
        }
    } else {
        assert forall|i: int| !is_successor(s, x, i) by {
        }
    }
}

/// The first position of an ascending list whose bound is at least `x`, by
/// halving the range that may hold it.
fn lower_index(entries: &Vec<Bracket>, x: i64) -> (pos: usize)
    requires
        ascending(entries@),
    ensures
        pos <= entries@.len(),
        forall|i: int| 0 <= i < pos ==> (#[trigger] entries@[i]).bound < x,
        forall|i: int| pos <= i < entries@.len() ==> (#[trigger] entries@[i]).bound >= x,
{
    let mut lo: usize = 0;
    let mut hi: usize = entries.len();
    while lo < hi
        invariant
            lo <= hi <= entries@.len(),
            ascending(entries@),
            forall|i: int| 0 <= i < lo ==> (#[trigger] entries@[i]).bound < x,
            forall|i: int| hi <= i < entries@.len() ==> (#[trigger] entries@[i]).bound >= x,
        decreases hi - lo,
    {
        let mid: usize = lo + (hi - lo) / 2;
        if entries[mid].bound < x {
            assert forall|i: int| 0 <= i < mid + 1 implies (#[trigger] entries@[i]).bound < x by {
            }
            lo = mid + 1;
        } else {
            assert forall|i: int| mid <= i < entries@.len() implies (#[trigger] entries@[i]).bound
                >= x by {
            }
            hi = mid;
        }
    }
    lo
}

/// A table of brackets, kept in ascending order of bound. It is never empty
/// and holds each bound once.
#[derive(Debug)]
pub struct BracketTable {
    entries: Vec<Bracket>,
}

impl View for BracketTable {
    type V = Seq<Bracket>;

    closed spec fn view(&self) -> Seq<Bracket> {
        self.entries@
    }
}

impl BracketTable {
    #[verifier::type_invariant]
    spec fn inv(&self) -> bool {
        well_formed(self.entries@)
    }

    /// Builds the table that a list of rules stands for. The rules may come
    /// in any order; of two rules with one bound the later one counts. An
    /// empty list and a ratio above one are refused.
    pub fn from_rules(rules: &Vec<Bracket>) -> (r: Result<BracketTable, ConfigFault>)
        ensures
            match r {
                Ok(t) => rules@.len() > 0 && ratios_in_range(rules@) && well_formed(t@) && rule_map(t@)
                    == rule_map(rules@),
                Err(ConfigFault::NoRules) => rules@.len() == 0,
                Err(ConfigFault::RatioOutOfRange) => !ratios_in_range(rules@),
                Err(_) => false,
            },
    {
        let mut entries: Vec<Bracket> = Vec::new();
        let mut i: usize = 0;
        while i < rules.len()
            invariant
                i <= rules@.len(),
                ascending(entries@),
                ratios_in_range(entries@),
                ratios_in_range(rules@.take(i as int)),
                rule_map(entries@) == rule_map(rules@.take(i as int)),
                i > 0 <==> entries@.len() > 0,
            decreases rules@.len() - i,
        {
            let rule: Bracket = rules[i];
            if rule.ratio > RATIO_ONE {
                return Err(ConfigFault::RatioOutOfRange);
            }
            let pos: usize = lower_index(&entries, rule.bound);
            proof {
                let before = rules@.take(i as int);
                let after = rules@.take(i + 1);
                assert(after.drop_last() =~= before);
                assert forall|j: int| 0 <= j < after.len() implies (#[trigger] after[j]).ratio
                    <= RATIO_ONE by {
                }
            }
            if pos < entries.len() && entries[pos].bound == rule.bound {
                proof {
                    lemma_rule_map_update(entries@, pos as int, rule);
                }
                entries[pos] = rule;
            } else {
                proof {
                    lemma_rule_map_insert(entries@, pos as int, rule);
                    entries@.insert_ensures(pos as int, rule);
                }
                entries.insert(pos, rule);
            }
            i += 1;
        }
        assert(rules@.take(i as int) =~= rules@);
        if entries.len() == 0 {
            Err(ConfigFault::NoRules)
        } else {
            Ok(BracketTable { entries })
        }
    }

    /// The brackets in ascending order of bound.
    pub fn rules(&self) -> (r: &Vec<Bracket>)
        ensures
            r@ == self@,
            well_formed(self@),
    {
        proof {
            use_type_invariant(self);
        }
        &self.entries
    }

    /// The bracket with the smallest bound that is at least `x`, found by
    /// binary search; `None` where every bound is below `x`.
    pub fn successor(&self, x: i64) -> (r: Option<Bracket>)
        ensures
            r == successor_of(self@, x as int),
            well_formed(self@),
    {
        proof {
            use_type_invariant(self);
        }
        let pos: usize = lower_index(&self.entries, x);
        proof {
            lemma_successor_at(self.entries@, x as int, pos as int);
        }
        if pos < self.entries.len() {
            Some(self.entries[pos])
        } else {
            None
        }
    }
}

} // verus!
