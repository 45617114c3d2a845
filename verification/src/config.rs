//! The tax configuration: one bracket table for the salary and one for the
//! yearly bonus, and how it is read from a TOML document.
//!
//! A document has two tables, `salary` and `year_bonus`. Each holds an array
//! `rule` of tables with an integer `bound` and a floating-point `ratio`.

use crate::binary64::{ratio_from_bits, ratio_of_bits};
use crate::bracket::{ratios_in_range, rule_map, well_formed, Bracket, BracketTable};
use crate::document::{document_nodes, parse_document, table_get, table_nodes, value_float_bits,
    value_get, value_node, Node};
use crate::error::{ConfigError, ConfigFault};
use crate::units::RATIO_ONE;
use vstd::prelude::*;

verus! {

/// What a configuration says: the brackets of each table in ascending order.
pub struct ConfigView {
    pub salary: Seq<Bracket>,
    pub year_bonus: Seq<Bracket>,
}

/// The two bracket tables that tax is calculated from. They stay as they
/// were when the configuration was made.
#[derive(Debug)]
pub struct TaxConfig {
    salary: BracketTable,
    year_bonus: BracketTable,
}

impl View for TaxConfig {
    type V = ConfigView;

    closed spec fn view(&self) -> ConfigView {
        ConfigView { salary: self.salary@, year_bonus: self.year_bonus@ }
    }
}

/// The rule that one item of a `rule` array stands for. The bound is looked
/// at before the ratio.
pub open spec fn rule_of(item: Node) -> Result<Bracket, ConfigFault> {
    if !(item is Table && item->Table_0.contains_key("bound"@) && item->Table_0["bound"@] is Integer) {
        Err(ConfigFault::MissingBound)
    } else if !(item->Table_0.contains_key("ratio"@) && item->Table_0["ratio"@] is Float) {
        Err(ConfigFault::MissingRatio)
    } else {
        match ratio_of_bits(item->Table_0["ratio"@]->Float_0) {
            Some(ratio) => Ok(Bracket { bound: item->Table_0["bound"@]->Integer_0, ratio }),
            None => Err(ConfigFault::RatioOutOfRange),
        }
    }
}

/// The rules that the items of a `rule` array stand for, in their order, or
/// the fault of the first item that has one.
pub open spec fn rules_of(items: Seq<Node>) -> Result<Seq<Bracket>, ConfigFault>
    decreases items.len(),
{
    if items.len() == 0 {
        Ok(Seq::empty())
    } else {
        match rules_of(items.drop_last()) {
            Err(fault) => Err(fault),
            Ok(rules) => match rule_of(items.last()) {
                Err(fault) => Err(fault),
                Ok(rule) => Ok(rules.push(rule)),
            },
        }
    }
}

/// The rules of the section `name` of a document, in the order in which the
/// document lists them.
pub open spec fn section_rules(nodes: Map<Seq<char>, Node>, name: Seq<char>) -> Result<
    Seq<Bracket>,
    ConfigFault,
> {
    if !nodes.contains_key(name) {
        Err(ConfigFault::MissingSection)
    } else if !(nodes[name] is Table && nodes[name]->Table_0.contains_key("rule"@)) {
        Err(ConfigFault::MissingRule)
    } else if !(nodes[name]->Table_0["rule"@] is Array) {
        Err(ConfigFault::RuleNotArray)
    } else {
        rules_of(nodes[name]->Table_0["rule"@]->Array_0)
    }
}

/// What two lists of rules make: the two lists, or the first fault. A list
/// is faulty where it is empty or holds a ratio above one, and the salary's
/// list is looked at first.
pub open spec fn checked_rules(salary: Seq<Bracket>, year_bonus: Seq<Bracket>) -> Result<
    (Seq<Bracket>, Seq<Bracket>),
    ConfigError,
> {
    if salary.len() == 0 {
        Err(ConfigError::Salary(ConfigFault::NoRules))
    } else if !ratios_in_range(salary) {
        Err(ConfigError::Salary(ConfigFault::RatioOutOfRange))
    } else if year_bonus.len() == 0 {
        Err(ConfigError::YearBonus(ConfigFault::NoRules))
    } else if !ratios_in_range(year_bonus) {
        Err(ConfigError::YearBonus(ConfigFault::RatioOutOfRange))
    } else {
        Ok((salary, year_bonus))
    }
}

/// What a document makes: the rules of its two sections, or the first fault.
/// The `salary` section is read, and must be sound, before `year_bonus` is
/// looked at.
pub open spec fn document_rules(nodes: Map<Seq<char>, Node>) -> Result<
    (Seq<Bracket>, Seq<Bracket>),
    ConfigError,
> {
    match section_rules(nodes, "salary"@) {
        Err(fault) => Err(ConfigError::Salary(fault)),
        Ok(salary) => if salary.len() == 0 {
            Err(ConfigError::Salary(ConfigFault::NoRules))
        } else {
            match section_rules(nodes, "year_bonus"@) {
                Err(fault) => Err(ConfigError::YearBonus(fault)),
                Ok(year_bonus) => if year_bonus.len() == 0 {
                    Err(ConfigError::YearBonus(ConfigFault::NoRules))
                } else {
                    Ok((salary, year_bonus))
                },
            }
        },
    }
}

/// `r` is the configuration that `expected` calls for: the same error, or
/// tables that hold exactly the rules of the two lists, a later rule
/// replacing an earlier one with the same bound.
pub open spec fn is_built_from(
    r: Result<TaxConfig, ConfigError>,
    expected: Result<(Seq<Bracket>, Seq<Bracket>), ConfigError>,
) -> bool {
    match expected {
        Ok((salary, year_bonus)) => {
            &&& r is Ok
            &&& well_formed(r->Ok_0@.salary)
            &&& well_formed(r->Ok_0@.year_bonus)
            &&& rule_map(r->Ok_0@.salary) == rule_map(salary)
            &&& rule_map(r->Ok_0@.year_bonus) == rule_map(year_bonus)
        },
        Err(e) => r == Err::<TaxConfig, ConfigError>(e),
    }
}

/// Reads one item of a `rule` array.
fn read_rule(item: &toml::Value) -> (r: Result<Bracket, ConfigFault>)
    ensures
        r == rule_of(value_node(*item)),
        r is Ok ==> r->Ok_0.ratio <= RATIO_ONE,
{
    let bound: i64 = match value_get(item, "bound") {
        Some(v) => match v.as_integer() {
            Some(b) => b,
            None => {
                return Err(ConfigFault::MissingBound);
            },
        },
        None => {
            return Err(ConfigFault::MissingBound);
        },
    };
    let bits: u64 = match value_get(item, "ratio") {
        Some(v) => match value_float_bits(v) {
            Some(b) => b,
            None => {
                return Err(ConfigFault::MissingRatio);
            },
        },
        None => {
            return Err(ConfigFault::MissingRatio);
        },
    };
    match ratio_from_bits(bits) {
        Some(ratio) => Ok(Bracket { bound, ratio }),
        None => Err(ConfigFault::RatioOutOfRange),
    }
}

/// Reads the rules of one section of a document.
fn read_section(tbl: &toml::Table, name: &str) -> (r: Result<Vec<Bracket>, ConfigFault>)
    ensures
        match r {
            Ok(rules) => section_rules(table_nodes(*tbl), name@) == Ok::<Seq<Bracket>, ConfigFault>(
                rules@,
            ) && ratios_in_range(rules@),
            Err(fault) => section_rules(table_nodes(*tbl), name@) == Err::<Seq<Bracket>, ConfigFault>(
                fault,
            ),
        },
{
    let section: &toml::Value = match table_get(tbl, name) {
        Some(v) => v,
        None => {
            return Err(ConfigFault::MissingSection);
        },
    };
    let rule: &toml::Value = match value_get(section, "rule") {
        Some(v) => v,
        None => {
            return Err(ConfigFault::MissingRule);
        },
    };
    let items: &Vec<toml::Value> = match rule.as_array() {
        Some(a) => a,
        None => {
            return Err(ConfigFault::RuleNotArray);
        },
    };
    let ghost nodes = value_node(*rule)->Array_0;
    let mut rules: Vec<Bracket> = Vec::new();
    let mut i: usize = 0;
    while i < items.len()
        invariant
            i <= items@.len(),
            nodes.len() == items@.len(),
            forall|j: int| 0 <= j < items@.len() ==> value_node(#[trigger] items@[j]) == nodes[j],
            rules_of(nodes.take(i as int)) == Ok::<Seq<Bracket>, ConfigFault>(rules@),
            ratios_in_range(rules@),
            section_rules(table_nodes(*tbl), name@) == rules_of(nodes),
        decreases items@.len() - i,
    {
        proof {
            assert(nodes.take(i + 1).drop_last() =~= nodes.take(i as int));
        }
        match read_rule(&items[i]) {
            Ok(b) => {
                rules.push(b);
            },
            Err(fault) => {
                proof {
                    lemma_fault_stays(nodes, i + 1);
                }
                return Err(fault);
            },
        }
        i += 1;
    }
    proof {
        assert(nodes.take(i as int) =~= nodes);
    }
    Ok(rules)
}

/// A fault among the first `n` items is the fault of the whole array.
proof fn lemma_fault_stays(items: Seq<Node>, n: int)
    requires
        0 <= n <= items.len(),
        rules_of(items.take(n)) is Err,
    ensures
        rules_of(items) == rules_of(items.take(n)),
    decreases items.len() - n,
{
    if n < items.len() {
        assert(items.take(n + 1).drop_last() =~= items.take(n));
        lemma_fault_stays(items, n + 1);
    } else {
        assert(items.take(n) =~= items);
    }
}

impl TaxConfig {
    /// A configuration of two tables.
    pub fn new(salary: BracketTable, year_bonus: BracketTable) -> (c: TaxConfig)
        ensures
            c@ == (ConfigView { salary: salary@, year_bonus: year_bonus@ }),
    {
        TaxConfig { salary, year_bonus }
    }

    /// The table for the salary.
    pub fn salary(&self) -> (t: &BracketTable)
        ensures
            t@ == self@.salary,
    {
        &self.salary
    }

    /// The table for the yearly bonus.
    pub fn year_bonus(&self) -> (t: &BracketTable)
        ensures
            t@ == self@.year_bonus,
    {
        &self.year_bonus
    }

    /// Builds a configuration from the rules of the salary and the rules of
    /// the yearly bonus. Either list may be in any order, and a later rule
    /// replaces an earlier one with the same bound. An empty list and a
    /// ratio above one are refused, those of the salary first.
    pub fn from_rules(salary: &Vec<Bracket>, year_bonus: &Vec<Bracket>) -> (r: Result<
        TaxConfig,
        ConfigError,
    >)
        ensures
            is_built_from(r, checked_rules(salary@, year_bonus@)),
    {
        let salary_table: BracketTable = match BracketTable::from_rules(salary) {
            Ok(t) => t,
            Err(fault) => {
                return Err(ConfigError::Salary(fault));
            },
        };
        let bonus_table: BracketTable = match BracketTable::from_rules(year_bonus) {
            Ok(t) => t,
            Err(fault) => {
                return Err(ConfigError::YearBonus(fault));
            },
        };
        Ok(TaxConfig { salary: salary_table, year_bonus: bonus_table })
    }

    /// Reads a configuration from a parsed TOML document.
    pub fn try_from(tbl: toml::Table) -> (r: Result<TaxConfig, ConfigError>)
        ensures
            is_built_from(r, document_rules(table_nodes(tbl))),
    {
        let salary: Vec<Bracket> = match read_section(&tbl, "salary") {
            Ok(rules) => rules,
            Err(fault) => {
                return Err(ConfigError::Salary(fault));
            },
        };
        if salary.len() == 0 {
            return Err(ConfigError::Salary(ConfigFault::NoRules));
        }
        let year_bonus: Vec<Bracket> = match read_section(&tbl, "year_bonus") {
            Ok(rules) => rules,
            Err(fault) => {
                return Err(ConfigError::YearBonus(fault));
            },
        };
        TaxConfig::from_rules(&salary, &year_bonus)
    }

    /// Reads a configuration from the text of a TOML document.
    pub fn from_toml(text: &str) -> (r: Result<TaxConfig, ConfigError>)
        ensures
            match document_nodes(text@) {
                Some(nodes) => is_built_from(r, document_rules(nodes)),
                None => r == Err::<TaxConfig, ConfigError>(ConfigError::Syntax),
            },
    {
        match parse_document(text) {
            Ok(tbl) => TaxConfig::try_from(tbl),
            Err(_) => Err(ConfigError::Syntax),
        }
    }
}

} // verus!
