//! Conflict and force rules between layers, and the constraints that the
//! traits chosen so far lay on the layers still to come.
//!
//! A rule names another layer by its source and lists trait values of that
//! layer. Tables of rules are plain lists: a source or a value may stand in
//! several entries, and then the entries count together.

use vstd::prelude::*;

verus! {

/// Trait values of the layer `source`.
#[derive(Debug, Clone, PartialEq, Eq)]
pub struct Rule {
    pub source: String,
    pub values: Vec<String>,
}

/// The rules that hold once a layer has picked the trait value `value`.
#[derive(Debug, Clone, PartialEq, Eq)]
pub struct TraitRules {
    pub value: String,
    pub rules: Vec<Rule>,
}

pub struct RuleView {
    pub source: Seq<char>,
    pub values: Seq<Seq<char>>,
}

pub struct TraitRulesView {
    pub value: Seq<char>,
    pub rules: Seq<RuleView>,
}

pub open spec fn strings_view(strings: Seq<String>) -> Seq<Seq<char>> {
    Seq::new(strings.len(), |i: int| strings[i]@)
}

pub open spec fn rules_view(rules: Seq<Rule>) -> Seq<RuleView> {
    Seq::new(rules.len(), |i: int| rules[i]@)
}

pub open spec fn table_view(table: Option<Vec<TraitRules>>) -> Seq<TraitRulesView> {
    match table {
        Some(entries) => Seq::new(entries@.len(), |i: int| entries@[i]@),
        None => Seq::empty(),
    }
}

impl View for Rule {
    type V = RuleView;

    open spec fn view(&self) -> RuleView {
        RuleView { source: self.source@, values: strings_view(self.values@) }
    }
}

impl View for TraitRules {
    type V = TraitRulesView;

    open spec fn view(&self) -> TraitRulesView {
        TraitRulesView { value: self.value@, rules: rules_view(self.rules@) }
    }
}

/// Whether some rule of `rules` names the layer `source`.
pub open spec fn names_source(rules: Seq<RuleView>, source: Seq<char>) -> bool {
    exists|i: int| 0 <= i < rules.len() && (#[trigger] rules[i]).source == source
}

/// The values that the rules of `rules` naming `source` list, in their order.
pub open spec fn gathered(rules: Seq<RuleView>, source: Seq<char>) -> Seq<Seq<char>>
    decreases rules.len(),
{
    if rules.len() == 0 {
        Seq::empty()
    } else if rules.last().source == source {
        gathered(rules.drop_last(), source) + rules.last().values
    } else {
        gathered(rules.drop_last(), source)
    }
}

/// What `rules` says of the layer `source`: nothing, or a list of its values.
pub open spec fn lookup(rules: Seq<RuleView>, source: Seq<char>) -> Option<Seq<Seq<char>>> {
    if names_source(rules, source) {
        Some(gathered(rules, source))
    } else {
        None
    }
}

/// The rules that `table` gives for the trait value `value`, in their order.
pub open spec fn rules_of(table: Seq<TraitRulesView>, value: Seq<char>) -> Seq<RuleView>
    decreases table.len(),
{
    if table.len() == 0 {
        Seq::empty()
    } else if table.last().value == value {
        rules_of(table.drop_last(), value) + table.last().rules
    } else {
        rules_of(table.drop_last(), value)
    }
}

/// A value is gathered for a source exactly if some rule that names the
/// source lists it.
pub proof fn lemma_gathered_contains(rules: Seq<RuleView>, source: Seq<char>, value: Seq<char>)
    ensures
        gathered(rules, source).contains(value) <==> exists|i: int|
            0 <= i < rules.len() && (#[trigger] rules[i]).source == source
                && rules[i].values.contains(value),
    decreases rules.len(),
{
    if rules.len() > 0 {
        let before = rules.drop_last();
        lemma_gathered_contains(before, source, value);
        let all = gathered(rules, source);
        if all.contains(value) {
            let k = choose|k: int| 0 <= k < all.len() && all[k] == value;
            if rules.last().source == source && k >= gathered(before, source).len() {
                assert(rules.last().values[k - gathered(before, source).len()] == value);
                assert(rules[rules.len() - 1].values.contains(value));
            } else {
                assert(gathered(before, source)[k] == value);
                let i = choose|i: int|
                    0 <= i < before.len() && (#[trigger] before[i]).source == source
                        && before[i].values.contains(value);
                assert(rules[i] == before[i]);
            }
        }
        if exists|i: int|
            0 <= i < rules.len() && (#[trigger] rules[i]).source == source
                && rules[i].values.contains(value) {
            let i = choose|i: int|
                0 <= i < rules.len() && (#[trigger] rules[i]).source == source
                    && rules[i].values.contains(value);
            if i == rules.len() - 1 {
                let j = choose|j: int|
                    0 <= j < rules[i].values.len() && rules[i].values[j] == value;
                assert(all[gathered(before, source).len() + j] == value);
            } else {
                assert(before[i] == rules[i]);
                let k = choose|k: int|
                    0 <= k < gathered(before, source).len() && gathered(before, source)[k]
                        == value;
                assert(all[k] == value);
            }
        }
    }
}

/// Rules put one after the other: a source is named if either names it, and
/// its values are those of the first followed by those of the second.
pub proof fn lemma_rules_joined(first: Seq<RuleView>, second: Seq<RuleView>, source: Seq<char>)
    ensures
        names_source(first + second, source) <==> names_source(first, source) || names_source(
            second,
            source,
        ),
        gathered(first + second, source) == gathered(first, source) + gathered(second, source),
    decreases second.len(),
{
    let both = first + second;
    if names_source(first, source) {
        let i = choose|i: int| 0 <= i < first.len() && (#[trigger] first[i]).source == source;
        assert(both[i] == first[i]);
    }
    if names_source(second, source) {
        let i = choose|i: int| 0 <= i < second.len() && (#[trigger] second[i]).source == source;
        assert(both[first.len() + i] == second[i]);
    }
    if names_source(both, source) {
        let i = choose|i: int| 0 <= i < both.len() && (#[trigger] both[i]).source == source;
        if i < first.len() {
            assert(first[i] == both[i]);
        } else {
            assert(second[i - first.len()] == both[i]);
        }
    }
    if second.len() == 0 {
        assert(both =~= first);
        assert(gathered(first, source) + gathered(second, source) =~= gathered(first, source));
    } else {
        lemma_rules_joined(first, second.drop_last(), source);
        assert(both.drop_last() =~= first + second.drop_last());
        assert(both.last() == second.last());
        if second.last().source == source {
            assert(gathered(both, source) =~= gathered(first, source) + gathered(second, source));
        }
    }
}

/// A copy of `strings`.
pub fn clone_strings(strings: &Vec<String>) -> (copy: Vec<String>)
    ensures
        strings_view(copy@) == strings_view(strings@),
{
    let mut copy: Vec<String> = Vec::new();
    let mut i: usize = 0;
    while i < strings.len()
        invariant
            i <= strings@.len(),
            copy@.len() == i,
            forall|j: int| 0 <= j < i ==> copy@[j]@ == strings@[j]@,
        decreases strings@.len() - i,
    {
        copy.push(strings[i].clone());
        i += 1;
    }
    assert(strings_view(copy@) =~= strings_view(strings@));
    copy
}

/// A copy of `rule`.
pub fn clone_rule(rule: &Rule) -> (copy: Rule)
    ensures
        copy@ == rule@,
{
    Rule { source: rule.source.clone(), values: clone_strings(&rule.values) }
}

/// Puts copies of `more` behind the rules of `rules`.
pub fn append_rules(rules: &mut Vec<Rule>, more: &Vec<Rule>)
    ensures
        rules_view(final(rules)@) == rules_view(old(rules)@) + rules_view(more@),
{
    let mut i: usize = 0;
    while i < more.len()
        invariant
            i <= more@.len(),
            rules_view(rules@) == rules_view(old(rules)@) + rules_view(more@).take(i as int),
        decreases more@.len() - i,
    {
        let ghost before = rules_view(rules@);
        rules.push(clone_rule(&more[i]));
        assert(rules_view(rules@) =~= before.push(more@[i as int]@));
        assert(rules_view(more@).take(i + 1) =~= rules_view(more@).take(i as int).push(
            more@[i as int]@,
        ));
        assert(rules_view(rules@) =~= rules_view(old(rules)@) + rules_view(more@).take(i + 1));
        i += 1;
    }
    assert(rules_view(more@).take(i as int) =~= rules_view(more@));
}

/// The rules that `table` gives for the trait value `value`.
pub fn trait_rules(table: &Option<Vec<TraitRules>>, value: &String) -> (rules: Vec<Rule>)
    ensures
        rules_view(rules@) == rules_of(table_view(*table), value@),
{
    let mut rules: Vec<Rule> = Vec::new();
    match table {
        Some(entries) => {
            let ghost all = table_view(*table);
            let mut i: usize = 0;
            assert(rules_view(rules@) =~= rules_of(all.take(0), value@));
            while i < entries.len()
                invariant
                    i <= entries@.len(),
                    all == table_view(*table),
                    *table == Some(*entries),
                    rules_view(rules@) == rules_of(all.take(i as int), value@),
                decreases entries@.len() - i,
            {
                assert(all.take(i + 1).drop_last() =~= all.take(i as int));
                assert(all.take(i + 1).last() == entries@[i as int]@);
                if entries[i].value == *value {
                    append_rules(&mut rules, &entries[i].rules);
                }
                i += 1;
            }
            assert(all.take(i as int) =~= all);
        },
        None => {
            assert(rules_view(rules@) =~= Seq::<RuleView>::empty());
        },
    }
    rules
}

/// What `rules` says of the layer `source`: nothing, or a list of its values.
pub fn find_values(rules: &Vec<Rule>, source: &String) -> (found: Option<Vec<String>>)
    ensures
        match found {
            Some(values) => lookup(rules_view(rules@), source@) == Some(strings_view(values@)),
            None => lookup(rules_view(rules@), source@) is None,
        },
{
    let ghost all = rules_view(rules@);
    let mut values: Vec<String> = Vec::new();
    let mut named: bool = false;
    let mut i: usize = 0;
    assert(strings_view(values@) =~= gathered(all.take(0), source@));
    while i < rules.len()
        invariant
            i <= rules@.len(),
            all == rules_view(rules@),
            named == names_source(all.take(i as int), source@),
            strings_view(values@) == gathered(all.take(i as int), source@),
        decreases rules@.len() - i,
    {
        let ghost seen = all.take(i as int);
        let ghost next = all.take(i + 1);
        assert(next.drop_last() =~= seen);
        assert(next.last() == rules@[i as int]@);
        if rules[i].source == *source {
            let mut copy: Vec<String> = clone_strings(&rules[i].values);
            let ghost before = strings_view(values@);
            let ghost added = strings_view(copy@);
            values.append(&mut copy);
            assert(strings_view(values@) =~= before + added);
            named = true;
            assert(next[i as int].source == source@);
        } else {
            proof {
                if names_source(next, source@) {
                    let k = choose|k: int|
                        0 <= k < next.len() && (#[trigger] next[k]).source == source@;
                    assert(seen[k] == next[k]);
                }
                if names_source(seen, source@) {
                    let k = choose|k: int|
                        0 <= k < seen.len() && (#[trigger] seen[k]).source == source@;
                    assert(seen[k] == next[k]);
                }
            }
        }
        i += 1;
    }
    assert(all.take(i as int) =~= all);
    if named {
        Some(values)
    } else {
        None
    }
}

/// The constraints that the traits chosen so far lay on the layers still to
/// come: values shut out of a layer, and values that a layer is held to.
#[derive(Debug, Clone, PartialEq, Eq)]
pub struct Constraints {
    pub excluded: Vec<Rule>,
    pub required: Vec<Rule>,
}

pub struct ConstraintsView {
    pub excluded: Seq<RuleView>,
    pub required: Seq<RuleView>,
}

impl View for Constraints {
    type V = ConstraintsView;

    open spec fn view(&self) -> ConstraintsView {
        ConstraintsView {
            excluded: rules_view(self.excluded@),
            required: rules_view(self.required@),
        }
    }
}

impl ConstraintsView {
    /// No constraint on any layer.
    pub open spec fn empty() -> ConstraintsView {
        ConstraintsView { excluded: Seq::empty(), required: Seq::empty() }
    }

    /// These constraints and, with them, the given conflicts and forces.
    pub open spec fn with(self, conflicts: Seq<RuleView>, forces: Seq<RuleView>) -> ConstraintsView {
        ConstraintsView {
            excluded: self.excluded + conflicts,
            required: self.required + forces,
        }
    }

    /// The values shut out of the layer `source`, if any rule names it.
    pub open spec fn excluded_for(self, source: Seq<char>) -> Option<Seq<Seq<char>>> {
        lookup(self.excluded, source)
    }

    /// The values that the layer `source` is held to, if any rule names it.
    pub open spec fn required_for(self, source: Seq<char>) -> Option<Seq<Seq<char>>> {
        lookup(self.required, source)
    }
}

impl Constraints {
    /// No constraint on any layer.
    pub fn new() -> (fresh: Constraints)
        ensures
            fresh@ == ConstraintsView::empty(),
    {
        let fresh = Constraints { excluded: Vec::new(), required: Vec::new() };
        assert(fresh@.excluded =~= Seq::empty());
        assert(fresh@.required =~= Seq::empty());
        fresh
    }

    /// The values shut out of the layer `source`, if any rule names it.
    pub fn excluded_for(&self, source: &String) -> (found: Option<Vec<String>>)
        ensures
            match found {
                Some(values) => self@.excluded_for(source@) == Some(strings_view(values@)),
                None => self@.excluded_for(source@) is None,
            },
    {
        find_values(&self.excluded, source)
    }

    /// The values that the layer `source` is held to, if any rule names it.
    pub fn required_for(&self, source: &String) -> (found: Option<Vec<String>>)
        ensures
            match found {
                Some(values) => self@.required_for(source@) == Some(strings_view(values@)),
                None => self@.required_for(source@) is None,
            },
    {
        find_values(&self.required, source)
    }

    /// Takes in the rules of a chosen trait: its conflicts join the values shut
    /// out, its forces join the values required.
    pub fn merge(&mut self, conflicts: &Vec<Rule>, forces: &Vec<Rule>)
        ensures
            final(self)@ == old(self)@.with(rules_view(conflicts@), rules_view(forces@)),
    {
        append_rules(&mut self.excluded, conflicts);
        append_rules(&mut self.required, forces);
    }
}

} // verus!
