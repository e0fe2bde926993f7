//! Layers, the pool of trait candidates that a layer's files give, and the
//! weighted choice of one trait from a pool.

use vstd::prelude::*;
use crate::rules::{
    append_rules, rules_of, rules_view, table_view, trait_rules, Rule, RuleView, TraitRules,
};
use crate::select::{choice_view, listed, may_select, select};
use crate::text::{
    chars_of, find_first, find_last, lemma_first_index, lemma_last_index, slice_of, split_first,
    split_last,
};
use crate::weight::{parse_weight_chars, weight_of};

verus! {

/// The symbol that parts a name from its weight where a layer names none.
pub fn default_percent_symbol() -> (symbol: String)
    ensures
        symbol@ == seq!['#'],
{
    proof {
        reveal_strlit("#");
    }
    let symbol = String::from_str("#");
    assert(symbol@ =~= seq!['#']);
    symbol
}

/// Why a layer gave no trait.
#[derive(Debug, Clone, Copy, PartialEq, Eq, Structural)]
pub enum SelectError {
    /// A name holds the weight symbol, and what follows it writes no weight.
    InvalidWeightSuffix,
    /// No candidate was left to draw from.
    PoolExhausted,
}

/// One category of interchangeable assets.
#[derive(Debug, Clone, PartialEq, Eq)]
pub struct Layer {
    /// The directory of the layer's files; it also names the layer in rules.
    pub source_directory: String,
    /// The category that the layer's traits are listed under.
    pub trait_name: String,
    /// What parts a name from its weight in the names of files and directories.
    pub percent_symbol: String,
    pub background_color: Option<String>,
    pub animation_url: Option<String>,
    pub youtube_url: Option<String>,
    /// By trait value of this layer: values that other layers may then not take.
    pub conflicts: Option<Vec<TraitRules>>,
    /// By trait value of this layer: values that other layers are then held to.
    pub forces: Option<Vec<TraitRules>>,
}

/// One candidate of a layer's pool; once drawn, a trait of the item.
#[derive(Debug, Clone, PartialEq, Eq)]
pub struct LayerTrait {
    /// Where the asset lies.
    pub path: String,
    /// The category, taken from the layer.
    pub name: String,
    /// The value, taken from the file's name.
    pub value: String,
    /// The weight that the file's name writes, in millionths.
    pub percent: u64,
    /// The weight of the nearest weighted directory above the file, in
    /// millionths. Where there is one, it is the weight that counts.
    pub nested_percent: Option<u64>,
    /// Values that other layers may not take beside this trait.
    pub conflicts: Vec<Rule>,
    /// Values that other layers are held to beside this trait.
    pub forces: Vec<Rule>,
}

pub struct LayerTraitView {
    pub path: Seq<char>,
    pub name: Seq<char>,
    pub value: Seq<char>,
    pub percent: u64,
    pub nested_percent: Option<u64>,
    pub conflicts: Seq<RuleView>,
    pub forces: Seq<RuleView>,
}

impl LayerTraitView {
    /// The weight that counts in a draw.
    pub open spec fn weight(self) -> u64 {
        match self.nested_percent {
            Some(nested) => nested,
            None => self.percent,
        }
    }
}

impl View for LayerTrait {
    type V = LayerTraitView;

    open spec fn view(&self) -> LayerTraitView {
        LayerTraitView {
            path: self.path@,
            name: self.name@,
            value: self.value@,
            percent: self.percent,
            nested_percent: self.nested_percent,
            conflicts: rules_view(self.conflicts@),
            forces: rules_view(self.forces@),
        }
    }
}

pub open spec fn traits_view(traits: Seq<LayerTrait>) -> Seq<LayerTraitView> {
    Seq::new(traits.len(), |i: int| traits[i]@)
}

impl LayerTrait {
    pub fn new(
        path: String,
        name: String,
        value: String,
        percent: u64,
        nested_percent: Option<u64>,
        conflicts: Vec<Rule>,
        forces: Vec<Rule>,
    ) -> (made: LayerTrait)
        ensures
            made.path == path,
            made.name == name,
            made.value == value,
            made.percent == percent,
            made.nested_percent == nested_percent,
            made.conflicts == conflicts,
            made.forces == forces,
    {
        LayerTrait { path, name, value, percent, nested_percent, conflicts, forces }
    }

    /// A copy of the trait.
    pub fn copy(&self) -> (copy: LayerTrait)
        ensures
            copy@ == self@,
    {
        let mut conflicts: Vec<Rule> = Vec::new();
        let mut forces: Vec<Rule> = Vec::new();
        append_rules(&mut conflicts, &self.conflicts);
        append_rules(&mut forces, &self.forces);
        let copy = LayerTrait {
            path: self.path.clone(),
            name: self.name.clone(),
            value: self.value.clone(),
            percent: self.percent,
            nested_percent: self.nested_percent,
            conflicts,
            forces,
        };
        assert(copy@.conflicts =~= self@.conflicts);
        assert(copy@.forces =~= self@.forces);
        copy
    }

    /// The weight that counts in a draw.
    pub fn weight(&self) -> (weight: u64)
        ensures
            weight == self@.weight(),
    {
        match self.nested_percent {
            Some(nested) => nested,
            None => self.percent,
        }
    }
}

/// What was found in a layer's directory, or in a directory below it.
#[derive(Debug)]
pub enum PoolEntry {
    /// A file, with its name and where it lies.
    File { name: String, path: String },
    /// A directory, with its name, where it lies, and what it holds.
    Directory { name: String, path: String, entries: Vec<PoolEntry> },
    /// An entry that could not be read.
    Unreadable,
}

/// What the name of a directory says: the weight of all that lies in it,
/// where it is to be entered at all.
///
/// A name without the symbol says nothing, and neither does a weight that is
/// not above zero: such a directory is passed over. What follows the last
/// symbol must write a weight.
pub open spec fn directory_weight(symbol: Seq<char>, name: Seq<char>) -> Result<
    Option<u64>,
    SelectError,
> {
    match split_last(name, symbol) {
        None => Ok(None),
        Some(parts) => match weight_of(parts.1) {
            None => Err(SelectError::InvalidWeightSuffix),
            Some(weight) => if weight > 0 {
                Ok(Some(weight as u64))
            } else {
                Ok(None)
            },
        },
    }
}

/// What the name of a file says: a trait value and its weight.
///
/// The value is what stands before the first symbol. The weight is what
/// stands behind it, up to the last point. A name without the symbol, or
/// without a point behind it, says nothing, and neither does a weight that is
/// not above zero: such a file is passed over. What stands between symbol and
/// point must write a weight.
pub open spec fn file_reading(symbol: Seq<char>, name: Seq<char>) -> Result<
    Option<(Seq<char>, u64)>,
    SelectError,
> {
    match split_first(name, symbol) {
        None => Ok(None),
        Some(parts) => match split_last(parts.1, seq!['.']) {
            None => Ok(None),
            Some(rate) => match weight_of(rate.0) {
                None => Err(SelectError::InvalidWeightSuffix),
                Some(weight) => if weight > 0 {
                    Ok(Some((parts.0, weight as u64)))
                } else {
                    Ok(None)
                },
            },
        },
    }
}

/// The candidate that a file gives.
pub open spec fn file_trait(
    layer: Layer,
    name: Seq<char>,
    path: Seq<char>,
    nested: Option<u64>,
) -> Result<Option<LayerTraitView>, SelectError> {
    match file_reading(layer.percent_symbol@, name) {
        Err(e) => Err(e),
        Ok(None) => Ok(None),
        Ok(Some(reading)) => Ok(
            Some(
                LayerTraitView {
                    path: path,
                    name: layer.trait_name@,
                    value: reading.0,
                    percent: reading.1,
                    nested_percent: nested,
                    conflicts: rules_of(table_view(layer.conflicts), reading.0),
                    forces: rules_of(table_view(layer.forces), reading.0),
                },
            ),
        ),
    }
}

/// The candidates that one entry gives, under the weight `nested` of the
/// directory it lies in.
pub open spec fn scan_entry(layer: Layer, entry: PoolEntry, nested: Option<u64>) -> Result<
    Seq<LayerTraitView>,
    SelectError,
>
    decreases entry,
{
    match entry {
        PoolEntry::Unreadable => Ok(Seq::empty()),
        PoolEntry::File { name, path } => match file_trait(layer, name@, path@, nested) {
            Err(e) => Err(e),
            Ok(None) => Ok(Seq::empty()),
            Ok(Some(candidate)) => Ok(seq![candidate]),
        },
        PoolEntry::Directory { name, path, entries } => match directory_weight(
            layer.percent_symbol@,
            name@,
        ) {
            Err(e) => Err(e),
            Ok(None) => Ok(Seq::empty()),
            Ok(Some(weight)) => scan_entries(layer, entries@, Some(weight)),
        },
    }
}

/// The candidates that a list of entries gives, in the order of the entries:
/// the pool. One unreadable weight anywhere in it, outside the directories
/// that are passed over, and there is no pool.
pub open spec fn scan_entries(layer: Layer, entries: Seq<PoolEntry>, nested: Option<u64>) -> Result<
    Seq<LayerTraitView>,
    SelectError,
>
    decreases entries,
{
    if entries.len() == 0 {
        Ok(Seq::empty())
    } else {
        match scan_entries(layer, entries.drop_last(), nested) {
            Err(e) => Err(e),
            Ok(found) => match scan_entry(layer, entries.last(), nested) {
                Err(e) => Err(e),
                Ok(more) => Ok(found + more),
            },
        }
    }
}

/// What a reading of a file holds.
pub open spec fn candidate_view(found: Result<Option<LayerTrait>, SelectError>) -> Result<
    Option<LayerTraitView>,
    SelectError,
> {
    match found {
        Ok(Some(candidate)) => Ok(Some(candidate@)),
        Ok(None) => Ok(None),
        Err(e) => Err(e),
    }
}

/// What a scan holds.
pub open spec fn pool_view(found: Result<Vec<LayerTrait>, SelectError>) -> Result<
    Seq<LayerTraitView>,
    SelectError,
> {
    match found {
        Ok(pool) => Ok(traits_view(pool@)),
        Err(e) => Err(e),
    }
}

/// The pool of the first `i + 1` entries is that of the first `i`, followed by
/// what the entry at `i` gives.
pub proof fn lemma_scan_step(layer: Layer, entries: Seq<PoolEntry>, nested: Option<u64>, i: int)
    requires
        0 <= i < entries.len(),
    ensures
        scan_entries(layer, entries.take(i + 1), nested) == match scan_entries(
            layer,
            entries.take(i),
            nested,
        ) {
            Err(e) => Err(e),
            Ok(found) => match scan_entry(layer, entries[i], nested) {
                Err(e) => Err(e),
                Ok(more) => Ok(found + more),
            },
        },
{
    assert(entries.take(i + 1).drop_last() =~= entries.take(i));
    assert(entries.take(i + 1).last() == entries[i]);
}

/// Entries whose beginning gives no pool give none.
pub proof fn lemma_scan_fails_early(
    layer: Layer,
    entries: Seq<PoolEntry>,
    nested: Option<u64>,
    k: int,
)
    requires
        0 <= k <= entries.len(),
        scan_entries(layer, entries.take(k), nested) is Err,
    ensures
        scan_entries(layer, entries, nested) == scan_entries(layer, entries.take(k), nested),
    decreases entries.len(),
{
    if k == entries.len() {
        assert(entries.take(k) =~= entries);
    } else {
        assert(entries.drop_last().take(k) =~= entries.take(k));
        lemma_scan_fails_early(layer, entries.drop_last(), nested, k);
    }
}

/// What a choice from the entries of a layer may give: without a pool, the
/// reason why there is none; with one, what a draw from it may give.
pub open spec fn may_choose(
    layer: Layer,
    entries: Seq<PoolEntry>,
    nested: Option<u64>,
    exclude: Option<Seq<Seq<char>>>,
    require: Option<Seq<Seq<char>>>,
    outcome: Result<LayerTraitView, SelectError>,
) -> bool {
    match scan_entries(layer, entries, nested) {
        Err(e) => outcome == Err::<LayerTraitView, SelectError>(e),
        Ok(pool) => may_select(pool, exclude, require, outcome),
    }
}

impl Layer {
    /// What the name of a directory says: the weight of all that lies in it,
    /// where it is to be entered at all.
    pub fn directory_weight(&self, name: &String) -> (weight: Result<Option<u64>, SelectError>)
        ensures
            weight == directory_weight(self.percent_symbol@, name@),
    {
        let text: Vec<char> = chars_of(name.as_str());
        let symbol: Vec<char> = chars_of(self.percent_symbol.as_str());
        match find_last(&text, &symbol) {
            None => Ok(None),
            Some(at) => {
                proof {
                    lemma_last_index(text@, symbol@, text@.len() - symbol@.len());
                }
                let n: usize = text.len();
                let m: usize = symbol.len();
                assert(at + m <= n);
                let suffix: Vec<char> = slice_of(&text, at + m, n);
                assert(suffix@ =~= text@.skip(at + symbol@.len()));
                match parse_weight_chars(&suffix) {
                    None => Err(SelectError::InvalidWeightSuffix),
                    Some(weight) => if weight > 0 {
                        Ok(Some(weight as u64))
                    } else {
                        Ok(None)
                    },
                }
            },
        }
    }

    /// The candidate that the file `name` at `path` gives, under the weight
    /// `nested` of the directory it lies in.
    pub fn read_file(&self, name: &String, path: &String, nested: Option<u64>) -> (found: Result<
        Option<LayerTrait>,
        SelectError,
    >)
        ensures
            candidate_view(found) == file_trait(*self, name@, path@, nested),
    {
        let text: Vec<char> = chars_of(name.as_str());
        let symbol: Vec<char> = chars_of(self.percent_symbol.as_str());
        let at: usize = match find_first(&text, &symbol) {
            None => {
                return Ok(None);
            },
            Some(at) => at,
        };
        proof {
            lemma_first_index(text@, symbol@, 0);
        }
        let n: usize = text.len();
        let m: usize = symbol.len();
        assert(at + m <= n);
        let rest: Vec<char> = slice_of(&text, at + m, n);
        assert(rest@ =~= text@.skip(at + symbol@.len()));
        let mut point: Vec<char> = Vec::new();
        point.push('.');
        assert(point@ =~= seq!['.']);
        let dot: usize = match find_last(&rest, &point) {
            None => {
                return Ok(None);
            },
            Some(dot) => dot,
        };
        proof {
            lemma_last_index(rest@, point@, rest@.len() - point@.len());
        }
        let rate: Vec<char> = slice_of(&rest, 0, dot);
        assert(rate@ =~= rest@.take(dot as int));
        let weight: i64 = match parse_weight_chars(&rate) {
            None => {
                return Err(SelectError::InvalidWeightSuffix);
            },
            Some(weight) => weight,
        };
        if weight <= 0 {
            return Ok(None);
        }
        let value: String = String::from_str(name.as_str().substring_char(0, at));
        assert(value@ =~= text@.take(at as int));
        let conflicts: Vec<Rule> = trait_rules(&self.conflicts, &value);
        let forces: Vec<Rule> = trait_rules(&self.forces, &value);
        Ok(
            Some(
                LayerTrait::new(
                    path.clone(),
                    self.trait_name.clone(),
                    value,
                    weight as u64,
                    nested,
                    conflicts,
                    forces,
                ),
            ),
        )
    }

    /// The pool of a layer: the candidates that `entries` give, in their
    /// order, each under the weight of the nearest weighted directory above it
    /// (`nested` for those that lie in none of `entries`).
    ///
    /// Entries that cannot be read or whose names say nothing are passed over,
    /// and so is a directory whose weight is not above zero, with all that
    /// lies in it. An unreadable weight in a name ends the scan.
    pub fn scan(&self, entries: &Vec<PoolEntry>, nested: Option<u64>) -> (found: Result<
        Vec<LayerTrait>,
        SelectError,
    >)
        ensures
            pool_view(found) == scan_entries(*self, entries@, nested),
        decreases entries,
    {
        let mut pool: Vec<LayerTrait> = Vec::new();
        let mut i: usize = 0;
        assert(traits_view(pool@) =~= Seq::empty());
        assert(entries@.take(0) =~= Seq::empty());
        while i < entries.len()
            invariant
                i <= entries@.len(),
                scan_entries(*self, entries@.take(i as int), nested) == pool_view(Ok(pool)),
            decreases entries@.len() - i,
        {
            let ghost before = traits_view(pool@);
            let ghost step = scan_entry(*self, entries@[i as int], nested);
            proof {
                lemma_scan_step(*self, entries@, nested, i as int);
            }
            match &entries[i] {
                PoolEntry::Unreadable => {
                    assert(step matches Ok(more) && more =~= Seq::empty());
                    assert(before + Seq::<LayerTraitView>::empty() =~= before);
                },
                PoolEntry::File { name, path } => {
                    match self.read_file(name, path, nested) {
                        Err(e) => {
                            proof {
                                lemma_scan_fails_early(*self, entries@, nested, i + 1);
                            }
                            return Err(e);
                        },
                        Ok(None) => {
                            assert(before + Seq::<LayerTraitView>::empty() =~= before);
                        },
                        Ok(Some(candidate)) => {
                            pool.push(candidate);
                            assert(traits_view(pool@) =~= before + seq![candidate@]);
                        },
                    }
                },
                PoolEntry::Directory { name, path, entries: inner } => {
                    match self.directory_weight(name) {
                        Err(e) => {
                            proof {
                                lemma_scan_fails_early(*self, entries@, nested, i + 1);
                            }
                            return Err(e);
                        },
                        Ok(None) => {
                            assert(before + Seq::<LayerTraitView>::empty() =~= before);
                        },
                        Ok(Some(weight)) => {
                            match self.scan(inner, Some(weight)) {
                                Err(e) => {
                                    proof {
                                        lemma_scan_fails_early(*self, entries@, nested, i + 1);
                                    }
                                    return Err(e);
                                },
                                Ok(mut more) => {
                                    let ghost added = traits_view(more@);
                                    pool.append(&mut more);
                                    assert(traits_view(pool@) =~= before + added);
                                },
                            }
                        },
                    }
                },
            }
            i += 1;
        }
        assert(entries@.take(i as int) =~= entries@);
        Ok(pool)
    }
    /// Chooses one trait of the layer from what its directory holds: scans
    /// `entries` for the pool, then draws from it, with `conflicts` as the
    /// values shut out and `forces` as the values required.
    pub fn choose_trait(
        &self,
        entries: &Vec<PoolEntry>,
        nested_percent: Option<u64>,
        conflicts: Option<&Vec<String>>,
        forces: Option<&Vec<String>>,
    ) -> (chosen: Result<LayerTrait, SelectError>)
        ensures
            may_choose(
                *self,
                entries@,
                nested_percent,
                listed(conflicts),
                listed(forces),
                choice_view(chosen),
            ),
    {
        match self.scan(entries, nested_percent) {
            Err(e) => Err(e),
            Ok(pool) => select(pool, conflicts, forces),
        }
    }
}

} // verus!
