//! Associations by naming convention: in the base directory, `name.json` is
//! validated against a sibling `name.schema.json`. Subdirectories are not
//! searched.

use vstd::prelude::*;
use crate::assoc::{path_set, with_paths, Associations};
use crate::path::{joined, regularize, regularized, FsPath, PathModel};
use crate::schema::{Schema, SchemaModel};

verus! {

/// `s` ends with `p`.
pub open spec fn ends_with(s: Seq<char>, p: Seq<char>) -> bool {
    p.len() <= s.len() && s.skip(s.len() - p.len()) == p
}

/// The name of the schema that pairs with the file `name`: for a name that
/// ends in `.json` but not in `.schema.json`, the final `.json` replaced by
/// `.schema.json`.
pub open spec fn schema_name(name: Seq<char>) -> Option<Seq<char>> {
    if ends_with(name, ".json"@) && !ends_with(name, ".schema.json"@) {
        Some(name.take(name.len() - ".json"@.len()) + ".schema.json"@)
    } else {
        None
    }
}

/// The entry `name` of the directory `base`.
pub open spec fn entry_path(base: PathModel, name: Seq<char>) -> PathModel {
    joined(base, PathModel { absolute: false, parts: seq![name] })
}

/// An instance and its schema, both as paths under the base directory.
pub struct PairModel {
    pub instance: PathModel,
    pub schema: PathModel,
}

/// The pairs that `names` give, in order, where the directory lists `all`:
/// each name with a schema name that is listed too.
pub open spec fn suffix_pairs(
    base: PathModel,
    names: Seq<Seq<char>>,
    all: Seq<Seq<char>>,
) -> Seq<PairModel>
    decreases names.len(),
{
    if names.len() == 0 {
        Seq::empty()
    } else {
        let rest = suffix_pairs(base, names.drop_last(), all);
        let name = names.last();
        match schema_name(name) {
            Some(s) => if all.contains(s) {
                rest.push(
                    PairModel { instance: entry_path(base, name), schema: entry_path(base, s) },
                )
            } else {
                rest
            },
            None => rest,
        }
    }
}

/// An instance file and the schema file beside it, as paths under the base
/// directory, before they are canonicalized.
#[derive(Debug)]
pub struct SuffixPair {
    pub instance: FsPath,
    pub schema: FsPath,
}

impl View for SuffixPair {
    type V = PairModel;

    open spec fn view(&self) -> PairModel {
        PairModel { instance: self.instance@, schema: self.schema@ }
    }
}

/// `s` ends with `p`.
fn has_suffix(s: &str, p: &str) -> (r: bool)
    ensures
        r == ends_with(s@, p@),
{
    let n = s.unicode_len();
    let m = p.unicode_len();
    if m > n {
        return false;
    }
    let start = n - m;
    let mut i: usize = 0;
    while i < m
        invariant
            n == s@.len(),
            m == p@.len(),
            start == n - m,
            i <= m,
            forall|k: int| 0 <= k < i ==> s@[start + k] == p@[k],
        decreases m - i,
    {
        if s.get_char(start + i) != p.get_char(i) {
            assert(s@.skip(start as int)[i as int] != p@[i as int]);
            return false;
        }
        i = i + 1;
    }
    assert(s@.skip(start as int) =~= p@);
    true
}

/// The name of the schema that pairs with the file `name`: for a name that
/// ends in `.json` but not in `.schema.json`, the final `.json` replaced by
/// `.schema.json`; none for other names.
pub fn schema_name_for(name: &str) -> (r: Option<String>)
    ensures
        r.deep_view() == schema_name(name@),
{
    if has_suffix(name, ".json") && !has_suffix(name, ".schema.json") {
        proof {
            reveal_strlit(".json");
        }
        let n = name.unicode_len();
        let mut s = String::from_str(name.substring_char(0, n - 5));
        s.append(".schema.json");
        assert(s@ =~= name@.take(name@.len() - ".json"@.len()) + ".schema.json"@);
        Some(s)
    } else {
        None
    }
}

/// `name` is among `names`.
fn listed(names: &Vec<String>, name: &String) -> (r: bool)
    ensures
        r == names.deep_view().contains(name@),
{
    let mut i: usize = 0;
    while i < names.len()
        invariant
            i <= names.len(),
            forall|k: int| 0 <= k < i ==> names@[k]@ != name@,
        decreases names.len() - i,
    {
        if names[i] == *name {
            assert(names.deep_view()[i as int] == name@);
            return true;
        }
        i = i + 1;
    }
    proof {
        if names.deep_view().contains(name@) {
            let k = choose|k: int| 0 <= k < names.deep_view().len() && names.deep_view()[k] == name@;
            assert(names@[k]@ == name@);
        }
    }
    false
}

/// The suffix strategy, for one base directory.
#[derive(Debug)]
pub struct Suffix {
    base: FsPath,
}

impl Suffix {
    /// The directory whose entries are paired.
    pub closed spec fn base_path(&self) -> PathModel {
        self.base@
    }

    /// The strategy for the canonical directory `base`.
    pub fn with_base(base: FsPath) -> (r: Suffix)
        ensures
            r.base_path() == base@,
    {
        Suffix { base }
    }

    /// The base directory.
    pub fn base(&self) -> (r: &FsPath)
        ensures
            r@ == self.base_path(),
    {
        &self.base
    }

    /// The entry `name` of the base directory.
    fn entry(&self, name: &String) -> (r: FsPath)
        ensures
            r@ == entry_path(self.base_path(), name@),
    {
        let rel = FsPath { absolute: false, parts: vec![name.clone()] };
        assert(rel@.parts =~= seq![name@]);
        self.base.join(&rel)
    }

    /// The pairs among the entry names of the base directory, in order: each
    /// name that ends in `.json`, but not in `.schema.json`, whose schema name
    /// is listed too.
    pub fn pairs(&self, names: &Vec<String>) -> (r: Vec<SuffixPair>)
        ensures
            r@.map_values(|p: SuffixPair| p@) == suffix_pairs(
                self.base_path(),
                names.deep_view(),
                names.deep_view(),
            ),
    {
        let ghost all = names.deep_view();
        let ghost base = self.base_path();
        let mut found: Vec<SuffixPair> = Vec::new();
        let mut i: usize = 0;
        while i < names.len()
            invariant
                all == names.deep_view(),
                base == self.base_path(),
                i <= names.len(),
                found@.map_values(|p: SuffixPair| p@) == suffix_pairs(
                    base,
                    all.take(i as int),
                    all,
                ),
            decreases names.len() - i,
        {
            let ghost before = found@;
            proof {
                assert(all.take(i + 1).drop_last() =~= all.take(i as int));
                assert(all.take(i + 1).last() == names@[i as int]@);
            }
            match schema_name_for(names[i].as_str()) {
                Some(s) => {
                    if listed(names, &s) {
                        let pair = SuffixPair { instance: self.entry(&names[i]), schema: self.entry(&s) };
                        found.push(pair);
                        assert(found@.map_values(|p: SuffixPair| p@) =~= before.map_values(
                            |p: SuffixPair| p@,
                        ).push(pair@));
                    }
                },
                None => {},
            }
            i = i + 1;
        }
        assert(all.take(names.len() as int) =~= all);
        found
    }

    /// Records that the instance at the canonical path `instance` is
    /// validated against the schema at the canonical path `schema`, both
    /// regularized against the base.
    pub fn record(&self, assoc: &mut Associations, schema: &FsPath, instance: &FsPath)
        ensures
            final(assoc)@ == with_paths(
                old(assoc)@,
                SchemaModel::Local(regularized(self.base_path(), schema@)),
                set![regularized(self.base_path(), instance@)],
            ),
    {
        let key = Schema::Local(regularize(&self.base, schema));
        let one = vec![regularize(&self.base, instance)];
        assert(path_set(one@) =~= set![regularized(self.base_path(), instance@)]) by {
            assert(one@[0]@ == regularized(self.base_path(), instance@));
        }
        assoc.add(key, &one);
    }
}

} // verus!
