//! The association mapping: from schema reference to the set of instance
//! paths that are validated against it.

use vstd::prelude::*;
use crate::path::{parse_path, regularize, regularized, FsPath, PathModel};
use crate::schema::{Schema, SchemaModel};

verus! {

/// One schema reference and the instances found for it.
#[derive(Debug)]
pub struct Association {
    pub schema: Schema,
    pub instances: Vec<FsPath>,
}

/// The paths that a sequence of paths names, as a set.
pub open spec fn path_set(ps: Seq<FsPath>) -> Set<PathModel> {
    Set::new(|p: PathModel| exists|j: int| 0 <= j < ps.len() && #[trigger] ps[j]@ == p)
}

/// The paths `found`, each regularized against `base`.
pub open spec fn regularized_set(base: PathModel, found: Seq<FsPath>) -> Set<PathModel> {
    Set::new(
        |p: PathModel|
            exists|j: int| 0 <= j < found.len() && regularized(base, #[trigger] found[j]@) == p,
    )
}

/// Each path of `found` regularized against `base`.
pub fn regularize_all(base: &FsPath, found: &Vec<FsPath>) -> (r: Vec<FsPath>)
    ensures
        path_set(r@) == regularized_set(base@, found@),
{
    let mut out: Vec<FsPath> = Vec::new();
    let mut i: usize = 0;
    while i < found.len()
        invariant
            i <= found.len(),
            out@.len() == i,
            forall|j: int| 0 <= j < i ==> #[trigger] out@[j]@ == regularized(base@, found@[j]@),
        decreases found.len() - i,
    {
        out.push(regularize(base, &found[i]));
        i = i + 1;
    }
    assert forall|p: PathModel| #[trigger] path_set(out@).contains(p) implies regularized_set(
        base@,
        found@,
    ).contains(p) by {
        let j = choose|j: int| 0 <= j < out@.len() && #[trigger] out@[j]@ == p;
        assert(regularized(base@, found@[j]@) == p);
    }
    assert forall|p: PathModel| #[trigger] regularized_set(base@, found@).contains(p) implies path_set(
        out@,
    ).contains(p) by {
        let j = choose|j: int| 0 <= j < found@.len() && regularized(base@, #[trigger] found@[j]@) == p;
        assert(out@[j]@ == p);
    }
    assert(path_set(out@) =~= regularized_set(base@, found@));
    out
}

/// The paths that the texts `paths` name, each once.
pub fn hashset_of_pathbuf(paths: &[&str]) -> (r: Vec<FsPath>)
    ensures
        distinct_paths(r@),
        path_set(r@) == Set::new(
            |p: PathModel| exists|i: int| 0 <= i < paths@.len() && parse_path(#[trigger] paths@[i]@) == p,
        ),
{
    let mut out: Vec<FsPath> = Vec::new();
    let mut i: usize = 0;
    while i < paths.len()
        invariant
            i <= paths@.len(),
            distinct_paths(out@),
            path_set(out@) == Set::new(
                |p: PathModel| exists|k: int| 0 <= k < i && parse_path(#[trigger] paths@[k]@) == p,
            ),
        decreases paths@.len() - i,
    {
        let p = FsPath::parse(paths[i]);
        add_path(&mut out, &p);
        assert(path_set(out@) =~= Set::new(
            |q: PathModel| exists|k: int| 0 <= k < i + 1 && parse_path(#[trigger] paths@[k]@) == q,
        )) by {
            assert(paths@[i as int]@ == paths[i as int]@);
        }
        i = i + 1;
    }
    out
}

/// No path is named twice.
pub open spec fn distinct_paths(ps: Seq<FsPath>) -> bool {
    forall|a: int, b: int| 0 <= a < b < ps.len() ==> #[trigger] ps[a]@ != #[trigger] ps[b]@
}

/// No schema reference heads two entries, and no entry names a path twice.
pub open spec fn distinct_entries(e: Seq<Association>) -> bool {
    &&& forall|i: int, j: int|
        0 <= i < j < e.len() ==> #[trigger] e[i].schema@ != #[trigger] e[j].schema@
    &&& forall|i: int| 0 <= i < e.len() ==> distinct_paths(#[trigger] e[i].instances@)
}

/// Some entry is headed by `k`.
pub open spec fn has_schema(e: Seq<Association>, k: SchemaModel) -> bool {
    exists|i: int| 0 <= i < e.len() && #[trigger] e[i].schema@ == k
}

/// The mapping that a list of entries stands for.
pub open spec fn entries_view(e: Seq<Association>) -> Map<SchemaModel, Set<PathModel>> {
    Map::new(
        |k: SchemaModel| has_schema(e, k),
        |k: SchemaModel|
            Set::new(
                |p: PathModel|
                    exists|i: int|
                        0 <= i < e.len() && #[trigger] e[i].schema@ == k && path_set(
                            e[i].instances@,
                        ).contains(p),
            ),
    )
}

/// The instances recorded for `k`; none where `k` has no entry.
pub open spec fn paths_for(m: Map<SchemaModel, Set<PathModel>>, k: SchemaModel) -> Set<PathModel> {
    if m.contains_key(k) {
        m[k]
    } else {
        Set::empty()
    }
}

/// `m` with the paths `ps` added to the entry for `k`, which is made if absent.
pub open spec fn with_paths(
    m: Map<SchemaModel, Set<PathModel>>,
    k: SchemaModel,
    ps: Set<PathModel>,
) -> Map<SchemaModel, Set<PathModel>> {
    m.insert(k, paths_for(m, k).union(ps))
}

/// The union of two mappings: every key of either, with the union of its paths.
pub open spec fn union_of(
    a: Map<SchemaModel, Set<PathModel>>,
    b: Map<SchemaModel, Set<PathModel>>,
) -> Map<SchemaModel, Set<PathModel>> {
    Map::new(
        |k: SchemaModel| a.contains_key(k) || b.contains_key(k),
        |k: SchemaModel| paths_for(a, k).union(paths_for(b, k)),
    )
}

/// Mappings folded together by union, from the first to the last.
pub open spec fn merged(ms: Seq<Map<SchemaModel, Set<PathModel>>>) -> Map<
    SchemaModel,
    Set<PathModel>,
>
    decreases ms.len(),
{
    if ms.len() == 0 {
        Map::empty()
    } else {
        union_of(merged(ms.drop_last()), ms.last())
    }
}

proof fn lemma_view_at(e: Seq<Association>, i: int)
    requires
        distinct_entries(e),
        0 <= i < e.len(),
    ensures
        entries_view(e).contains_key(e[i].schema@),
        entries_view(e)[e[i].schema@] == path_set(e[i].instances@),
{
    let k = e[i].schema@;
    assert(has_schema(e, k));
    assert(entries_view(e)[k] =~= path_set(e[i].instances@)) by {
        assert forall|p: PathModel| #[trigger]
            entries_view(e)[k].contains(p) implies path_set(e[i].instances@).contains(p) by {
            let j = choose|j: int|
                0 <= j < e.len() && #[trigger] e[j].schema@ == k && path_set(
                    e[j].instances@,
                ).contains(p);
            if j != i {
                if j < i {
                    assert(e[j].schema@ != e[i].schema@);
                } else {
                    assert(e[i].schema@ != e[j].schema@);
                }
            }
        }
    }
}

proof fn lemma_path_set_push(ps: Seq<FsPath>, p: FsPath)
    ensures
        path_set(ps.push(p)) == path_set(ps).insert(p@),
{
    let q = ps.push(p);
    assert(path_set(q) =~= path_set(ps).insert(p@)) by {
        assert(q[ps.len() as int]@ == p@);
        assert forall|x: PathModel| #[trigger] path_set(ps).contains(x) implies path_set(q).contains(x) by {
            let j = choose|j: int| 0 <= j < ps.len() && #[trigger] ps[j]@ == x;
            assert(q[j]@ == x);
        }
        assert forall|x: PathModel| #[trigger] path_set(q).contains(x) && x != p@ implies path_set(ps).contains(x) by {
            let j = choose|j: int| 0 <= j < q.len() && #[trigger] q[j]@ == x;
            assert(ps[j]@ == x);
        }
    }
}

proof fn lemma_view_push(e: Seq<Association>, a: Association)
    requires
        distinct_entries(e.push(a)),
    ensures
        entries_view(e.push(a)) == with_paths(
            entries_view(e),
            a.schema@,
            path_set(a.instances@),
        ),
{
    let e2 = e.push(a);
    let k = a.schema@;
    assert(distinct_entries(e)) by {
        assert forall|x: int, y: int| 0 <= x < y < e.len() implies #[trigger] e[x].schema@
            != #[trigger] e[y].schema@ by {
            assert(e2[x].schema@ != e2[y].schema@);
        }
        assert forall|x: int| 0 <= x < e.len() implies distinct_paths(#[trigger] e[x].instances@) by {
            assert(distinct_paths(e2[x].instances@));
        }
    }
    assert(!has_schema(e, k)) by {
        if has_schema(e, k) {
            let j = choose|j: int| 0 <= j < e.len() && #[trigger] e[j].schema@ == k;
            assert(e2[j].schema@ != e2[e.len() as int].schema@);
        }
    }
    lemma_view_at(e2, e.len() as int);
    assert(!entries_view(e).contains_key(k));
    let m = with_paths(entries_view(e), k, path_set(a.instances@));
    assert forall|k2: SchemaModel| #[trigger] has_schema(e, k2) implies has_schema(e2, k2)
        && entries_view(e2)[k2] == entries_view(e)[k2] by {
        let j = choose|j: int| 0 <= j < e.len() && #[trigger] e[j].schema@ == k2;
        assert(e2[j].schema@ == k2);
        lemma_view_at(e, j);
        lemma_view_at(e2, j);
    }
    assert forall|k2: SchemaModel| #[trigger] has_schema(e2, k2) && k2 != k implies has_schema(
        e,
        k2,
    ) by {
        let j = choose|j: int| 0 <= j < e2.len() && #[trigger] e2[j].schema@ == k2;
        assert(e[j].schema@ == k2);
    }
    assert(m[k] =~= path_set(a.instances@));
    assert forall|k2: SchemaModel| m.contains_key(k2) <==> #[trigger] entries_view(
        e2,
    ).contains_key(k2) by {
        if k2 != k && m.contains_key(k2) {
            assert(has_schema(e, k2));
        }
    }
    assert forall|k2: SchemaModel| #[trigger] m.contains_key(k2) implies entries_view(e2)[k2]
        == m[k2] by {
        if k2 != k {
            assert(has_schema(e, k2));
        }
    }
    assert(entries_view(e2) =~= m);
}

proof fn lemma_union_with_paths(
    m: Map<SchemaModel, Set<PathModel>>,
    x: Map<SchemaModel, Set<PathModel>>,
    k: SchemaModel,
    ps: Set<PathModel>,
)
    ensures
        union_of(m, with_paths(x, k, ps)) == with_paths(union_of(m, x), k, ps),
{
    let l = union_of(m, with_paths(x, k, ps));
    let r = with_paths(union_of(m, x), k, ps);
    assert forall|k2: SchemaModel| #[trigger] l.contains_key(k2) implies r.contains_key(k2) && l[k2]
        =~= r[k2] by {
    }
    assert(l =~= r);
}

/// Adds `p` to `list` unless a path equal to it is there already.
fn add_path(list: &mut Vec<FsPath>, p: &FsPath)
    requires
        distinct_paths(old(list)@),
    ensures
        distinct_paths(final(list)@),
        path_set(final(list)@) == path_set(old(list)@).insert(p@),
{
    let mut i: usize = 0;
    while i < list.len()
        invariant
            i <= list.len(),
            distinct_paths(list@),
            forall|k: int| 0 <= k < i ==> list@[k]@ != p@,
        decreases list.len() - i,
    {
        if list[i].same(p) {
            assert(path_set(list@).contains(p@));
            assert(path_set(list@) =~= path_set(list@).insert(p@));
            return;
        }
        i = i + 1;
    }
    let ghost before = list@;
    let q = p.clone();
    list.push(q);
    proof {
        lemma_path_set_push(before, q);
    }
}

/// Adds every path of `ps` to `list`.
fn add_paths(list: &mut Vec<FsPath>, ps: &Vec<FsPath>)
    requires
        distinct_paths(old(list)@),
    ensures
        distinct_paths(final(list)@),
        path_set(final(list)@) == path_set(old(list)@).union(path_set(ps@)),
{
    let ghost start = list@;
    let mut i: usize = 0;
    while i < ps.len()
        invariant
            i <= ps.len(),
            distinct_paths(list@),
            path_set(list@) == path_set(start).union(path_set(ps@.take(i as int))),
        decreases ps.len() - i,
    {
        add_path(list, &ps[i]);
        proof {
            assert(ps@.take(i + 1) =~= ps@.take(i as int).push(ps@[i as int]));
            lemma_path_set_push(ps@.take(i as int), ps@[i as int]);
            assert(path_set(list@) =~= path_set(start).union(path_set(ps@.take(i + 1))));
        }
        i = i + 1;
    }
    assert(ps@.take(ps.len() as int) =~= ps@);
}

/// Records the paths `ps` under `schema` in a list of entries.
fn add_to(entries: &mut Vec<Association>, schema: Schema, ps: &Vec<FsPath>)
    requires
        distinct_entries(old(entries)@),
    ensures
        distinct_entries(final(entries)@),
        entries_view(final(entries)@) == with_paths(
            entries_view(old(entries)@),
            schema@,
            path_set(ps@),
        ),
{
    let ghost e = entries@;
    let ghost k = schema@;
    let mut i: usize = 0;
    while i < entries.len()
        invariant
            e == entries@,
            k == schema@,
            i <= entries.len(),
            forall|j: int| 0 <= j < i ==> entries@[j].schema@ != k,
        ensures
            i <= entries.len(),
            forall|j: int| 0 <= j < i ==> entries@[j].schema@ != k,
            i < entries.len() ==> entries@[i as int].schema@ == k,
        decreases entries.len() - i,
    {
        if entries[i].schema.same(&schema) {
            break;
        }
        i = i + 1;
    }
    if i < entries.len() {
        let mut entry = entries.remove(i);
        assert(entry.schema@ == k);
        assert(distinct_paths(entry.instances@)) by {
            assert(distinct_paths(e[i as int].instances@));
        }
        let ghost old_list = entry.instances@;
        add_paths(&mut entry.instances, ps);
        entries.insert(i, entry);
        proof {
            let e2 = entries@;
            assert(e2 =~= e.update(i as int, entry));
            assert(distinct_entries(e2)) by {
                assert forall|a: int, b: int| 0 <= a < b < e2.len() implies #[trigger] e2[a].schema@
                    != #[trigger] e2[b].schema@ by {
                    assert(e[a].schema@ != e[b].schema@);
                }
            }
            lemma_view_at(e, i as int);
            lemma_view_at(e2, i as int);
            let m = with_paths(entries_view(e), k, path_set(ps@));
            assert forall|k2: SchemaModel| #[trigger] has_schema(e, k2) implies has_schema(e2, k2)
                && entries_view(e2)[k2] == entries_view(e)[k2] || k2 == k by {
                let j = choose|j: int| 0 <= j < e.len() && #[trigger] e[j].schema@ == k2;
                if k2 != k {
                    assert(e2[j].schema@ == k2);
                    lemma_view_at(e, j);
                    lemma_view_at(e2, j);
                }
            }
            assert forall|k2: SchemaModel| #[trigger] has_schema(e2, k2) implies has_schema(e, k2) by {
                let j = choose|j: int| 0 <= j < e2.len() && #[trigger] e2[j].schema@ == k2;
                if j != i {
                    assert(e[j].schema@ == k2);
                } else {
                    assert(e[i as int].schema@ == k2);
                }
            }
            assert(m[k] =~= path_set(entry.instances@));
            assert forall|k2: SchemaModel| m.contains_key(k2) <==> #[trigger] entries_view(
                e2,
            ).contains_key(k2) by {
                if m.contains_key(k2) && k2 != k {
                    assert(has_schema(e, k2));
                }
                if entries_view(e2).contains_key(k2) {
                    assert(has_schema(e2, k2));
                }
            }
            assert forall|k2: SchemaModel| #[trigger] m.contains_key(k2) implies entries_view(e2)[k2]
                == m[k2] by {
                if k2 != k {
                    assert(has_schema(e, k2));
                }
            }
            assert(entries_view(e2) =~= m);
        }
    } else {
        let mut list: Vec<FsPath> = Vec::new();
        add_paths(&mut list, ps);
        let ghost new_entry = Association { schema, instances: list };
        entries.push(Association { schema, instances: list });
        proof {
            let e2 = entries@;
            assert(e2 =~= e.push(new_entry));
            assert(!has_schema(e, k));
            assert(path_set(Seq::<FsPath>::empty()) =~= Set::<PathModel>::empty());
            assert(distinct_entries(e2)) by {
                assert forall|a: int, b: int| 0 <= a < b < e2.len() implies #[trigger] e2[a].schema@
                    != #[trigger] e2[b].schema@ by {
                    if b < e.len() {
                        assert(e[a].schema@ != e[b].schema@);
                    }
                }
            }
            assert(path_set(new_entry.instances@) =~= path_set(ps@));
            lemma_view_push(e, new_entry);
        }
    }
}

/// A mapping from schema reference to a set of instance paths.
///
/// Each schema reference has at most one entry, and an entry names each path
/// once. A reference may have an entry with no instances: a rule whose
/// patterns matched nothing still names its schema.
#[derive(Debug)]
pub struct Associations {
    entries: Vec<Association>,
}

impl View for Associations {
    type V = Map<SchemaModel, Set<PathModel>>;

    closed spec fn view(&self) -> Map<SchemaModel, Set<PathModel>> {
        entries_view(self.entries@)
    }
}

impl Associations {
    #[verifier::type_invariant]
    spec fn inv(&self) -> bool {
        distinct_entries(self.entries@)
    }

    /// The empty mapping.
    pub fn new() -> (r: Associations)
        ensures
            r@ == Map::<SchemaModel, Set<PathModel>>::empty(),
    {
        let r = Associations { entries: Vec::new() };
        assert(r@ =~= Map::<SchemaModel, Set<PathModel>>::empty());
        r
    }

    /// The entries, each schema reference once.
    pub fn entries(&self) -> (r: &Vec<Association>)
        ensures
            distinct_entries(r@),
            entries_view(r@) == self@,
    {
        proof {
            use_type_invariant(self);
        }
        &self.entries
    }

    /// Records the paths `instances` under `schema`, making its entry if it has none.
    pub fn add(&mut self, schema: Schema, instances: &Vec<FsPath>)
        ensures
            final(self)@ == with_paths(old(self)@, schema@, path_set(instances@)),
    {
        proof {
            use_type_invariant(&*self);
        }
        let mut entries: Vec<Association> = Vec::new();
        std::mem::swap(&mut entries, &mut self.entries);
        add_to(&mut entries, schema, instances);
        self.entries = entries;
    }

    /// Adds every entry of `other` to this mapping.
    pub fn extend(&mut self, other: Associations)
        ensures
            final(self)@ == union_of(old(self)@, other@),
    {
        proof {
            use_type_invariant(&other);
        }
        let ghost start = self@;
        let ghost e = other.entries@;
        assert(entries_view(e.take(0)) =~= Map::<SchemaModel, Set<PathModel>>::empty());
        proof {
            lemma_union_empty_right(start);
        }
        let mut i: usize = 0;
        while i < other.entries.len()
            invariant
                e == other.entries@,
                distinct_entries(e),
                i <= e.len(),
                self@ == union_of(start, entries_view(e.take(i as int))),
            decreases e.len() - i,
        {
            let entry = &other.entries[i];
            self.add(entry.schema.clone(), &entry.instances);
            proof {
                let t = e.take(i + 1);
                assert(t =~= e.take(i as int).push(e[i as int]));
                assert(distinct_entries(t)) by {
                    assert forall|x: int, y: int| 0 <= x < y < t.len() implies #[trigger] t[x].schema@
                        != #[trigger] t[y].schema@ by {
                        assert(e[x].schema@ != e[y].schema@);
                    }
                    assert forall|x: int| 0 <= x < t.len() implies distinct_paths(
                        #[trigger] t[x].instances@,
                    ) by {
                        assert(distinct_paths(e[x].instances@));
                    }
                }
                lemma_view_push(e.take(i as int), e[i as int]);
                lemma_union_with_paths(
                    start,
                    entries_view(e.take(i as int)),
                    e[i as int].schema@,
                    path_set(e[i as int].instances@),
                );
            }
            i = i + 1;
        }
        assert(e.take(e.len() as int) =~= e);
    }
}

/// The mappings that a sequence of mappings holds, in order.
pub open spec fn views_of(ms: Seq<Associations>) -> Seq<Map<SchemaModel, Set<PathModel>>> {
    ms.map_values(|a: Associations| a@)
}

/// Folds `mappings` into one by union, from the first to the last.
pub fn merge(mappings: Vec<Associations>) -> (r: Associations)
    ensures
        r@ == merged(views_of(mappings@)),
{
    let ghost views = views_of(mappings@);
    let mut rest = mappings;
    let mut acc = Associations::new();
    let ghost n: int = views.len() as int;
    let ghost mut i: int = 0;
    assert(views.take(0) =~= Seq::<Map<SchemaModel, Set<PathModel>>>::empty());
    assert(views_of(rest@) =~= views.skip(0));
    while rest.len() > 0
        invariant
            n == views.len(),
            0 <= i <= n,
            rest@.len() == n - i,
            views_of(rest@) == views.skip(i),
            acc@ == merged(views.take(i)),
        decreases rest@.len(),
    {
        let ghost before = rest@;
        let next = rest.remove(0);
        proof {
            assert(views_of(before)[0] == before[0]@);
            assert(views.skip(i)[0] == views[i]);
            assert(next@ == views[i]);
            assert forall|j: int| 0 <= j < rest@.len() implies #[trigger] views_of(rest@)[j]
                == views.skip(i + 1)[j] by {
                assert(rest@[j] == before[j + 1]);
                assert(views_of(before)[j + 1] == before[j + 1]@);
                assert(views.skip(i)[j + 1] == views.skip(i + 1)[j]);
            }
            assert(views_of(rest@) =~= views.skip(i + 1));
        }
        acc.extend(next);
        proof {
            assert(views.take(i + 1).drop_last() =~= views.take(i));
            i = i + 1;
        }
    }
    assert(views.take(n) =~= views);
    acc
}

/// Adding two sets of paths under one key, one after the other, adds their union.
pub proof fn lemma_with_paths_twice(
    m: Map<SchemaModel, Set<PathModel>>,
    k: SchemaModel,
    a: Set<PathModel>,
    b: Set<PathModel>,
)
    ensures
        with_paths(with_paths(m, k, a), k, b) == with_paths(m, k, a.union(b)),
{
    let l = with_paths(with_paths(m, k, a), k, b);
    let r = with_paths(m, k, a.union(b));
    assert(l[k] =~= r[k]);
    assert(l =~= r);
}

/// Merging a mapping with itself gives what merging it alone gives.
pub proof fn lemma_merge_idempotent(a: Map<SchemaModel, Set<PathModel>>)
    ensures
        merged(seq![a, a]) == merged(seq![a]),
{
    let one = seq![a];
    let two = seq![a, a];
    assert(one.drop_last() =~= Seq::<Map<SchemaModel, Set<PathModel>>>::empty());
    assert(two.drop_last() =~= one);
    let none = Seq::<Map<SchemaModel, Set<PathModel>>>::empty();
    assert(merged(none) == Map::<SchemaModel, Set<PathModel>>::empty());
    assert(merged(one) == union_of(merged(none), a));
    lemma_union_empty_left(a);
    assert(merged(two) == union_of(merged(one), a));
    lemma_union_self(a);
}

proof fn lemma_union_empty_left(a: Map<SchemaModel, Set<PathModel>>)
    ensures
        union_of(Map::empty(), a) == a,
{
    let u = union_of(Map::empty(), a);
    assert forall|k: SchemaModel| #[trigger] u.contains_key(k) implies u[k] =~= a[k] by {
    }
    assert(u =~= a);
}

proof fn lemma_union_empty_right(a: Map<SchemaModel, Set<PathModel>>)
    ensures
        union_of(a, Map::empty()) == a,
{
    let u = union_of(a, Map::empty());
    assert forall|k: SchemaModel| #[trigger] u.contains_key(k) implies u[k] =~= a[k] by {
    }
    assert(u =~= a);
}

proof fn lemma_union_self(a: Map<SchemaModel, Set<PathModel>>)
    ensures
        union_of(a, a) == a,
{
    let u = union_of(a, a);
    assert forall|k: SchemaModel| #[trigger] u.contains_key(k) implies u[k] =~= a[k] by {
    }
    assert(u =~= a);
}

/// The order of two mappings does not change their union.
pub proof fn lemma_union_commutative(
    a: Map<SchemaModel, Set<PathModel>>,
    b: Map<SchemaModel, Set<PathModel>>,
)
    ensures
        union_of(a, b) == union_of(b, a),
{
    assert forall|k: SchemaModel| #[trigger] union_of(a, b).contains_key(k) implies union_of(
        a,
        b,
    )[k] =~= union_of(b, a)[k] by {
    }
    assert(union_of(a, b) =~= union_of(b, a));
}

/// How three mappings are grouped does not change their union.
pub proof fn lemma_union_associative(
    a: Map<SchemaModel, Set<PathModel>>,
    b: Map<SchemaModel, Set<PathModel>>,
    c: Map<SchemaModel, Set<PathModel>>,
)
    ensures
        union_of(union_of(a, b), c) == union_of(a, union_of(b, c)),
{
    let l = union_of(union_of(a, b), c);
    let r = union_of(a, union_of(b, c));
    assert forall|k: SchemaModel| #[trigger] l.contains_key(k) implies l[k] =~= r[k] by {
    }
    assert(l =~= r);
}

} // verus!
