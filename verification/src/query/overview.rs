//! A code base in numbers.

use vstd::prelude::*;

use crate::lines::pieces;
use crate::model::entity::JavaEntityType;
use crate::model::graph::{CellView, LinkView};
use crate::model::space_data::{EntityRecord, EntityView, SpaceData, SpaceView};
use crate::order::{lemma_sorted_map, sort_stable, stable_sorted};
use crate::query::names::{package_name, package_of, tally, tally_names};
use crate::text::texts;
use crate::text_map::{lemma_key_position, lookup, with_entry, TextMap};
use crate::text_set::TextSet;

verus! {

#[derive(Debug)]
pub struct TypeCount {
    pub name: String,
    pub count: usize,
}

#[verifier::ext_equal]
pub struct TypeCountView {
    pub name: Seq<char>,
    pub count: usize,
}

impl View for TypeCount {
    type V = TypeCountView;

    open spec fn view(&self) -> TypeCountView {
        TypeCountView {
            name: self.name@,
            count: self.count,
        }
    }
}

#[derive(Debug)]
pub struct PackageOverview {
    pub package: String,
    pub classes: usize,
    pub interfaces: usize,
    pub methods: usize,
    pub fields: usize,
}

#[verifier::ext_equal]
pub struct PackageOverviewView {
    pub package: Seq<char>,
    pub classes: usize,
    pub interfaces: usize,
    pub methods: usize,
    pub fields: usize,
}

impl View for PackageOverview {
    type V = PackageOverviewView;

    open spec fn view(&self) -> PackageOverviewView {
        PackageOverviewView {
            package: self.package@,
            classes: self.classes,
            interfaces: self.interfaces,
            methods: self.methods,
            fields: self.fields,
        }
    }
}

#[derive(Debug)]
pub struct OverviewResult {
    pub total_entities: usize,
    pub total_relations: usize,
    pub total_files: usize,
    pub entities_by_type: Vec<TypeCount>,
    pub relations_by_type: Vec<TypeCount>,
    pub packages: Vec<PackageOverview>,
}

#[verifier::ext_equal]
pub struct OverviewResultView {
    pub total_entities: usize,
    pub total_relations: usize,
    pub total_files: usize,
    pub entities_by_type: Seq<TypeCountView>,
    pub relations_by_type: Seq<TypeCountView>,
    pub packages: Seq<PackageOverviewView>,
}

impl View for OverviewResult {
    type V = OverviewResultView;

    open spec fn view(&self) -> OverviewResultView {
        OverviewResultView {
            total_entities: self.total_entities,
            total_relations: self.total_relations,
            total_files: self.total_files,
            entities_by_type: self.entities_by_type@.map_values(|x: TypeCount| x@),
            relations_by_type: self.relations_by_type@.map_values(|x: TypeCount| x@),
            packages: self.packages@.map_values(|x: PackageOverview| x@),
        }
    }
}

/// The package of an entity; none for a name without a dot.
pub open spec fn package_of_entity(fqn: Seq<char>) -> Seq<char> {
    if pieces(fqn, '.').len() <= 1 {
        Seq::empty()
    } else {
        package_of(fqn)
    }
}

/// What a package holds.
#[derive(Debug, Clone, Copy)]
pub struct PackageCounts {
    pub classes: usize,
    pub interfaces: usize,
    pub methods: usize,
    pub fields: usize,
}

pub open spec fn no_counts() -> PackageCounts {
    PackageCounts { classes: 0, interfaces: 0, methods: 0, fields: 0 }
}

/// The counts with one more entity of a kind.
pub open spec fn with_kind(c: PackageCounts, kind: JavaEntityType) -> PackageCounts {
    match kind {
        JavaEntityType::Class | JavaEntityType::Enum | JavaEntityType::Record => PackageCounts {
            classes: (c.classes + 1) as usize,
            ..c
        },
        JavaEntityType::Interface => PackageCounts { interfaces: (c.interfaces + 1) as usize, ..c },
        JavaEntityType::Method | JavaEntityType::Constructor => PackageCounts {
            methods: (c.methods + 1) as usize,
            ..c
        },
        JavaEntityType::Field => PackageCounts { fields: (c.fields + 1) as usize, ..c },
        _ => c,
    }
}

pub open spec fn counts_at(packages: Seq<(Seq<char>, PackageCounts)>, name: Seq<char>) -> PackageCounts {
    match lookup(packages, name) {
        Some(c) => c,
        None => no_counts(),
    }
}

/// What each package holds, in order of first appearance.
pub open spec fn packages_in(entities: Seq<EntityView>) -> Seq<(Seq<char>, PackageCounts)>
    decreases entities.len(),
{
    if entities.len() == 0 {
        Seq::empty()
    } else {
        let before = packages_in(entities.drop_last());
        let e = entities.last();
        let name = package_of_entity(e.fqn);
        with_entry(before, name, with_kind(counts_at(before, name), e.entity_type))
    }
}

/// Order of counts: most frequent first.
pub open spec fn by_count() -> spec_fn(TypeCountView, TypeCountView) -> bool {
    |a: TypeCountView, b: TypeCountView| a.count >= b.count
}

pub open spec fn type_counts(names: Seq<Seq<char>>) -> Seq<TypeCountView> {
    stable_sorted(
        tally(names).map_values(|e: (Seq<char>, usize)| TypeCountView { name: e.0, count: e.1 }),
        by_count(),
    )
}

pub open spec fn package_size(p: PackageOverviewView) -> int {
    p.classes + p.interfaces + p.methods
}

/// Order of packages: largest first.
pub open spec fn by_size() -> spec_fn(PackageOverviewView, PackageOverviewView) -> bool {
    |a: PackageOverviewView, b: PackageOverviewView| package_size(a) >= package_size(b)
}

/// The named packages among the first `k`.
pub open spec fn named_packages(packages: Seq<(Seq<char>, PackageCounts)>) -> Seq<PackageOverviewView>
    decreases packages.len(),
{
    if packages.len() == 0 {
        Seq::empty()
    } else {
        let before = named_packages(packages.drop_last());
        let (name, c) = packages.last();
        if name.len() == 0 {
            before
        } else {
            before.push(
                PackageOverviewView {
                    package: name,
                    classes: c.classes,
                    interfaces: c.interfaces,
                    methods: c.methods,
                    fields: c.fields,
                },
            )
        }
    }
}

pub open spec fn cell_types(cells: Seq<CellView>) -> Seq<Seq<char>> {
    cells.map_values(|c: CellView| c.cell_type)
}

pub open spec fn relation_types(links: Seq<LinkView>) -> Seq<Seq<char>> {
    links.map_values(|l: LinkView| l.relation)
}

/// The files in which entities were seen.
pub open spec fn files_of(entities: Seq<EntityView>) -> Seq<Seq<char>>
    decreases entities.len(),
{
    if entities.len() == 0 {
        Seq::empty()
    } else {
        let before = files_of(entities.drop_last());
        let file = entities.last().witness.file;
        if file.len() == 0 || before.contains(file) {
            before
        } else {
            before.push(file)
        }
    }
}

/// A space in numbers.
pub open spec fn overview_of(space: SpaceView) -> OverviewResultView {
    OverviewResultView {
        total_entities: space.cells.len() as usize,
        total_relations: space.links.len() as usize,
        total_files: files_of(space.entities).len() as usize,
        entities_by_type: type_counts(cell_types(space.cells)),
        relations_by_type: type_counts(relation_types(space.links)),
        packages: stable_sorted(named_packages(packages_in(space.entities)), by_size()),
    }
}

spec fn count_views(v: Seq<TypeCount>) -> Seq<TypeCountView> {
    v.map_values(|x: TypeCount| x@)
}

spec fn package_views(v: Seq<PackageOverview>) -> Seq<PackageOverviewView> {
    v.map_values(|x: PackageOverview| x@)
}

fn count_types(names: &Vec<String>) -> (r: Vec<TypeCount>)
    ensures
        count_views(r@) == type_counts(texts(names@)),
{
    let counts = tally_names(names);
    let ghost es = counts.entries();
    let ghost all = es.map_values(|e: (Seq<char>, usize)| TypeCountView { name: e.0, count: e.1 });
    let mut list: Vec<TypeCount> = Vec::new();
    let n: usize = counts.len();
    let mut i: usize = 0;
    while i < n
        invariant
            i <= n == es.len(),
            es == counts.entries(),
            all == es.map_values(|e: (Seq<char>, usize)| TypeCountView { name: e.0, count: e.1 }),
            count_views(list@) == all.take(i as int),
        decreases n - i,
    {
        let ghost before = list@;
        let item = TypeCount { name: counts.key_at(i).clone(), count: *counts.value_at(i) };
        list.push(item);
        i = i + 1;
        assert(count_views(list@) =~= count_views(before).push(item@));
        assert(count_views(list@) =~= all.take(i as int));
    }
    assert(all.take(i as int) =~= all);
    let ghost le = |a: TypeCount, b: TypeCount| by_count()(a@, b@);
    let compare = |a: &TypeCount, b: &TypeCount| -> (t: bool)
        ensures
            t == (a@.count >= b@.count),
        { a.count >= b.count };
    proof {
        lemma_sorted_map(list@, |x: TypeCount| x@, le, by_count());
    }
    sort_stable(list, &compare, Ghost(le))
}

/// No count exceeds `n`.
spec fn packages_within(packages: Seq<(Seq<char>, PackageCounts)>, n: nat) -> bool {
    forall|i: int|
        0 <= i < packages.len() ==> {
            let c = (#[trigger] packages[i]).1;
            c.classes <= n && c.interfaces <= n && c.methods <= n && c.fields <= n
        }
}

fn add_kind(c: PackageCounts, kind: JavaEntityType) -> (r: PackageCounts)
    requires
        c.classes < usize::MAX,
        c.interfaces < usize::MAX,
        c.methods < usize::MAX,
        c.fields < usize::MAX,
    ensures
        r == with_kind(c, kind),
{
    let mut r = c;
    match kind {
        JavaEntityType::Class | JavaEntityType::Enum | JavaEntityType::Record => {
            r.classes = r.classes + 1;
        },
        JavaEntityType::Interface => {
            r.interfaces = r.interfaces + 1;
        },
        JavaEntityType::Method | JavaEntityType::Constructor => {
            r.methods = r.methods + 1;
        },
        JavaEntityType::Field => {
            r.fields = r.fields + 1;
        },
        _ => {},
    }
    r
}

fn entity_package(fqn: &str) -> (r: String)
    ensures
        r@ == package_of_entity(fqn@),
{
    let parts = crate::lines::split_at_char(crate::text::chars_of(fqn).as_slice(), '.');
    assert(texts(parts@).len() == parts@.len());
    if parts.len() <= 1 {
        let r = String::new();
        assert(r@ =~= Seq::empty());
        r
    } else {
        package_name(fqn)
    }
}

fn count_packages(entities: &Vec<EntityRecord>) -> (r: TextMap<PackageCounts>)
    ensures
        r.entries() == packages_in(crate::query::resolve::entity_views(entities@)),
{
    let ghost all = crate::query::resolve::entity_views(entities@);
    let mut map: TextMap<PackageCounts> = TextMap::new();
    let mut i: usize = 0;
    while i < entities.len()
        invariant
            i <= entities@.len(),
            all == crate::query::resolve::entity_views(entities@),
            map.entries() == packages_in(all.take(i as int)),
            packages_within(map.entries(), i as nat),
        decreases entities.len() - i,
    {
        assert(all[i as int] == entities@[i as int]@);
        assert(all.take(i + 1).drop_last() =~= all.take(i as int));
        let name = entity_package(entities[i].fqn.as_str());
        let ghost es = map.entries();
        proof {
            lemma_key_position(es, name@);
        }
        let c = match map.get(name.as_str()) {
            Some(c) => *c,
            None => PackageCounts { classes: 0, interfaces: 0, methods: 0, fields: 0 },
        };
        assert(c == counts_at(es, name@));
        map.insert(name, add_kind(c, entities[i].entity_type));
        i = i + 1;
        assert(packages_within(map.entries(), i as nat));
    }
    assert(all.take(i as int) =~= all);
    map
}

fn list_packages(entities: &Vec<EntityRecord>) -> (r: Vec<PackageOverview>)
    ensures
        package_views(r@) == stable_sorted(
            named_packages(packages_in(crate::query::resolve::entity_views(entities@))),
            by_size(),
        ),
{
    let map = count_packages(entities);
    let ghost es = map.entries();
    let mut list: Vec<PackageOverview> = Vec::new();
    let n: usize = map.len();
    let mut i: usize = 0;
    assert(package_views(list@) =~= named_packages(es.take(0)));
    while i < n
        invariant
            i <= n == es.len(),
            es == map.entries(),
            package_views(list@) == named_packages(es.take(i as int)),
        decreases n - i,
    {
        let name = map.key_at(i);
        let c = map.value_at(i);
        assert(es.take(i + 1).drop_last() =~= es.take(i as int));
        if !name.as_str().is_empty() {
            let item = PackageOverview {
                package: name.clone(),
                classes: c.classes,
                interfaces: c.interfaces,
                methods: c.methods,
                fields: c.fields,
            };
            let ghost before = list@;
            list.push(item);
            assert(package_views(list@) =~= package_views(before).push(item@));
        }
        i = i + 1;
    }
    assert(es.take(i as int) =~= es);
    let ghost le = |a: PackageOverview, b: PackageOverview| by_size()(a@, b@);
    let compare = |a: &PackageOverview, b: &PackageOverview| -> (t: bool)
        ensures
            t == (package_size(a@) >= package_size(b@)),
        {
            a.classes as u128 + a.interfaces as u128 + a.methods as u128 >= b.classes as u128 + b.interfaces as u128
                + b.methods as u128
        };
    proof {
        lemma_sorted_map(list@, |x: PackageOverview| x@, le, by_size());
    }
    sort_stable(list, &compare, Ghost(le))
}

/// The files in which entities were seen, once each.
pub fn distinct_files(entities: &Vec<EntityRecord>) -> (r: TextSet)
    ensures
        r.texts() == files_of(crate::query::resolve::entity_views(entities@)),
{
    let ghost all = crate::query::resolve::entity_views(entities@);
    let mut files = TextSet::new();
    let mut i: usize = 0;
    while i < entities.len()
        invariant
            i <= entities@.len(),
            all == crate::query::resolve::entity_views(entities@),
            files.texts() == files_of(all.take(i as int)),
        decreases entities.len() - i,
    {
        assert(all[i as int] == entities@[i as int]@);
        assert(all.take(i + 1).drop_last() =~= all.take(i as int));
        if !entities[i].witness.file.as_str().is_empty() {
            files.add_text(entities[i].witness.file.clone());
        }
        i = i + 1;
    }
    assert(all.take(i as int) =~= all);
    files
}

pub fn overview(space_data: &SpaceData) -> (r: OverviewResult)
    ensures
        r@ == overview_of(space_data@),
{
    let ghost space = space_data@;
    let mut kinds: Vec<String> = Vec::new();
    let mut i: usize = 0;
    while i < space_data.cells.len()
        invariant
            i <= space_data.cells@.len(),
            space == space_data@,
            kinds@.len() == i,
            forall|k: int| 0 <= k < i ==> (#[trigger] kinds@[k])@ == space.cells[k].cell_type,
        decreases space_data.cells.len() - i,
    {
        assert(space.cells[i as int] == space_data.cells@[i as int]@);
        kinds.push(space_data.cells[i].cell_type.clone());
        i = i + 1;
    }
    assert(texts(kinds@) =~= cell_types(space.cells));
    let mut relations: Vec<String> = Vec::new();
    let mut k: usize = 0;
    while k < space_data.incidences.len()
        invariant
            k <= space_data.incidences@.len(),
            space == space_data@,
            relations@.len() == k,
            forall|j: int| 0 <= j < k ==> (#[trigger] relations@[j])@ == space.links[j].relation,
        decreases space_data.incidences.len() - k,
    {
        assert(space.links[k as int] == space_data.incidences@[k as int]@);
        relations.push(space_data.incidences[k].relation_type.clone());
        k = k + 1;
    }
    assert(texts(relations@) =~= relation_types(space.links));
    OverviewResult {
        total_entities: space_data.cells.len(),
        total_relations: space_data.incidences.len(),
        total_files: distinct_files(&space_data.entities).len(),
        entities_by_type: count_types(&kinds),
        relations_by_type: count_types(&relations),
        packages: list_packages(&space_data.entities),
    }
}

} // verus!
