//! The registry of user-declared types, keyed by canonical path.
use vstd::prelude::*;
use vstd::string::*;
use crate::text::{compare_str, seq_lt, lemma_seq_lt_total, lemma_seq_lt_transitive, lemma_seq_lt_irreflexive};
use crate::schema::{CustomTypeKind, Ty, is_placeholder};
use crate::naming::identifiers;

verus! {

/// Builds the kind of the user-declared type at `path`, registering first
/// whatever its fields refer to. It is handed the registry with the empty
/// placeholder already at `path`, so that a field referring back to the type
/// finds it. It returns the kind it stands for, changes no entry, and adds
/// none but the paths it names.
pub trait BuildKind {
    /// The kind that building gives. Every implementation in this crate
    /// states it; the default is a value nothing is known of.
    open spec fn kind_of(&self) -> CustomTypeKind {
        arbitrary()
    }

    /// The paths that building may register. Every implementation in this
    /// crate states them; the default is a set nothing is known of.
    open spec fn adds(&self) -> Set<Seq<char>> {
        arbitrary()
    }

    fn build(self, path: &str, c: &mut CostomTypes) -> (r: CustomTypeKind)
        requires
            old(c).wf(),
            old(c)@.contains_key(path@),
            is_placeholder(old(c)@[path@]),
        ensures
            r == self.kind_of(),
            final(c).wf(),
            old(c)@.submap_of(final(c)@),
            final(c)@.dom().subset_of(old(c)@.dom().union(self.adds()));
}

/// A kind that is already built: its fields refer to nothing that needs
/// registering.
impl BuildKind for CustomTypeKind {
    open spec fn kind_of(&self) -> CustomTypeKind {
        *self
    }

    open spec fn adds(&self) -> Set<Seq<char>> {
        Set::empty()
    }

    fn build(self, path: &str, c: &mut CostomTypes) -> (r: CustomTypeKind)
        ensures
            r == self,
            *final(c) == *old(c),
    {
        self
    }
}

/// Keeping every entry is transitive.
pub proof fn lemma_submap_trans(a: Map<Seq<char>, CustomTypeKind>, b: Map<Seq<char>, CustomTypeKind>, c: Map<Seq<char>, CustomTypeKind>)
    requires
        a.submap_of(b),
        b.submap_of(c),
    ensures
        a.submap_of(c),
{
    assert forall|k: Seq<char>| #[trigger] a.dom().contains(k) implies c.dom().contains(k) && a[k] == c[k] by {
        assert(b.dom().contains(k));
        assert(a[k] == b[k]);
        assert(c.dom().contains(k));
        assert(b[k] == c[k]);
    }
}

/// The registry of user-declared types: each canonical path at most once, kept
/// in ascending order of path.
#[derive(Debug)]
pub struct CostomTypes {
    entries: Vec<(String, CustomTypeKind)>,
}

impl CostomTypes {
    pub closed spec fn entries(&self) -> Seq<(String, CustomTypeKind)> {
        self.entries@
    }

    /// The paths, in ascending order.
    pub open spec fn paths(&self) -> Seq<Seq<char>> {
        self.entries().map_values(|e: (String, CustomTypeKind)| e.0@)
    }

    /// Paths strictly ascending, hence unique.
    pub open spec fn wf(&self) -> bool {
        forall|i: int, j: int|
            0 <= i < j < self.entries().len() ==> seq_lt(
                #[trigger] self.entries()[i].0@,
                #[trigger] self.entries()[j].0@,
            )
    }

    pub open spec fn index_of(&self, p: Seq<char>) -> int {
        choose|i: int| 0 <= i < self.entries().len() && self.entries()[i].0@ == p
    }

    /// What is registered, as a map from path to kind.
    pub open spec fn view(&self) -> Map<Seq<char>, CustomTypeKind> {
        Map::new(
            |p: Seq<char>| exists|i: int| 0 <= i < self.entries().len() && self.entries()[i].0@ == p,
            |p: Seq<char>| self.entries()[self.index_of(p)].1,
        )
    }

    pub proof fn lemma_view_at(&self, i: int)
        requires
            self.wf(),
            0 <= i < self.entries().len(),
        ensures
            self@.contains_key(self.entries()[i].0@),
            self.index_of(self.entries()[i].0@) == i,
            self@[self.entries()[i].0@] == self.entries()[i].1,
    {
        let p = self.entries()[i].0@;
        assert(exists|k: int| 0 <= k < self.entries().len() && self.entries()[k].0@ == p);
        let j = self.index_of(p);
        if j != i {
            if j < i {
                lemma_seq_lt_irreflexive(p);
                assert(seq_lt(self.entries()[j].0@, self.entries()[i].0@));
            } else {
                lemma_seq_lt_irreflexive(p);
                assert(seq_lt(self.entries()[i].0@, self.entries()[j].0@));
            }
        }
    }

    proof fn lemma_absent(&self, p: Seq<char>, i: int)
        requires
            self.wf(),
            0 <= i <= self.entries().len(),
            forall|j: int| 0 <= j < i ==> seq_lt(#[trigger] self.entries()[j].0@, p),
            forall|j: int| i <= j < self.entries().len() ==> seq_lt(p, #[trigger] self.entries()[j].0@),
        ensures
            !self@.contains_key(p),
    {
        if self@.contains_key(p) {
            let k = choose|k: int| 0 <= k < self.entries().len() && self.entries()[k].0@ == p;
            lemma_seq_lt_irreflexive(p);
            if k < i {
                assert(seq_lt(self.entries()[k].0@, p));
            } else {
                assert(seq_lt(p, self.entries()[k].0@));
            }
        }
    }

    /// An empty registry.
    pub fn new() -> (r: Self)
        ensures
            r.wf(),
            r@ == Map::<Seq<char>, CustomTypeKind>::empty(),
    {
        let r = CostomTypes { entries: Vec::new() };
        assert(r@ =~= Map::<Seq<char>, CustomTypeKind>::empty());
        r
    }

    /// The number of registered types.
    pub fn len(&self) -> (r: usize)
        ensures
            r == self.entries().len(),
    {
        self.entries.len()
    }

    /// The path and kind at position `i` in ascending order of path.
    pub fn entry(&self, i: usize) -> (r: (&String, &CustomTypeKind))
        requires
            i < self.entries().len(),
        ensures
            *r.0 == self.entries()[i as int].0,
            *r.1 == self.entries()[i as int].1,
    {
        let e = &self.entries[i];
        (&e.0, &e.1)
    }

    /// Looks a path up: `Ok` with its position, or `Err` with the position where
    /// it would be inserted to keep the order.
    fn find(&self, name: &str) -> (r: Result<usize, usize>)
        requires
            self.wf(),
        ensures
            r matches Ok(i) ==> i < self.entries().len() && self.entries()[i as int].0@ == name@,
            r matches Err(i) ==> i <= self.entries().len()
                && (forall|j: int| 0 <= j < i ==> seq_lt(#[trigger] self.entries()[j].0@, name@))
                && (forall|j: int| i <= j < self.entries().len() ==> seq_lt(name@, #[trigger] self.entries()[j].0@)),
    {
        let mut i: usize = 0;
        while i < self.entries.len()
            invariant
                self.wf(),
                i <= self.entries().len(),
                forall|j: int| 0 <= j < i ==> seq_lt(#[trigger] self.entries()[j].0@, name@),
            decreases self.entries().len() - i,
        {
            let c = compare_str(self.entries[i].0.as_str(), name);
            if c == 0 {
                return Ok(i);
            }
            if c == 1 {
                assert forall|j: int| i <= j < self.entries().len() implies seq_lt(name@, #[trigger] self.entries()[j].0@) by {
                    if j > i {
                        lemma_seq_lt_transitive(name@, self.entries()[i as int].0@, self.entries()[j].0@);
                    }
                }
                return Err(i);
            }
            i = i + 1;
        }
        Err(i)
    }

    /// Whether `name` is registered.
    pub fn contains(&self, name: &str) -> (r: bool)
        requires
            self.wf(),
        ensures
            r == self@.contains_key(name@),
    {
        match self.find(name) {
            Ok(i) => {
                proof { self.lemma_view_at(i as int); }
                true
            },
            Err(i) => {
                proof { self.lemma_absent(name@, i as int); }
                false
            },
        }
    }

    /// The kind registered under `name`, if any.
    pub fn get(&self, name: &str) -> (r: Option<&CustomTypeKind>)
        requires
            self.wf(),
        ensures
            r is Some <==> self@.contains_key(name@),
            r is Some ==> *r->Some_0 == self@[name@],
    {
        match self.find(name) {
            Ok(i) => {
                proof { self.lemma_view_at(i as int); }
                Some(&self.entries[i].1)
            },
            Err(i) => {
                proof { self.lemma_absent(name@, i as int); }
                None
            },
        }
    }

    proof fn lemma_view_insert(old_reg: &Self, new_reg: &Self, i: int, e: (String, CustomTypeKind))
        requires
            old_reg.wf(),
            new_reg.wf(),
            0 <= i <= old_reg.entries().len(),
            new_reg.entries() == old_reg.entries().insert(i, e),
        ensures
            new_reg@ == old_reg@.insert(e.0@, e.1),
    {
        let n = old_reg.entries().len();
        assert forall|p: Seq<char>| #[trigger] new_reg@.contains_key(p) <==> (old_reg@.contains_key(p) || p == e.0@) by {
            if new_reg@.contains_key(p) {
                let k = new_reg.index_of(p);
                if k < i {
                    assert(old_reg.entries()[k] == new_reg.entries()[k]);
                } else if k > i {
                    assert(old_reg.entries()[k - 1] == new_reg.entries()[k]);
                }
            }
            if old_reg@.contains_key(p) {
                let k = old_reg.index_of(p);
                if k < i {
                    assert(old_reg.entries()[k] == new_reg.entries()[k]);
                } else {
                    assert(old_reg.entries()[k] == new_reg.entries()[k + 1]);
                }
            }
            if p == e.0@ {
                assert(new_reg.entries()[i] == e);
            }
        }
        assert forall|p: Seq<char>| #[trigger] new_reg@.contains_key(p) implies new_reg@[p] == old_reg@.insert(e.0@, e.1)[p] by {
            let k = new_reg.index_of(p);
            new_reg.lemma_view_at(k);
            if k < i {
                assert(old_reg.entries()[k] == new_reg.entries()[k]);
                old_reg.lemma_view_at(k);
                lemma_seq_lt_irreflexive(p);
                assert(seq_lt(new_reg.entries()[k].0@, new_reg.entries()[i].0@));
            } else if k > i {
                assert(old_reg.entries()[k - 1] == new_reg.entries()[k]);
                old_reg.lemma_view_at(k - 1);
                lemma_seq_lt_irreflexive(p);
                assert(seq_lt(new_reg.entries()[i].0@, new_reg.entries()[k].0@));
            }
        }
        assert(new_reg@ =~= old_reg@.insert(e.0@, e.1));
    }

    proof fn lemma_view_update(old_reg: &Self, new_reg: &Self, i: int, e: (String, CustomTypeKind))
        requires
            old_reg.wf(),
            0 <= i < old_reg.entries().len(),
            e.0@ == old_reg.entries()[i].0@,
            new_reg.entries() == old_reg.entries().update(i, e),
        ensures
            new_reg.wf(),
            new_reg@ == old_reg@.insert(e.0@, e.1),
    {
        assert forall|a: int, b: int| 0 <= a < b < new_reg.entries().len() implies seq_lt(
            #[trigger] new_reg.entries()[a].0@, #[trigger] new_reg.entries()[b].0@) by {
            assert(seq_lt(old_reg.entries()[a].0@, old_reg.entries()[b].0@));
        }
        assert forall|p: Seq<char>| #[trigger] new_reg@.contains_key(p) <==> old_reg@.contains_key(p) by {
            if new_reg@.contains_key(p) {
                let k = new_reg.index_of(p);
                assert(old_reg.entries()[k].0@ == new_reg.entries()[k].0@);
            }
            if old_reg@.contains_key(p) {
                let k = old_reg.index_of(p);
                assert(old_reg.entries()[k].0@ == new_reg.entries()[k].0@);
            }
        }
        old_reg.lemma_view_at(i);
        assert forall|p: Seq<char>| #[trigger] new_reg@.contains_key(p) implies new_reg@[p] == old_reg@.insert(e.0@, e.1)[p] by {
            let k = new_reg.index_of(p);
            new_reg.lemma_view_at(k);
            if k != i {
                old_reg.lemma_view_at(k);
            }
        }
        assert(new_reg@ =~= old_reg@.insert(e.0@, e.1));
    }

    /// Registers `name` and returns the reference to it. Where `name` is there
    /// already, nothing changes and the builder is not run. Otherwise a
    /// placeholder stands at `name` while the builder runs, so that a type that
    /// refers to itself finds it and does not recurse; then the built kind
    /// replaces the placeholder.
    pub fn register<B: BuildKind>(&mut self, name: String, builder: B) -> (r: Ty)
        requires
            old(self).wf(),
        ensures
            final(self).wf(),
            r matches Ty::CustomType(p) && p@ == name@,
            old(self)@.contains_key(name@) ==> final(self)@ == old(self)@,
            !old(self)@.contains_key(name@) ==> final(self)@[name@] == builder.kind_of(),
            final(self)@.contains_key(name@),
            old(self)@.submap_of(final(self)@),
            final(self)@.dom().subset_of(old(self)@.dom().insert(name@).union(builder.adds())),
    {
        let ghost start = *self;
        match self.find(name.as_str()) {
            Ok(i) => {
                proof { self.lemma_view_at(i as int); }
            },
            Err(i) => {
                proof { self.lemma_absent(name@, i as int); }
                let ghost before = *self;
                let placeholder = CustomTypeKind::default();
                self.entries.insert(i, (name.clone(), placeholder));
                proof {
                    let now = *self;
                    assert forall|a: int, b: int| 0 <= a < b < now.entries().len() implies seq_lt(
                        #[trigger] now.entries()[a].0@, #[trigger] now.entries()[b].0@) by {
                        if a < i && b > i {
                            assert(now.entries()[b] == before.entries()[b - 1]);
                            assert(seq_lt(before.entries()[a].0@, name@));
                            assert(seq_lt(name@, before.entries()[b - 1].0@));
                            lemma_seq_lt_transitive(before.entries()[a].0@, name@, before.entries()[b - 1].0@);
                        } else if a < i && b < i {
                            assert(seq_lt(before.entries()[a].0@, before.entries()[b].0@));
                        } else if a > i {
                            assert(seq_lt(before.entries()[a - 1].0@, before.entries()[b - 1].0@));
                        } else if a < i && b == i {
                            assert(seq_lt(before.entries()[a].0@, name@));
                        } else {
                            assert(seq_lt(name@, before.entries()[b - 1].0@));
                        }
                    }
                    Self::lemma_view_insert(&before, &now, i as int, (name, placeholder));
                }
                let ghost mid = *self;
                proof { assert(self@[name@] == placeholder); }
                let kind = builder.build(name.as_str(), self);
                match self.find(name.as_str()) {
                    Ok(j) => {
                        let ghost built = *self;
                        self.entries.set(j, (name.clone(), kind));
                        proof {
                            Self::lemma_view_update(&built, self, j as int, (name, kind));
                            assert forall|p: Seq<char>| #[trigger] start@.contains_key(p) implies
                                self@.contains_key(p) && self@[p] == start@[p] by {
                                assert(p != name@);
                                assert(mid@.contains_key(p) && mid@[p] == start@[p]);
                                assert(mid@.submap_of(built@));
                                assert(mid@.dom().contains(p));
                                assert(built@.contains_key(p) && built@[p] == mid@[p]);
                            }
                        }
                    },
                    Err(j) => {
                        proof {
                            assert(mid@.contains_key(name@));
                            self.lemma_absent(name@, j as int);
                        }
                    },
                }
            },
        }
        Ty::CustomType(name)
    }
}


/// Strictly ascending.
pub open spec fn ascending(s: Seq<Seq<char>>) -> bool {
    forall|i: int, j: int| 0 <= i < j < s.len() ==> seq_lt(#[trigger] s[i], #[trigger] s[j])
}

/// Two strictly ascending lists of the same paths are the same list.
pub proof fn lemma_ascending_eq(s: Seq<Seq<char>>, t: Seq<Seq<char>>)
    requires
        ascending(s),
        ascending(t),
        s.to_set() == t.to_set(),
    ensures
        s == t,
    decreases s.len(),
{
    if s.len() == 0 {
        if t.len() > 0 {
            assert(t.to_set().contains(t[0]));
        }
        assert(s =~= t);
    } else {
        assert(s.to_set().contains(s[0]));
        assert(t.len() > 0);
        assert(t.to_set().contains(t[0]));
        let k = choose|k: int| 0 <= k < s.len() && s[k] == t[0];
        let m = choose|m: int| 0 <= m < t.len() && t[m] == s[0];
        if s[0] != t[0] {
            assert(k > 0 && m > 0);
            assert(seq_lt(s[0], s[k]));
            assert(seq_lt(t[0], t[m]));
            lemma_seq_lt_total(s[0], t[0]);
        }
        let s1 = s.drop_first();
        let t1 = t.drop_first();
        assert forall|x: Seq<char>| s1.to_set().contains(x) implies t1.to_set().contains(x) by {
            let i = choose|i: int| 0 <= i < s1.len() && s1[i] == x;
            assert(s.to_set().contains(s[i + 1]));
            let j = choose|j: int| 0 <= j < t.len() && t[j] == x;
            assert(seq_lt(s[0], s[i + 1]));
            lemma_seq_lt_irreflexive(x);
            if j == 0 {
                assert(false);
            }
            assert(t1[j - 1] == x);
        }
        assert forall|x: Seq<char>| t1.to_set().contains(x) implies s1.to_set().contains(x) by {
            let i = choose|i: int| 0 <= i < t1.len() && t1[i] == x;
            assert(t.to_set().contains(t[i + 1]));
            let j = choose|j: int| 0 <= j < s.len() && s[j] == x;
            assert(seq_lt(t[0], t[i + 1]));
            lemma_seq_lt_irreflexive(x);
            if j == 0 {
                assert(false);
            }
            assert(s1[j - 1] == x);
        }
        assert(s1.to_set() =~= t1.to_set());
        assert forall|i: int, j: int| 0 <= i < j < s1.len() implies seq_lt(#[trigger] s1[i], #[trigger] s1[j]) by {
            assert(seq_lt(s[i + 1], s[j + 1]));
        }
        assert forall|i: int, j: int| 0 <= i < j < t1.len() implies seq_lt(#[trigger] t1[i], #[trigger] t1[j]) by {
            assert(seq_lt(t[i + 1], t[j + 1]));
        }
        lemma_ascending_eq(s1, t1);
        assert(s =~= seq![s[0]] + s1);
        assert(t =~= seq![t[0]] + t1);
    }
}

impl CostomTypes {
    proof fn lemma_paths_ascending(&self)
        requires
            self.wf(),
        ensures
            ascending(self.paths()),
    {
        assert forall|i: int, j: int| 0 <= i < j < self.paths().len() implies seq_lt(#[trigger] self.paths()[i], #[trigger] self.paths()[j]) by {
            assert(seq_lt(self.entries()[i].0@, self.entries()[j].0@));
        }
    }

    /// A well-formed registry holds each path once: registering a type whose
    /// fields refer back to it leaves no second entry.
    pub proof fn lemma_paths_unique(&self)
        requires
            self.wf(),
        ensures
            self.paths().no_duplicates(),
    {
        assert forall|i: int, j: int| 0 <= i < self.paths().len() && 0 <= j < self.paths().len() && i != j
            implies self.paths()[i] != self.paths()[j] by {
            lemma_seq_lt_irreflexive(self.paths()[i]);
            if i < j {
                assert(seq_lt(self.entries()[i].0@, self.entries()[j].0@));
            } else {
                assert(seq_lt(self.entries()[j].0@, self.entries()[i].0@));
            }
        }
    }

    /// Two registries that hold the same paths list them in the same order,
    /// so naming their paths gives the same identifiers, however the types
    /// were registered.
    pub proof fn lemma_same_paths_same_order(a: &Self, b: &Self)
        requires
            a.wf(),
            b.wf(),
            a@.dom() == b@.dom(),
        ensures
            a.paths() == b.paths(),
            identifiers(a.paths()) == identifiers(b.paths()),
    {
        a.lemma_paths_ascending();
        b.lemma_paths_ascending();
        assert forall|p: Seq<char>| a.paths().to_set().contains(p) <==> b.paths().to_set().contains(p) by {
            if a.paths().to_set().contains(p) {
                let i = choose|i: int| 0 <= i < a.paths().len() && a.paths()[i] == p;
                assert(a.entries()[i].0@ == p);
                assert(a@.contains_key(p));
                let k = choose|k: int| 0 <= k < b.entries().len() && b.entries()[k].0@ == p;
                assert(b.paths()[k] == p);
            }
            if b.paths().to_set().contains(p) {
                let i = choose|i: int| 0 <= i < b.paths().len() && b.paths()[i] == p;
                assert(b.entries()[i].0@ == p);
                assert(b@.contains_key(p));
                let k = choose|k: int| 0 <= k < a.entries().len() && a.entries()[k].0@ == p;
                assert(a.paths()[k] == p);
            }
        }
        assert(a.paths().to_set() =~= b.paths().to_set());
        lemma_ascending_eq(a.paths(), b.paths());
    }
}

} // verus!
