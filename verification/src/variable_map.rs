//! A mapping from variable names to values.
//!
//! The mapping is kept as a list of variables in which no name occurs twice.
//! Its view is a `Map` from names to values; the order of the list is the
//! order in which the names were first bound, and it shows only in
//! `to_vec`.

use crate::types::{views_of, Variable};
use vstd::prelude::*;

verus! {

/// The map obtained from `base` by binding each pair of `vars` in turn, so
/// that a later pair overwrites an earlier one of the same name.
pub open spec fn insert_all(
    base: Map<Seq<char>, Seq<char>>,
    vars: Seq<(Seq<char>, Seq<char>)>,
) -> Map<Seq<char>, Seq<char>>
    decreases vars.len(),
{
    if vars.len() == 0 {
        base
    } else {
        insert_all(base, vars.drop_last()).insert(vars.last().0, vars.last().1)
    }
}

/// The map that binds each pair of `vars`, the last occurrence of a name
/// winning.
pub open spec fn bindings(vars: Seq<(Seq<char>, Seq<char>)>) -> Map<Seq<char>, Seq<char>> {
    insert_all(Map::empty(), vars)
}

/// No name occurs twice in `vars`.
pub open spec fn names_distinct(vars: Seq<(Seq<char>, Seq<char>)>) -> bool {
    forall|i: int, j: int| 0 <= i < j < vars.len() ==> vars[i].0 != vars[j].0
}

/// Whether some pair of `vars` has the name `name`.
pub open spec fn binds(vars: Seq<(Seq<char>, Seq<char>)>, name: Seq<char>) -> bool {
    exists|i: int| 0 <= i < vars.len() && #[trigger] vars[i].0 == name
}

/// The keys of `insert_all(base, vars)` are those of `base` and the names
/// in `vars`; a key that `vars` does not name keeps its value.
pub proof fn lemma_insert_all_keys(
    base: Map<Seq<char>, Seq<char>>,
    vars: Seq<(Seq<char>, Seq<char>)>,
    name: Seq<char>,
)
    ensures
        insert_all(base, vars).contains_key(name) <==> base.contains_key(name) || binds(
            vars,
            name,
        ),
        !binds(vars, name) ==> insert_all(base, vars)[name] == base[name],
    decreases vars.len(),
{
    if vars.len() > 0 {
        let init = vars.drop_last();
        lemma_insert_all_keys(base, init, name);
        if binds(vars, name) {
            let i = choose|i: int| 0 <= i < vars.len() && #[trigger] vars[i].0 == name;
            if i < init.len() {
                assert(init[i].0 == name);
            }
        }
        if binds(init, name) {
            let i = choose|i: int| 0 <= i < init.len() && #[trigger] init[i].0 == name;
            assert(vars[i].0 == name);
        }
        if vars.last().0 == name {
            assert(vars[vars.len() - 1].0 == name);
        }
    }
}

/// In `insert_all(base, vars)` a name has the value of its last occurrence
/// in `vars`.
pub proof fn lemma_insert_all_last_wins(
    base: Map<Seq<char>, Seq<char>>,
    vars: Seq<(Seq<char>, Seq<char>)>,
    i: int,
)
    requires
        0 <= i < vars.len(),
        forall|j: int| i < j < vars.len() ==> vars[j].0 != vars[i].0,
    ensures
        insert_all(base, vars).contains_key(vars[i].0),
        insert_all(base, vars)[vars[i].0] == vars[i].1,
    decreases vars.len(),
{
    if i < vars.len() - 1 {
        let init = vars.drop_last();
        assert(init[i] == vars[i]);
        assert forall|j: int| i < j < init.len() implies init[j].0 != init[i].0 by {
            assert(init[j] == vars[j]);
        }
        lemma_insert_all_last_wins(base, init, i);
    }
}

/// Binding a list of distinct names to the empty map gives as many keys as
/// the list is long.
pub proof fn lemma_bindings_len(vars: Seq<(Seq<char>, Seq<char>)>)
    requires
        names_distinct(vars),
    ensures
        bindings(vars).dom().finite(),
        bindings(vars).dom().len() == vars.len(),
    decreases vars.len(),
{
    if vars.len() > 0 {
        let init = vars.drop_last();
        assert(names_distinct(init)) by {
            assert forall|i: int, j: int| 0 <= i < j < init.len() implies init[i].0
                != init[j].0 by {
                assert(init[i] == vars[i] && init[j] == vars[j]);
            }
        }
        lemma_bindings_len(init);
        lemma_insert_all_keys(Map::empty(), init, vars.last().0);
        if binds(init, vars.last().0) {
            let i = choose|i: int| 0 <= i < init.len() && #[trigger] init[i].0 == vars.last().0;
            assert(vars[i].0 == vars[vars.len() - 1].0);
        }
    }
}

/// Binding one more pair is inserting it.
pub proof fn lemma_insert_all_push(
    base: Map<Seq<char>, Seq<char>>,
    vars: Seq<(Seq<char>, Seq<char>)>,
    pair: (Seq<char>, Seq<char>),
)
    ensures
        insert_all(base, vars.push(pair)) == insert_all(base, vars).insert(pair.0, pair.1),
{
    assert(vars.push(pair).drop_last() =~= vars);
}

/// Binding a list over any base is the union of the base with what the
/// list binds, in which the list wins.
pub proof fn lemma_insert_all_union(
    base: Map<Seq<char>, Seq<char>>,
    vars: Seq<(Seq<char>, Seq<char>)>,
)
    ensures
        insert_all(base, vars) == base.union_prefer_right(bindings(vars)),
    decreases vars.len(),
{
    if vars.len() == 0 {
        assert(base.union_prefer_right(Map::empty()) =~= base);
    } else {
        lemma_insert_all_union(base, vars.drop_last());
        let l = vars.last();
        assert(base.union_prefer_right(bindings(vars.drop_last())).insert(l.0, l.1)
            =~= base.union_prefer_right(bindings(vars.drop_last()).insert(l.0, l.1)));
    }
}

/// `vars` lists the bindings of `map`, each once: a set of pairs in some
/// order.
pub open spec fn lists_exactly(
    vars: Seq<(Seq<char>, Seq<char>)>,
    map: Map<Seq<char>, Seq<char>>,
) -> bool {
    &&& names_distinct(vars)
    &&& forall|i: int|
        0 <= i < vars.len() ==> map.contains_key((#[trigger] vars[i]).0) && map[vars[i].0]
            == vars[i].1
    &&& forall|name: Seq<char>| #[trigger] map.contains_key(name) ==> binds(vars, name)
}

/// Binding a list of the bindings of a map, in whatever order, gives the
/// map.
pub proof fn lemma_bindings_of_list(
    vars: Seq<(Seq<char>, Seq<char>)>,
    map: Map<Seq<char>, Seq<char>>,
)
    requires
        lists_exactly(vars, map),
    ensures
        bindings(vars) == map,
{
    let bound = bindings(vars);
    assert forall|name: Seq<char>| bound.contains_key(name) <==> map.contains_key(name) by {
        lemma_insert_all_keys(Map::empty(), vars, name);
        if binds(vars, name) {
            let i = choose|i: int| 0 <= i < vars.len() && #[trigger] vars[i].0 == name;
            assert(map.contains_key(vars[i].0));
        }
    }
    assert forall|name: Seq<char>| bound.contains_key(name) implies bound[name] == map[name] by {
        lemma_insert_all_keys(Map::empty(), vars, name);
        let i = choose|i: int| 0 <= i < vars.len() && #[trigger] vars[i].0 == name;
        lemma_insert_all_last_wins(Map::empty(), vars, i);
        assert(map[vars[i].0] == vars[i].1);
    }
    assert(bound =~= map);
}

/// A list of distinct names lists the map that binding it gives.
pub proof fn lemma_list_of_bindings(vars: Seq<(Seq<char>, Seq<char>)>)
    requires
        names_distinct(vars),
    ensures
        lists_exactly(vars, bindings(vars)),
{
    let map = bindings(vars);
    assert forall|i: int| 0 <= i < vars.len() implies map.contains_key((#[trigger] vars[i]).0)
        && map[vars[i].0] == vars[i].1 by {
        lemma_insert_all_last_wins(Map::empty(), vars, i);
    }
    assert forall|name: Seq<char>| #[trigger] map.contains_key(name) implies binds(vars, name) by {
        lemma_insert_all_keys(Map::empty(), vars, name);
    }
}

/// A mapping from variable names to values, each name bound once.
#[derive(Debug)]
pub struct VariableMap {
    entries: Vec<Variable>,
}

impl View for VariableMap {
    type V = Map<Seq<char>, Seq<char>>;

    /// The mapping from each bound name to its value.
    closed spec fn view(&self) -> Map<Seq<char>, Seq<char>> {
        bindings(views_of(self.entries@))
    }
}

impl VariableMap {
    #[verifier::type_invariant]
    spec fn names_are_distinct(&self) -> bool {
        names_distinct(views_of(self.entries@))
    }

    /// The empty mapping.
    pub fn new() -> (res: Self)
        ensures
            res@ == Map::<Seq<char>, Seq<char>>::empty(),
    {
        VariableMap { entries: Vec::new() }
    }

    /// The position of `name` among the entries, if it is bound.
    fn position(&self, name: &str) -> (at: Option<usize>)
        ensures
            match at {
                Some(i) => i < self.entries.len() && self.entries@[i as int].name@ == name@,
                None => !binds(views_of(self.entries@), name@),
            },
    {
        let key = name.to_owned();
        let mut i: usize = 0;
        while i < self.entries.len()
            invariant
                i <= self.entries.len(),
                key@ == name@,
                forall|k: int| 0 <= k < i ==> self.entries@[k].name@ != name@,
            decreases self.entries.len() - i,
        {
            if self.entries[i].name == key {
                return Some(i);
            }
            i = i + 1;
        }
        proof {
            let vars = views_of(self.entries@);
            if binds(vars, name@) {
                let k = choose|k: int| 0 <= k < vars.len() && #[trigger] vars[k].0 == name@;
                assert(self.entries@[k].name@ == name@);
            }
        }
        None
    }

    /// Binds `name` to `value`, replacing what `name` was bound to.
    pub fn insert(&mut self, name: String, value: String)
        ensures
            final(self)@ == old(self)@.insert(name@, value@),
    {
        proof {
            use_type_invariant(&*self);
        }
        let found = self.position(name.as_str());
        let ghost before = views_of(self.entries@);
        let ghost pair = (name@, value@);
        let mut entries: Vec<Variable> = Vec::new();
        std::mem::swap(&mut entries, &mut self.entries);
        match found {
            Some(i) => {
                entries.set(i, Variable { name, value });
                proof {
                    let after = views_of(entries@);
                    assert(after =~= before.update(i as int, pair));
                    lemma_update_binding(before, i as int, pair.1);
                }
            },
            None => {
                entries.push(Variable { name, value });
                proof {
                    let after = views_of(entries@);
                    assert(after =~= before.push(pair));
                    lemma_insert_all_push(Map::empty(), before, pair);
                    assert(names_distinct(after)) by {
                        assert forall|i: int, j: int| 0 <= i < j < after.len() implies after[i].0
                            != after[j].0 by {
                            if j == before.len() {
                                assert(before[i].0 == after[i].0);
                            } else {
                                assert(before[i].0 == after[i].0 && before[j].0 == after[j].0);
                            }
                        }
                    }
                }
            },
        }
        self.entries = entries;
    }

    /// The value that `name` is bound to, if any.
    pub fn get(&self, name: &str) -> (res: Option<&String>)
        ensures
            match res {
                Some(value) => self@.contains_key(name@) && value@ == self@[name@],
                None => !self@.contains_key(name@),
            },
    {
        proof {
            use_type_invariant(self);
            lemma_insert_all_keys(Map::empty(), views_of(self.entries@), name@);
        }
        match self.position(name) {
            Some(i) => {
                proof {
                    let vars = views_of(self.entries@);
                    assert(vars[i as int].0 == name@);
                    lemma_insert_all_last_wins(Map::empty(), vars, i as int);
                }
                Some(&self.entries[i].value)
            },
            None => None,
        }
    }

    /// Whether `name` is bound.
    pub fn contains_key(&self, name: &str) -> (res: bool)
        ensures
            res == self@.contains_key(name@),
    {
        self.get(name).is_some()
    }

    /// The number of bound names.
    pub fn len(&self) -> (res: usize)
        ensures
            self@.dom().finite(),
            res == self@.dom().len(),
    {
        proof {
            use_type_invariant(self);
            lemma_bindings_len(views_of(self.entries@));
        }
        self.entries.len()
    }

    /// Whether no name is bound.
    pub fn is_empty(&self) -> (res: bool)
        ensures
            res == (self@ == Map::<Seq<char>, Seq<char>>::empty()),
    {
        proof {
            use_type_invariant(self);
            let vars = views_of(self.entries@);
            lemma_bindings_len(vars);
            if vars.len() == 0 {
                assert(self@ =~= Map::<Seq<char>, Seq<char>>::empty());
            } else {
                lemma_insert_all_last_wins(Map::empty(), vars, vars.len() - 1);
            }
        }
        self.entries.len() == 0
    }

    /// Binds each variable of `vars` in turn.
    pub fn insert_each(&mut self, vars: &Vec<Variable>)
        ensures
            final(self)@ == insert_all(old(self)@, views_of(vars@)),
    {
        let mut i: usize = 0;
        while i < vars.len()
            invariant
                i <= vars.len(),
                self@ == insert_all(old(self)@, views_of(vars@).take(i as int)),
            decreases vars.len() - i,
        {
            proof {
                let all = views_of(vars@);
                assert(all.take(i + 1) =~= all.take(i as int).push(all[i as int]));
                lemma_insert_all_push(old(self)@, all.take(i as int), all[i as int]);
            }
            self.insert(vars[i].name.clone(), vars[i].value.clone());
            i = i + 1;
        }
        proof {
            assert(views_of(vars@).take(vars.len() as int) =~= views_of(vars@));
        }
    }

    /// The bindings as a list: each bound name once, with its value.
    pub fn to_vec(&self) -> (res: Vec<Variable>)
        ensures
            lists_exactly(views_of(res@), self@),
            self@.dom().finite(),
            res.len() == self@.dom().len(),
    {
        proof {
            use_type_invariant(self);
            lemma_bindings_len(views_of(self.entries@));
            lemma_list_of_bindings(views_of(self.entries@));
        }
        let mut res: Vec<Variable> = Vec::new();
        let mut i: usize = 0;
        while i < self.entries.len()
            invariant
                i <= self.entries.len(),
                views_of(res@) == views_of(self.entries@).take(i as int),
            decreases self.entries.len() - i,
        {
            res.push(self.entries[i].clone());
            proof {
                let all = views_of(self.entries@);
                assert(views_of(res@) =~= all.take(i as int).push(all[i as int]));
                assert(all.take(i + 1) =~= all.take(i as int).push(all[i as int]));
            }
            i = i + 1;
        }
        proof {
            let all = views_of(self.entries@);
            assert(all.take(self.entries.len() as int) =~= all);
        }
        res
    }
}

impl Clone for VariableMap {
    /// An independent copy with the same bindings.
    fn clone(&self) -> (res: Self)
        ensures
            res@ == self@,
    {
        let entries = self.to_vec();
        proof {
            lemma_bindings_of_list(views_of(entries@), self@);
        }
        VariableMap { entries }
    }
}

/// Replacing the value of the pair at `i` rebinds its name and keeps the
/// names distinct.
proof fn lemma_update_binding(vars: Seq<(Seq<char>, Seq<char>)>, i: int, value: Seq<char>)
    requires
        names_distinct(vars),
        0 <= i < vars.len(),
    ensures
        names_distinct(vars.update(i, (vars[i].0, value))),
        bindings(vars.update(i, (vars[i].0, value))) == bindings(vars).insert(vars[i].0, value),
{
    let name = vars[i].0;
    let after = vars.update(i, (name, value));
    assert(names_distinct(after)) by {
        assert forall|a: int, b: int| 0 <= a < b < after.len() implies after[a].0 != after[b].0 by {
            assert(after[a].0 == vars[a].0 && after[b].0 == vars[b].0);
        }
    }
    let m0 = bindings(vars);
    let m1 = bindings(after);
    assert forall|k: Seq<char>| m1.contains_key(k) <==> m0.insert(name, value).contains_key(k) by {
        lemma_insert_all_keys(Map::empty(), vars, k);
        lemma_insert_all_keys(Map::empty(), after, k);
        if binds(vars, k) {
            let j = choose|j: int| 0 <= j < vars.len() && #[trigger] vars[j].0 == k;
            assert(after[j].0 == k);
        }
        if binds(after, k) {
            let j = choose|j: int| 0 <= j < after.len() && #[trigger] after[j].0 == k;
            assert(vars[j].0 == k);
        }
    }
    assert forall|k: Seq<char>| m1.contains_key(k) implies m1[k] == m0.insert(name, value)[k] by {
        lemma_insert_all_keys(Map::empty(), after, k);
        let j = choose|j: int| 0 <= j < after.len() && #[trigger] after[j].0 == k;
        lemma_insert_all_last_wins(Map::empty(), after, j);
        if j != i {
            assert(vars[j] == after[j]);
            lemma_insert_all_last_wins(Map::empty(), vars, j);
        }
    }
    assert(m1 =~= m0.insert(name, value));
}

} // verus!
