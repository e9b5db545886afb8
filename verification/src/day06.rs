//! Orbit bookkeeping: each body orbits exactly one parent, the map of
//! parents forms a tree rooted at the one body that orbits nothing, and
//! the puzzle counts direct and indirect orbits and orbital transfers.

use vstd::prelude::*;

use crate::errors::Fail;
use crate::text::{find_sep, lemma_find_sep_converse};

verus! {

/// The parent recorded for `name`, the latest entry winning.
pub open spec fn assoc_parent(m: Seq<(Seq<char>, Seq<char>)>, name: Seq<char>) -> Option<
    Seq<char>,
>
    decreases m.len(),
{
    if m.len() == 0 {
        None
    } else if m.last().0 == name {
        Some(m.last().1)
    } else {
        assoc_parent(m.drop_last(), name)
    }
}

/// The number of hops from `name` up to a root, when a root is reached
/// within `fuel` hops.
pub open spec fn chain_len(
    m: Seq<(Seq<char>, Seq<char>)>,
    name: Seq<char>,
    fuel: nat,
) -> Option<nat>
    decreases fuel,
{
    if fuel == 0 {
        None
    } else {
        match assoc_parent(m, name) {
            None => Some(0),
            Some(parent) => match chain_len(m, parent, (fuel - 1) as nat) {
                Some(k) => Some(k + 1),
                None => None,
            },
        }
    }
}

/// The map from each body to the one it orbits.
pub struct ParentMap {
    entries: Vec<(String, String)>,
}

impl ParentMap {
    /// The child-to-parent entries, in insertion order.
    pub closed spec fn entries(&self) -> Seq<(Seq<char>, Seq<char>)> {
        self.entries@.map_values(|e: (String, String)| (e.0@, e.1@))
    }

    /// Whether every body's parent chain reaches a root: no orbit cycles.
    pub open spec fn acyclic(&self) -> bool {
        forall|name: Seq<char>|
            #[trigger] chain_len(self.entries(), name, self.entries().len() + 1) is Some
    }

    /// The parent of `name`, if one is recorded.
    pub fn parent_of(&self, name: &String) -> (r: Option<&String>)
        ensures
            match r {
                Some(p) => assoc_parent(self.entries(), name@) == Some(p@),
                None => assoc_parent(self.entries(), name@) is None,
            },
    {
        let n = self.entries.len();
        let mut i: usize = n;
        proof {
            assert(self.entries().take(n as int) =~= self.entries());
        }
        while i > 0
            invariant
                i <= n,
                n == self.entries().len(),
                assoc_parent(self.entries(), name@) == assoc_parent(
                    self.entries().take(i as int),
                    name@,
                ),
            decreases i,
        {
            proof {
                let t = self.entries().take(i as int);
                assert(t.last() == self.entries()[i - 1]);
                assert(t.drop_last() =~= self.entries().take(i as int - 1));
            }
            if self.entries[i - 1].0.eq(name) {
                return Some(&self.entries[i - 1].1);
            }
            i = i - 1;
        }
        proof {
            assert(self.entries().take(0) =~= Seq::<(Seq<char>, Seq<char>)>::empty());
        }
        None
    }

    /// How many entries the map holds.
    pub fn len(&self) -> (r: usize)
        ensures
            r == self.entries().len(),
    {
        self.entries.len()
    }

    /// The number of hops from `name` up to a root.
    pub fn count_parents(&self, name: &String) -> (r: usize)
        requires
            self.acyclic(),
            self.entries().len() <= 1_000_000,
        ensures
            Some(r as nat) == chain_len(self.entries(), name@, self.entries().len() + 1),
    {
        let fuel = self.entries.len() + 1;
        let mut current: String = name.clone();
        let mut count: usize = 0;
        while count < fuel
            invariant
                count < fuel,
                fuel == self.entries().len() + 1,
                self.acyclic(),
                ({
                    let total = chain_len(self.entries(), name@, fuel as nat);
                    let rest = chain_len(self.entries(), current@, (fuel - count) as nat);
                    total is Some && rest is Some && total.unwrap() == count + rest.unwrap()
                }),
            decreases fuel - count,
        {
            proof {
                lemma_chain_len_saturates(
                    self.entries(),
                    current@,
                    (fuel - count) as nat,
                    (self.entries().len() + 1) as nat,
                );
            }
            match self.parent_of(&current) {
                None => {
                    return count;
                },
                Some(p) => {
                    current = p.clone();
                    count = count + 1;
                },
            }
        }
        proof {
            // unreachable: an acyclic chain ends within the fuel
            assert(false);
        }
        0
    }
}

/// Once a chain resolves, more fuel does not change its length; and a
/// chain that resolves with the canonical fuel resolves with any smaller
/// fuel that exceeds its length.
proof fn lemma_chain_len_saturates(
    m: Seq<(Seq<char>, Seq<char>)>,
    name: Seq<char>,
    fuel1: nat,
    fuel2: nat,
)
    requires
        chain_len(m, name, fuel1) is Some,
    ensures
        fuel2 >= fuel1 ==> chain_len(m, name, fuel2) == chain_len(m, name, fuel1),
    decreases fuel1,
{
    if fuel1 > 0 && fuel2 >= fuel1 {
        match assoc_parent(m, name) {
            None => {},
            Some(parent) => {
                lemma_chain_len_saturates(m, parent, (fuel1 - 1) as nat, (fuel2 - 1) as nat);
            },
        }
    }
}

/// The set of bodies seen in the orbit list, each once.
pub struct BodySet {
    names: Vec<String>,
}

impl BodySet {
    /// The bodies, in first-seen order.
    pub closed spec fn names(&self) -> Seq<Seq<char>> {
        self.names@.map_values(|s: String| s@)
    }

    /// How many bodies there are.
    pub fn len(&self) -> (r: usize)
        ensures
            r == self.names().len(),
    {
        self.names.len()
    }

    /// The body at position `i`.
    pub fn at(&self, i: usize) -> (r: &String)
        requires
            i < self.names().len(),
        ensures
            r@ == self.names()[i as int],
    {
        &self.names[i]
    }

    fn contains(&self, name: &String) -> (r: bool)
        ensures
            r == self.names().contains(name@),
    {
        let n = self.names.len();
        let mut i: usize = 0;
        while i < n
            invariant
                i <= n,
                n == self.names().len(),
                forall|j: int| 0 <= j < i ==> self.names()[j] != name@,
            decreases n - i,
        {
            if self.names[i].eq(name) {
                proof {
                    assert(self.names()[i as int] == name@);
                }
                return true;
            }
            i = i + 1;
        }
        proof {
            if self.names().contains(name@) {
                let j = choose|j: int| 0 <= j < self.names().len() && self.names()[j] == name@;
                assert(false);
            }
        }
        false
    }

    fn insert(&mut self, name: &String)
        ensures
            forall|s: Seq<char>|
                final(self).names().contains(s) <==> (old(self).names().contains(s) || s
                    == name@),
    {
        if !self.contains(name) {
            let ghost before = self.names();
            self.names.push(name.clone());
            proof {
                assert(self.names() =~= before.push(name@));
                assert forall|s: Seq<char>| #[trigger] self.names().contains(s) <==> (
                before.contains(s) || s == name@) by {
                    if self.names().contains(s) {
                        let k = choose|k: int|
                            0 <= k < self.names().len() && self.names()[k] == s;
                        if k < before.len() {
                            assert(before[k] == s);
                        }
                    }
                    if before.contains(s) {
                        let k = choose|k: int| 0 <= k < before.len() && before[k] == s;
                        assert(self.names()[k] == s);
                    }
                    assert(self.names()[before.len() as int] == name@);
                }
            }
        }
    }
}

/// Build the parent map and the set of all bodies from the orbit pairs:
/// each pair records that its second body orbits its first.
pub fn build_tree(orbits: &[(String, String)]) -> (r: (ParentMap, BodySet))
    ensures
        r.0.entries().len() == orbits@.len(),
        forall|i: int|
            0 <= i < orbits@.len() ==> r.0.entries()[i] == (
            (#[trigger] orbits@[i]).1@,
            orbits@[i].0@,
            ),
        forall|s: Seq<char>|
            r.1.names().contains(s) <==> exists|i: int|
                0 <= i < orbits@.len() && ((#[trigger] orbits@[i]).0@ == s || orbits@[i].1@ == s),
{
    let mut parent_of = ParentMap { entries: Vec::new() };
    let mut i: usize = 0;
    while i < orbits.len()
        invariant
            i <= orbits@.len(),
            parent_of.entries().len() == i,
            forall|j: int|
                0 <= j < i ==> parent_of.entries()[j] == (
                (#[trigger] orbits@[j]).1@,
                orbits@[j].0@,
                ),
        decreases orbits@.len() - i,
    {
        let child = orbits[i].1.clone();
        let parent = orbits[i].0.clone();
        parent_of.entries.push((child, parent));
        proof {
            assert(parent_of.entries() =~= old_entries_plus(
                parent_of.entries().drop_last(),
                (orbits@[i as int].1@, orbits@[i as int].0@),
            ));
        }
        i = i + 1;
    }
    let mut all_bodies = BodySet { names: Vec::new() };
    let mut i: usize = 0;
    while i < orbits.len()
        invariant
            i <= orbits@.len(),
            forall|s: Seq<char>|
                all_bodies.names().contains(s) <==> exists|j: int|
                    0 <= j < i && ((#[trigger] orbits@[j]).0@ == s || orbits@[j].1@ == s),
        decreases orbits@.len() - i,
    {
        all_bodies.insert(&orbits[i].0);
        all_bodies.insert(&orbits[i].1);
        proof {
            assert forall|s: Seq<char>| #[trigger] all_bodies.names().contains(s) <==> exists|
                j: int,
            |
                0 <= j < i + 1 && ((#[trigger] orbits@[j]).0@ == s || orbits@[j].1@ == s) by {
                if all_bodies.names().contains(s) {
                    if s == orbits@[i as int].0@ || s == orbits@[i as int].1@ {
                        assert(0 <= i < i + 1 && (orbits@[i as int].0@ == s
                            || orbits@[i as int].1@ == s));
                    }
                }
            }
        }
        i = i + 1;
    }
    (parent_of, all_bodies)
}

/// A sequence with one more entry at the end; spelled out so the builder
/// loop can name it.
pub open spec fn old_entries_plus(
    entries: Seq<(Seq<char>, Seq<char>)>,
    entry: (Seq<char>, Seq<char>),
) -> Seq<(Seq<char>, Seq<char>)> {
    entries.push(entry)
}

/// The sum of the chain lengths of the first `k` bodies.
pub open spec fn orbit_count_sum(
    m: Seq<(Seq<char>, Seq<char>)>,
    bodies: Seq<Seq<char>>,
    k: int,
) -> int
    decreases k,
{
    if k <= 0 {
        0
    } else {
        orbit_count_sum(m, bodies, k - 1) + match chain_len(m, bodies[k - 1], m.len() + 1) {
            Some(n) => n as int,
            None => 0,
        }
    }
}

/// The total number of direct and indirect orbits: for every body, the
/// length of its parent chain, summed.
pub fn count_orbits(parent_of: &ParentMap, all_bodies: &BodySet) -> (r: usize)
    requires
        parent_of.acyclic(),
        parent_of.entries().len() <= 40_000,
        all_bodies.names().len() <= 40_000,
    ensures
        r as int == orbit_count_sum(
            parent_of.entries(),
            all_bodies.names(),
            all_bodies.names().len() as int,
        ),
{
    let n = all_bodies.len();
    let mut total: usize = 0;
    let mut i: usize = 0;
    while i < n
        invariant
            i <= n,
            n == all_bodies.names().len(),
            parent_of.acyclic(),
            parent_of.entries().len() <= 40_000,
            all_bodies.names().len() <= 40_000,
            total as int == orbit_count_sum(parent_of.entries(), all_bodies.names(), i as int),
            total <= i * 40_001,
        decreases n - i,
    {
        let hops = parent_of.count_parents(all_bodies.at(i));
        proof {
            lemma_chain_len_bound(
                parent_of.entries(),
                all_bodies.names()[i as int],
                (parent_of.entries().len() + 1) as nat,
            );
            assert((i + 1) * 40_001 == i * 40_001 + 40_001) by (nonlinear_arith);
            assert(i * 40_001 <= 40_000 * 40_001) by (nonlinear_arith)
                requires
                    0 <= i <= 40_000,
            ;
        }
        total = total + hops;
        i = i + 1;
    }
    total
}

/// A chain is never longer than the fuel it resolved with.
proof fn lemma_chain_len_bound(m: Seq<(Seq<char>, Seq<char>)>, name: Seq<char>, fuel: nat)
    ensures
        chain_len(m, name, fuel) matches Some(k) ==> k < fuel,
    decreases fuel,
{
    if fuel > 0 {
        match assoc_parent(m, name) {
            None => {},
            Some(parent) => {
                lemma_chain_len_bound(m, parent, (fuel - 1) as nat);
            },
        }
    }
}

/// Split one `PARENT)CHILD` line into its two body names.
pub fn string_to_oribit(s: &str) -> (r: Result<(String, String), Fail>)
    ensures
        match r {
            Ok(pair) => {
                let i = find_sep(s@, ')');
                &&& i < s@.len()
                &&& pair.0@ == s@.take(i)
                &&& pair.1@ == s@.skip(i + 1)
            },
            Err(_) => find_sep(s@, ')') >= s@.len(),
        },
{
    let n = s.unicode_len();
    let mut i: usize = 0;
    while i < n && s.get_char(i) != ')'
        invariant
            i <= n,
            n == s@.len(),
            forall|j: int| 0 <= j < i ==> s@[j] != ')',
        decreases n - i,
    {
        i = i + 1;
    }
    proof {
        lemma_find_sep_converse(s@, ')', i as int);
    }
    if i == n {
        return Err(Fail(String::from_str("an orbit needs two names joined by a parenthesis")));
    }
    let parent = String::from_str(s.substring_char(0, i));
    let child = String::from_str(s.substring_char(i + 1, n));
    proof {
        assert(parent@ =~= s@.take(i as int));
        assert(child@ =~= s@.skip(i as int + 1));
    }
    Ok((parent, child))
}

/// The chain of parents above `name`, nearest first, within `fuel` hops.
pub open spec fn ancestors(m: Seq<(Seq<char>, Seq<char>)>, name: Seq<char>, fuel: nat) -> Seq<
    Seq<char>,
>
    decreases fuel,
{
    if fuel == 0 {
        seq![]
    } else {
        match assoc_parent(m, name) {
            None => seq![],
            Some(p) => seq![p] + ancestors(m, p, (fuel - 1) as nat),
        }
    }
}

/// A parent chain within `fuel` hops has at most `fuel` entries.
proof fn lemma_ancestors_len(m: Seq<(Seq<char>, Seq<char>)>, name: Seq<char>, fuel: nat)
    ensures
        ancestors(m, name, fuel).len() <= fuel,
    decreases fuel,
{
    if fuel > 0 {
        match assoc_parent(m, name) {
            None => (),
            Some(p) => {
                lemma_ancestors_len(m, p, (fuel - 1) as nat);
            },
        }
    }
}

/// The index of the first occurrence of `x` in `a`, or the length of `a`
/// if it does not occur.
pub open spec fn index_in(a: Seq<Seq<char>>, x: Seq<char>) -> int
    decreases a.len(),
{
    if a.len() == 0 {
        0
    } else if a[0] == x {
        0
    } else {
        1 + index_in(a.skip(1), x)
    }
}

/// `index_in` indeed names the first occurrence, within the length.
proof fn lemma_index_in(a: Seq<Seq<char>>, x: Seq<char>)
    ensures
        0 <= index_in(a, x) <= a.len(),
        a.contains(x) ==> index_in(a, x) < a.len() && a[index_in(a, x)] == x,
    decreases a.len(),
{
    if a.len() > 0 && a[0] != x {
        lemma_index_in(a.skip(1), x);
        if a.contains(x) {
            let i = choose|i: int| 0 <= i < a.len() && a[i] == x;
            assert(a.skip(1)[i - 1] == x);
            assert(a.skip(1).contains(x));
            assert(a[1 + index_in(a.skip(1), x)] == a.skip(1)[index_in(a.skip(1), x)]);
        }
    }
}

/// The orbital-transfer count over two parent chains: walking up chain
/// `b`, the first body that also stands in chain `a` scores the walk's
/// length in `b` plus the body's depth in `a`; `None` when the chains
/// share no body.
pub open spec fn spec_transfers(a: Seq<Seq<char>>, b: Seq<Seq<char>>) -> Option<int>
    decreases b.len(),
{
    if b.len() == 0 {
        None
    } else if a.contains(b[0]) {
        Some(index_in(a, b[0]))
    } else {
        match spec_transfers(a, b.skip(1)) {
            Some(k) => Some(1 + k),
            None => None,
        }
    }
}

/// The number of orbital transfers between the bodies `from` and `to`
/// orbit: walk up from `from` labelling each ancestor with its distance,
/// then walk up from `to` until a labelled ancestor appears, and add the
/// two distances.  `None` exactly when the two parent chains share no
/// body.
pub fn count_transfers(from: String, to: String, parent_of: &ParentMap) -> (r: Option<usize>)
    requires
        parent_of.acyclic(),
        parent_of.entries().len() <= 1_000_000,
    ensures
        ({
            let m = parent_of.entries();
            let a = ancestors(m, from@, m.len() + 1);
            let b = ancestors(m, to@, m.len() + 1);
            match spec_transfers(a, b) {
                Some(k) => r == Some(k as usize),
                None => r is None,
            }
        }),
{
    let ghost m = parent_of.entries();
    let ghost from_view = from@;
    let ghost to_view = to@;
    let ghost a = ancestors(m, from_view, m.len() + 1);
    let ghost b = ancestors(m, to_view, m.len() + 1);
    let transfers_to = compute_transfer_counts(from.clone(), parent_of);
    let mut body = to.clone();
    let mut transfers: usize = 0;
    let fuel = parent_of.len() + 1;
    let mut step: usize = 0;
    proof {
        assert(chain_len(m, to_view, m.len() + 1) is Some);
        lemma_ancestors_len(m, from_view, m.len() + 1);
    }
    while step < fuel
        invariant
            transfers == step <= fuel,
            parent_of.acyclic(),
            parent_of.entries() == m,
            m.len() <= 1_000_000,
            fuel == m.len() + 1,
            from_view == from@,
            to_view == to@,
            a == ancestors(m, from_view, m.len() + 1),
            a.len() <= m.len() + 1,
            b == ancestors(m, to_view, m.len() + 1),
            transfers_to@.len() == a.len(),
            forall|k: int|
                0 <= k < a.len() ==> (#[trigger] transfers_to@[k]).0@ == a[k]
                    && transfers_to@[k].1 == k,
            chain_len(m, body@, (fuel - step) as nat) is Some,
            spec_transfers(a, b) == (match spec_transfers(
                a,
                ancestors(m, body@, (fuel - step) as nat),
            ) {
                Some(k) => Some(transfers + k),
                None => None::<int>,
            }),
        decreases fuel - step,
    {
        let ghost bcur = ancestors(m, body@, (fuel - step) as nat);
        match parent_of.parent_of(&body) {
            None => {
                proof {
                    assert(bcur =~= Seq::<Seq<char>>::empty());
                    assert(spec_transfers(a, bcur) is None);
                    assert(spec_transfers(a, b) is None);
                }
                return None;
            },
            Some(p) => {
                let parent = p.clone();
                proof {
                    assert(bcur == seq![parent@] + ancestors(
                        m,
                        parent@,
                        (fuel - step - 1) as nat,
                    ));
                    assert(bcur[0] == parent@);
                    assert(bcur.skip(1) =~= ancestors(m, parent@, (fuel - step - 1) as nat));
                    let labels = transfers_to@.map_values(|e: (String, usize)| (e.0@, e.1));
                    assert forall|k: int|
                        0 <= k < a.len() implies (#[trigger] labels[k]).0 == a[k] && labels[k].1
                        == 0 + k by {
                        assert(labels[k] == (transfers_to@[k].0@, transfers_to@[k].1));
                    }
                    lemma_lookup_indexed(labels, a, parent@, 0);
                    lemma_index_in(a, parent@);
                }
                match lookup_count(&transfers_to, &parent) {
                    None => {
                        if transfers == usize::MAX {
                            proof {
                                assert(false);  // unreachable: the walk is fuel-bounded
                            }
                            return None;
                        }
                        transfers = transfers + 1;
                        body = parent;
                    },
                    Some(n) => {
                        proof {
                            assert(a.contains(parent@));
                            assert(n as int == index_in(a, parent@));
                            assert(spec_transfers(a, bcur) == Some(index_in(a, parent@)));
                            assert(spec_transfers(a, b) == Some(
                                transfers + index_in(a, parent@),
                            ));
                        }
                        if n > usize::MAX - transfers {
                            proof {
                                assert(false);  // unreachable: both chains are short
                            }
                            return None;
                        }
                        return Some(n + transfers);
                    },
                }
            },
        }
        step = step + 1;
    }
    proof {
        assert(false);  // unreachable: an acyclic chain ends within the fuel
    }
    None
}

/// Each ancestor of `who`, nearest first, labelled with how many
/// transfers it is away.
fn compute_transfer_counts(who: String, parent_of: &ParentMap) -> (r: Vec<(String, usize)>)
    requires
        parent_of.acyclic(),
        parent_of.entries().len() <= 1_000_000,
    ensures
        ({
            let a = ancestors(parent_of.entries(), who@, parent_of.entries().len() + 1);
            &&& r@.len() == a.len()
            &&& forall|k: int| 0 <= k < a.len() ==> (#[trigger] r@[k]).0@ == a[k] && r@[k].1 == k
        }),
{
    let ghost m = parent_of.entries();
    let ghost who_view = who@;
    let ghost a = ancestors(m, who_view, m.len() + 1);
    let mut result: Vec<(String, usize)> = Vec::new();
    let mut body = who.clone();
    let mut count: usize = 0;
    let fuel = parent_of.len() + 1;
    let mut step: usize = 0;
    proof {
        assert(chain_len(m, who_view, m.len() + 1) is Some);
        assert(result@.map_values(|e: (String, usize)| e.0@) + ancestors(
            m,
            body@,
            (fuel - step) as nat,
        ) =~= a);
    }
    while step < fuel
        invariant
            count == step <= fuel,
            parent_of.acyclic(),
            parent_of.entries() == m,
            m.len() <= 1_000_000,
            fuel == m.len() + 1,
            who_view == who@,
            a == ancestors(m, who_view, m.len() + 1),
            result@.len() == count,
            forall|k: int| 0 <= k < count ==> (#[trigger] result@[k]).1 == k,
            a == result@.map_values(|e: (String, usize)| e.0@) + ancestors(
                m,
                body@,
                (fuel - step) as nat,
            ),
            chain_len(m, body@, (fuel - step) as nat) is Some,
        decreases fuel - step,
    {
        let ghost names = result@.map_values(|e: (String, usize)| e.0@);
        let ghost bcur = ancestors(m, body@, (fuel - step) as nat);
        match parent_of.parent_of(&body) {
            None => {
                proof {
                    assert(bcur =~= Seq::<Seq<char>>::empty());
                    assert(a =~= names);
                    assert(names.len() == result@.len());
                    assert forall|k: int|
                        0 <= k < a.len() implies (#[trigger] result@[k]).0@ == a[k]
                        && result@[k].1 == k by {
                        assert(names[k] == result@[k].0@);
                    }
                }
                return result;
            },
            Some(p) => {
                let parent = p.clone();
                proof {
                    assert(bcur == seq![parent@] + ancestors(
                        m,
                        parent@,
                        (fuel - step - 1) as nat,
                    ));
                }
                result.push((parent.clone(), count));
                proof {
                    assert(result@.map_values(|e: (String, usize)| e.0@) =~= names + seq![
                        parent@,
                    ]);
                    assert((names + seq![parent@]) + ancestors(
                        m,
                        parent@,
                        (fuel - step - 1) as nat,
                    ) =~= names + bcur);
                }
                if count < usize::MAX {
                    count = count + 1;
                } else {
                    proof {
                        assert(false);  // unreachable: the walk is fuel-bounded
                    }
                }
                body = parent;
            },
        }
        step = step + 1;
    }
    proof {
        assert(false);  // unreachable: an acyclic chain ends within the fuel
    }
    result
}

/// The label attached to `name`, the earliest entry winning, as
/// `lookup_count` finds it.
pub open spec fn spec_lookup(labels: Seq<(Seq<char>, usize)>, name: Seq<char>) -> Option<usize>
    decreases labels.len(),
{
    if labels.len() == 0 {
        None
    } else if labels[0].0 == name {
        Some(labels[0].1)
    } else {
        spec_lookup(labels.skip(1), name)
    }
}

/// Over labels that list the bodies of `a` in order, each carrying its
/// index plus `off`, the earliest-match lookup finds exactly the first
/// occurrence.
proof fn lemma_lookup_indexed(
    labels: Seq<(Seq<char>, usize)>,
    a: Seq<Seq<char>>,
    x: Seq<char>,
    off: int,
)
    requires
        labels.len() == a.len(),
        forall|k: int|
            0 <= k < a.len() ==> (#[trigger] labels[k]).0 == a[k] && labels[k].1 == off + k,
        0 <= off,
    ensures
        a.contains(x) ==> spec_lookup(labels, x) == Some((off + index_in(a, x)) as usize),
        !a.contains(x) ==> spec_lookup(labels, x) is None,
    decreases a.len(),
{
    if a.len() > 0 {
        assert(labels[0].0 == a[0]);
        if a[0] == x {
            assert(a.contains(x)) by {
                assert(a[0] == x);
            }
        } else {
            assert forall|k: int|
                0 <= k < a.skip(1).len() implies (#[trigger] labels.skip(1)[k]).0 == a.skip(1)[k]
                && labels.skip(1)[k].1 == (off + 1) + k by {
                assert(labels.skip(1)[k] == labels[k + 1]);
                assert(a.skip(1)[k] == a[k + 1]);
            }
            lemma_lookup_indexed(labels.skip(1), a.skip(1), x, off + 1);
            if a.contains(x) {
                let i = choose|i: int| 0 <= i < a.len() && a[i] == x;
                assert(a.skip(1)[i - 1] == x);
                assert(a.skip(1).contains(x));
            }
            if a.skip(1).contains(x) {
                let i = choose|i: int| 0 <= i < a.skip(1).len() && a.skip(1)[i] == x;
                assert(a[i + 1] == a.skip(1)[i]);
                assert(a.contains(x));
            }
        }
    }
}

/// The label attached to `name`, if any; the earliest entry wins.
fn lookup_count(labels: &Vec<(String, usize)>, name: &String) -> (r: Option<usize>)
    ensures
        r == spec_lookup(labels@.map_values(|e: (String, usize)| (e.0@, e.1)), name@),
{
    let ghost l = labels@.map_values(|e: (String, usize)| (e.0@, e.1));
    let mut i: usize = 0;
    proof {
        assert(l.skip(0) =~= l);
    }
    while i < labels.len()
        invariant
            i <= labels@.len(),
            l == labels@.map_values(|e: (String, usize)| (e.0@, e.1)),
            spec_lookup(l, name@) == spec_lookup(l.skip(i as int), name@),
        decreases labels@.len() - i,
    {
        proof {
            assert(l.skip(i as int)[0] == l[i as int]);
            assert(l.skip(i as int).skip(1) =~= l.skip(i as int + 1));
        }
        if labels[i].0.eq(name) {
            return Some(labels[i].1);
        }
        i = i + 1;
    }
    proof {
        assert(l.skip(labels@.len() as int) =~= Seq::<(Seq<char>, usize)>::empty());
    }
    None
}

} // verus!
