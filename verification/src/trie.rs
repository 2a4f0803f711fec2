//! The mathematical model of the path tree.
//!
//! A [`Trie`] is what a [`crate::node::Node`] stands for in contracts: a key, a
//! wildcard flag, an optional value and the children in insertion order. A
//! path is a sequence of segments; the empty path addresses the tree's root.
//!
//! Child selection is the one rule that everything here follows. Registration
//! descends into the first child whose key is the segment, letter for letter,
//! and creates a child where there is none. Lookup prefers that same child;
//! only where no child's key is the segment does it fall back to the first
//! child that is a wildcard. A literal match therefore wins over a wildcard
//! whatever the order of registration, and a lookup never backtracks.
use vstd::prelude::*;
use crate::path::{spec_is_wildcard, spec_param_name};

verus! {

/// The model of a path tree with values of type `T`.
pub struct Trie<T> {
    /// The segment that this node was registered under.
    pub key: Seq<char>,
    /// Whether the node matches any segment.
    pub wildcard: bool,
    /// The value of the path that ends here.
    pub value: Option<T>,
    /// The children, oldest first.
    pub children: Seq<Trie<T>>,
}

/// A captured path parameter: the name of a wildcard and the segment it matched.
pub type Capture = (Seq<char>, Seq<char>);

/// The first index at or after `i` of a child whose key is `seg`.
pub open spec fn literal_from<T>(cs: Seq<Trie<T>>, seg: Seq<char>, i: int) -> Option<int>
    decreases cs.len() - i,
{
    if i < 0 || i >= cs.len() {
        None
    } else if cs[i].key == seg {
        Some(i)
    } else {
        literal_from(cs, seg, i + 1)
    }
}

/// The first index at or after `i` of a wildcard child.
pub open spec fn wildcard_from<T>(cs: Seq<Trie<T>>, i: int) -> Option<int>
    decreases cs.len() - i,
{
    if i < 0 || i >= cs.len() {
        None
    } else if cs[i].wildcard {
        Some(i)
    } else {
        wildcard_from(cs, i + 1)
    }
}

/// The child that registration descends into for `seg`.
pub open spec fn literal_child<T>(cs: Seq<Trie<T>>, seg: Seq<char>) -> Option<int> {
    literal_from(cs, seg, 0)
}

/// The child that lookup descends into for `seg`: the literal child where
/// there is one, else the first wildcard.
pub open spec fn select_child<T>(cs: Seq<Trie<T>>, seg: Seq<char>) -> Option<int> {
    match literal_child(cs, seg) {
        Some(i) => Some(i),
        None => wildcard_from(cs, 0),
    }
}

/// Whether every segment of a path is literal: none is written as a
/// placeholder.
pub open spec fn literal_path(path: Seq<Seq<char>>) -> bool {
    forall|i: int| 0 <= i < path.len() ==> !spec_is_wildcard(#[trigger] path[i])
}

/// Whether a path is an instance of a registered pattern: segment by
/// segment, the path has the pattern's segment or the pattern has a
/// placeholder.
pub open spec fn pattern_matches(pattern: Seq<Seq<char>>, path: Seq<Seq<char>>) -> bool
    decreases pattern.len(),
{
    if pattern.len() == 0 || path.len() == 0 {
        pattern.len() == 0 && path.len() == 0
    } else {
        &&& path[0] == pattern[0] || spec_is_wildcard(pattern[0])
        &&& pattern_matches(pattern.drop_first(), path.drop_first())
    }
}

/// What an instance of a pattern binds: for each placeholder of the
/// pattern, in order, its name and the segment that the path has there.
pub open spec fn pattern_bindings(pattern: Seq<Seq<char>>, path: Seq<Seq<char>>) -> Seq<Capture>
    decreases pattern.len(),
{
    if pattern.len() == 0 || path.len() == 0 {
        Seq::empty()
    } else {
        let rest = pattern_bindings(pattern.drop_first(), path.drop_first());
        if spec_is_wildcard(pattern[0]) {
            seq![(spec_param_name(pattern[0]), path[0])] + rest
        } else {
            rest
        }
    }
}

impl<T> Trie<T> {
    /// A node for `key` with no value and no children.
    pub open spec fn leaf(key: Seq<char>) -> Trie<T> {
        Trie { key, wildcard: spec_is_wildcard(key), value: None, children: Seq::empty() }
    }

    /// Whether the tree is one that registration builds: below every node
    /// no two children have the same key, and a child is a wildcard exactly
    /// when its key is written as a placeholder. So at most one child is
    /// the literal match of a segment.
    pub open spec fn well_formed(self) -> bool
        decreases self,
    {
        &&& forall|i: int, j: int|
            0 <= i < j < self.children.len() ==> self.children[i].key != self.children[j].key
        &&& forall|i: int|
            0 <= i < self.children.len() ==> {
                &&& (#[trigger] self.children[i]).wildcard == spec_is_wildcard(self.children[i].key)
                &&& self.children[i].well_formed()
            }
    }

    /// Whether no node that stands on the exact way of `path`, short of
    /// its end, has a wildcard among its children: on that way a lookup
    /// goes by literal children alone.
    pub open spec fn no_wildcard_along(self, path: Seq<Seq<char>>) -> bool
        decreases path.len(),
    {
        path.len() == 0 || (wildcard_from(self.children, 0) is None && match literal_child(
            self.children,
            path[0],
        ) {
            Some(i) => 0 <= i < self.children.len() ==> self.children[i].no_wildcard_along(
                path.drop_first(),
            ),
            None => true,
        })
    }

    /// The value that a lookup of `path` finds.
    pub open spec fn get(self, path: Seq<Seq<char>>) -> Option<T>
        decreases path.len(),
    {
        if path.len() == 0 {
            self.value
        } else {
            match select_child(self.children, path[0]) {
                Some(i) => if 0 <= i < self.children.len() {
                    self.children[i].get(path.drop_first())
                } else {
                    None
                },
                None => None,
            }
        }
    }

    /// The value that was registered on exactly `path`: what stands on the
    /// node that registration reaches, by literal children alone.
    pub open spec fn registered(self, path: Seq<Seq<char>>) -> Option<T>
        decreases path.len(),
    {
        if path.len() == 0 {
            self.value
        } else {
            match literal_child(self.children, path[0]) {
                Some(i) => if 0 <= i < self.children.len() {
                    self.children[i].registered(path.drop_first())
                } else {
                    None
                },
                None => None,
            }
        }
    }

    /// The parameters that a lookup of `path` binds on its way down, in path
    /// order: one for each wildcard node that it passes through.
    pub open spec fn captures(self, path: Seq<Seq<char>>) -> Seq<Capture>
        decreases path.len(),
    {
        if path.len() == 0 {
            Seq::empty()
        } else {
            match select_child(self.children, path[0]) {
                Some(i) => if 0 <= i < self.children.len() {
                    let child = self.children[i];
                    let rest = child.captures(path.drop_first());
                    if child.wildcard {
                        seq![(spec_param_name(child.key), path[0])] + rest
                    } else {
                        rest
                    }
                } else {
                    Seq::empty()
                },
                None => Seq::empty(),
            }
        }
    }

    /// The tree after the node that a lookup of `path` reaches has been given
    /// the value `v`; the tree itself where the lookup reaches no node.
    pub open spec fn put(self, path: Seq<Seq<char>>, v: T) -> Trie<T>
        decreases path.len(),
    {
        if path.len() == 0 {
            Trie { value: Some(v), ..self }
        } else {
            match select_child(self.children, path[0]) {
                Some(i) => if 0 <= i < self.children.len() {
                    Trie {
                        children: self.children.update(
                            i,
                            self.children[i].put(path.drop_first(), v),
                        ),
                        ..self
                    }
                } else {
                    self
                },
                None => self,
            }
        }
    }

    /// The tree after `v` has been registered on `path`.
    pub open spec fn insert(self, path: Seq<Seq<char>>, v: T) -> Trie<T>
        decreases path.len(),
    {
        if path.len() == 0 {
            Trie { value: Some(v), ..self }
        } else {
            match literal_child(self.children, path[0]) {
                Some(i) => if 0 <= i < self.children.len() {
                    Trie {
                        children: self.children.update(
                            i,
                            self.children[i].insert(path.drop_first(), v),
                        ),
                        ..self
                    }
                } else {
                    self
                },
                None => Trie {
                    children: self.children.push(
                        Trie::leaf(path[0]).insert(path.drop_first(), v),
                    ),
                    ..self
                },
            }
        }
    }

    /// The tree after `sub` has been grafted on the node that `path`
    /// addresses: that node keeps its key and takes the value and the
    /// children of `sub`'s root in place of its own.
    pub open spec fn mount(self, path: Seq<Seq<char>>, sub: Trie<T>) -> Trie<T>
        decreases path.len(),
    {
        if path.len() == 0 {
            Trie { value: sub.value, children: sub.children, ..self }
        } else {
            match literal_child(self.children, path[0]) {
                Some(i) => if 0 <= i < self.children.len() {
                    Trie {
                        children: self.children.update(
                            i,
                            self.children[i].mount(path.drop_first(), sub),
                        ),
                        ..self
                    }
                } else {
                    self
                },
                None => Trie {
                    children: self.children.push(
                        Trie::leaf(path[0]).mount(path.drop_first(), sub),
                    ),
                    ..self
                },
            }
        }
    }
}

/// Where a literal child is found, it is in range, its key is the segment,
/// and no earlier child has that key; where none is found, no child has it.
pub proof fn lemma_literal_from<T>(cs: Seq<Trie<T>>, seg: Seq<char>, i: int)
    requires
        0 <= i <= cs.len(),
    ensures
        match literal_from(cs, seg, i) {
            Some(j) => i <= j < cs.len() && cs[j].key == seg && forall|k: int|
                i <= k < j ==> cs[k].key != seg,
            None => forall|k: int| i <= k < cs.len() ==> cs[k].key != seg,
        },
    decreases cs.len() - i,
{
    if i < cs.len() && cs[i].key != seg {
        lemma_literal_from(cs, seg, i + 1);
    }
}

/// Where a wildcard child is found, it is in range and a wildcard, and no
/// earlier child is one; where none is found, no child is a wildcard.
pub proof fn lemma_wildcard_from<T>(cs: Seq<Trie<T>>, i: int)
    requires
        0 <= i <= cs.len(),
    ensures
        match wildcard_from(cs, i) {
            Some(j) => i <= j < cs.len() && cs[j].wildcard && forall|k: int|
                i <= k < j ==> !cs[k].wildcard,
            None => forall|k: int| i <= k < cs.len() ==> !cs[k].wildcard,
        },
    decreases cs.len() - i,
{
    if i < cs.len() && !cs[i].wildcard {
        lemma_wildcard_from(cs, i + 1);
    }
}

/// Child selection reads the children's keys and wildcard flags and nothing
/// else: two sequences that agree on them select the same child.
pub proof fn lemma_select_stable<T>(cs: Seq<Trie<T>>, ds: Seq<Trie<T>>, seg: Seq<char>)
    requires
        cs.len() == ds.len(),
        forall|k: int|
            0 <= k < cs.len() ==> cs[k].key == ds[k].key && cs[k].wildcard == ds[k].wildcard,
    ensures
        literal_child(ds, seg) == literal_child(cs, seg),
        select_child(ds, seg) == select_child(cs, seg),
{
    lemma_literal_from(cs, seg, 0);
    lemma_literal_from(ds, seg, 0);
    lemma_wildcard_from(cs, 0);
    lemma_wildcard_from(ds, 0);
}

/// A child appended under a key that no child had is the literal child for
/// that key.
pub proof fn lemma_literal_push<T>(cs: Seq<Trie<T>>, c: Trie<T>, seg: Seq<char>)
    requires
        literal_child(cs, seg) is None,
        c.key == seg,
    ensures
        literal_child(cs.push(c), seg) == Some(cs.len() as int),
{
    lemma_literal_from(cs, seg, 0);
    lemma_literal_from(cs.push(c), seg, 0);
    assert(cs.push(c)[cs.len() as int].key == seg);
    assert forall|k: int| 0 <= k < cs.len() implies cs.push(c)[k].key != seg by {
        assert(cs.push(c)[k] == cs[k]);
    }
}

/// Registration changes neither the key nor the wildcard flag of the node
/// it starts from.
pub proof fn lemma_insert_keeps_key<T>(t: Trie<T>, path: Seq<Seq<char>>, v: T)
    ensures
        t.insert(path, v).key == t.key,
        t.insert(path, v).wildcard == t.wildcard,
{
}

/// Grafting changes neither the key nor the wildcard flag of the node it
/// starts from.
pub proof fn lemma_mount_keeps_key<T>(t: Trie<T>, path: Seq<Seq<char>>, sub: Trie<T>)
    ensures
        t.mount(path, sub).key == t.key,
        t.mount(path, sub).wildcard == t.wildcard,
{
}

/// Writing to the node that a lookup reaches changes neither the key nor
/// the wildcard flag of the node it starts from.
pub proof fn lemma_put_keeps_key<T>(t: Trie<T>, path: Seq<Seq<char>>, v: T)
    ensures
        t.put(path, v).key == t.key,
        t.put(path, v).wildcard == t.wildcard,
{
}

/// A value that was registered on a path is what a lookup of that path
/// finds, whatever the tree held before.
pub proof fn lemma_insert_get<T>(t: Trie<T>, path: Seq<Seq<char>>, v: T)
    ensures
        t.insert(path, v).get(path) == Some(v),
    decreases path.len(),
{
    if path.len() > 0 {
        let seg = path[0];
        let rest = path.drop_first();
        let cs = t.children;
        lemma_literal_from(cs, seg, 0);
        match literal_child(cs, seg) {
            Some(i) => {
                let child = cs[i].insert(rest, v);
                let ds = cs.update(i, child);
                lemma_insert_keeps_key(cs[i], rest, v);
                lemma_select_stable(cs, ds, seg);
                lemma_insert_get(cs[i], rest, v);
                assert(t.insert(path, v).children == ds);
                assert(ds[i] == child);
            },
            None => {
                let child = Trie::<T>::leaf(seg).insert(rest, v);
                let ds = cs.push(child);
                lemma_insert_keeps_key(Trie::<T>::leaf(seg), rest, v);
                lemma_literal_push(cs, child, seg);
                lemma_insert_get(Trie::<T>::leaf(seg), rest, v);
                assert(t.insert(path, v).children == ds);
                assert(ds[cs.len() as int] == child);
            },
        }
    }
}

/// Registering on the same path twice leaves the tree that the second
/// registration alone would have made: the first value is replaced and
/// nothing else changes.
pub proof fn lemma_insert_overwrites<T>(t: Trie<T>, path: Seq<Seq<char>>, v1: T, v2: T)
    ensures
        t.insert(path, v1).insert(path, v2) == t.insert(path, v2),
        t.insert(path, v1).insert(path, v2).get(path) == Some(v2),
    decreases path.len(),
{
    lemma_insert_get(t.insert(path, v1), path, v2);
    if path.len() > 0 {
        let seg = path[0];
        let rest = path.drop_first();
        let cs = t.children;
        lemma_literal_from(cs, seg, 0);
        match literal_child(cs, seg) {
            Some(i) => {
                let c1 = cs[i].insert(rest, v1);
                let ds = cs.update(i, c1);
                lemma_insert_keeps_key(cs[i], rest, v1);
                lemma_select_stable(cs, ds, seg);
                lemma_insert_overwrites(cs[i], rest, v1, v2);
                assert(t.insert(path, v1).children == ds);
                assert(ds.update(i, ds[i].insert(rest, v2)) =~= cs.update(
                    i,
                    cs[i].insert(rest, v2),
                ));
            },
            None => {
                let leaf = Trie::<T>::leaf(seg);
                let c1 = leaf.insert(rest, v1);
                let ds = cs.push(c1);
                lemma_insert_keeps_key(leaf, rest, v1);
                lemma_literal_push(cs, c1, seg);
                lemma_insert_overwrites(leaf, rest, v1, v2);
                assert(t.insert(path, v1).children == ds);
                assert(ds.update(cs.len() as int, ds[cs.len() as int].insert(rest, v2))
                    =~= cs.push(leaf.insert(rest, v2)));
            },
        }
    }
}

/// After a tree was grafted on a prefix, a lookup of the prefix followed by
/// a path finds what a lookup of that path finds in the grafted tree.
pub proof fn lemma_mount_get<T>(
    t: Trie<T>,
    prefix: Seq<Seq<char>>,
    sub: Trie<T>,
    path: Seq<Seq<char>>,
)
    ensures
        t.mount(prefix, sub).get(prefix + path) == sub.get(path),
    decreases prefix.len(),
{
    if prefix.len() == 0 {
        assert(prefix + path =~= path);
    } else {
        let seg = prefix[0];
        let rest = prefix.drop_first();
        let cs = t.children;
        assert((prefix + path)[0] == seg);
        assert((prefix + path).drop_first() =~= rest + path);
        lemma_literal_from(cs, seg, 0);
        match literal_child(cs, seg) {
            Some(i) => {
                let child = cs[i].mount(rest, sub);
                let ds = cs.update(i, child);
                lemma_mount_keeps_key(cs[i], rest, sub);
                lemma_select_stable(cs, ds, seg);
                lemma_mount_get(cs[i], rest, sub, path);
                assert(t.mount(prefix, sub).children == ds);
                assert(ds[i] == child);
            },
            None => {
                let child = Trie::<T>::leaf(seg).mount(rest, sub);
                let ds = cs.push(child);
                lemma_mount_keeps_key(Trie::<T>::leaf(seg), rest, sub);
                lemma_literal_push(cs, child, seg);
                lemma_mount_get(Trie::<T>::leaf(seg), rest, sub, path);
                assert(t.mount(prefix, sub).children == ds);
                assert(ds[cs.len() as int] == child);
            },
        }
    }
}

/// Writing to the node that a lookup reaches changes what that lookup finds
/// and nothing about the way there: the same parameters are bound.
pub proof fn lemma_put_get<T>(t: Trie<T>, path: Seq<Seq<char>>, v: T)
    requires
        t.get(path) is Some,
    ensures
        t.put(path, v).get(path) == Some(v),
        t.put(path, v).captures(path) == t.captures(path),
    decreases path.len(),
{
    if path.len() > 0 {
        let seg = path[0];
        let rest = path.drop_first();
        let cs = t.children;
        lemma_literal_from(cs, seg, 0);
        lemma_wildcard_from(cs, 0);
        match select_child(cs, seg) {
            Some(i) => {
                let child = cs[i].put(rest, v);
                let ds = cs.update(i, child);
                lemma_put_keeps_key(cs[i], rest, v);
                lemma_select_stable(cs, ds, seg);
                lemma_put_get(cs[i], rest, v);
                assert(t.put(path, v).children == ds);
                assert(ds[i] == child);
            },
            None => {},
        }
    }
}

/// A child appended under another key leaves the literal child of a key
/// as it was.
pub proof fn lemma_literal_push_other<T>(cs: Seq<Trie<T>>, c: Trie<T>, seg: Seq<char>)
    requires
        c.key != seg,
    ensures
        literal_child(cs.push(c), seg) == literal_child(cs, seg),
{
    lemma_literal_from(cs, seg, 0);
    lemma_literal_from(cs.push(c), seg, 0);
    assert(cs.push(c)[cs.len() as int] == c);
    assert forall|k: int| 0 <= k < cs.len() implies cs.push(c)[k] == cs[k] by {}
    match literal_child(cs, seg) {
        Some(j) => {
            assert(cs.push(c)[j].key == seg);
        },
        None => {},
    }
}

/// A lookup finds what was registered on exactly its path: literal
/// children come first at every step.
pub proof fn lemma_registered_get<T>(t: Trie<T>, path: Seq<Seq<char>>)
    requires
        t.registered(path) is Some,
    ensures
        t.get(path) == t.registered(path),
    decreases path.len(),
{
    if path.len() > 0 {
        lemma_literal_from(t.children, path[0], 0);
        let i = literal_child(t.children, path[0])->0;
        lemma_registered_get(t.children[i], path.drop_first());
    }
}

/// Where a value is registered on exactly a path, a lookup of the path
/// reaches the node that registration on the path reaches: writing there
/// is registering.
pub proof fn lemma_put_is_insert<T>(t: Trie<T>, path: Seq<Seq<char>>, v: T)
    requires
        t.registered(path) is Some,
    ensures
        t.put(path, v) == t.insert(path, v),
    decreases path.len(),
{
    if path.len() > 0 {
        lemma_literal_from(t.children, path[0], 0);
        let i = literal_child(t.children, path[0])->0;
        lemma_put_is_insert(t.children[i], path.drop_first(), v);
    }
}

/// Registration writes on exactly its path.
pub proof fn lemma_insert_registered<T>(t: Trie<T>, path: Seq<Seq<char>>, v: T)
    ensures
        t.insert(path, v).registered(path) == Some(v),
    decreases path.len(),
{
    if path.len() > 0 {
        let seg = path[0];
        let rest = path.drop_first();
        let cs = t.children;
        lemma_literal_from(cs, seg, 0);
        match literal_child(cs, seg) {
            Some(i) => {
                let child = cs[i].insert(rest, v);
                let ds = cs.update(i, child);
                lemma_insert_keeps_key(cs[i], rest, v);
                lemma_select_stable(cs, ds, seg);
                lemma_insert_registered(cs[i], rest, v);
                assert(t.insert(path, v).children == ds);
                assert(ds[i] == child);
            },
            None => {
                let child = Trie::<T>::leaf(seg).insert(rest, v);
                let ds = cs.push(child);
                lemma_insert_keeps_key(Trie::<T>::leaf(seg), rest, v);
                lemma_literal_push(cs, child, seg);
                lemma_insert_registered(Trie::<T>::leaf(seg), rest, v);
                assert(t.insert(path, v).children == ds);
                assert(ds[cs.len() as int] == child);
            },
        }
    }
}

/// Registration on one path leaves what was registered on every other
/// path: a lookup of the other path finds what it found.
pub proof fn lemma_insert_frame<T>(t: Trie<T>, path: Seq<Seq<char>>, v: T, other: Seq<Seq<char>>)
    requires
        other != path,
        t.registered(other) is Some,
    ensures
        t.insert(path, v).registered(other) == t.registered(other),
        t.insert(path, v).get(other) == t.registered(other),
{
    lemma_insert_registered_frame(t, path, v, other);
    lemma_registered_get(t.insert(path, v), other);
}

/// Registration on one path leaves what was registered on exactly another.
pub proof fn lemma_insert_registered_frame<T>(
    t: Trie<T>,
    path: Seq<Seq<char>>,
    v: T,
    other: Seq<Seq<char>>,
)
    requires
        other != path,
    ensures
        t.insert(path, v).registered(other) == t.registered(other),
    decreases path.len(),
{
    if path.len() == 0 {
        assert(other.len() > 0) by {
            if other.len() == 0 {
                assert(other =~= path);
            }
        }
    } else if other.len() == 0 {
    } else {
        let seg = path[0];
        let rest = path.drop_first();
        let cs = t.children;
        let after = t.insert(path, v).children;
        lemma_literal_from(cs, seg, 0);
        lemma_literal_from(cs, other[0], 0);
        match literal_child(cs, seg) {
            Some(i) => {
                let child = cs[i].insert(rest, v);
                lemma_insert_keeps_key(cs[i], rest, v);
                lemma_select_stable(cs, cs.update(i, child), other[0]);
                assert(after == cs.update(i, child));
                if other[0] == seg {
                    assert(rest != other.drop_first()) by {
                        if rest == other.drop_first() {
                            assert(other =~= seq![other[0]] + other.drop_first());
                            assert(path =~= seq![seg] + rest);
                        }
                    }
                    lemma_insert_registered_frame(cs[i], rest, v, other.drop_first());
                    assert(after[i] == child);
                } else {
                    match literal_child(cs, other[0]) {
                        Some(j) => {
                            assert(after[j] == cs[j]);
                        },
                        None => {},
                    }
                }
            },
            None => {
                let leaf = Trie::<T>::leaf(seg);
                let child = leaf.insert(rest, v);
                lemma_insert_keeps_key(leaf, rest, v);
                assert(after == cs.push(child));
                if other[0] == seg {
                    lemma_literal_push(cs, child, seg);
                    assert(rest != other.drop_first()) by {
                        if rest == other.drop_first() {
                            assert(other =~= seq![other[0]] + other.drop_first());
                            assert(path =~= seq![seg] + rest);
                        }
                    }
                    lemma_insert_registered_frame(leaf, rest, v, other.drop_first());
                    assert(after[cs.len() as int] == child);
                    assert(leaf.registered(other.drop_first()) is None) by {
                        if other.drop_first().len() > 0 {
                            lemma_literal_from(leaf.children, other.drop_first()[0], 0);
                        }
                    }
                } else {
                    lemma_literal_push_other(cs, child, other[0]);
                    match literal_child(cs, other[0]) {
                        Some(j) => {
                            assert(after[j] == cs[j]);
                        },
                        None => {},
                    }
                }
            },
        }
    }
}

/// Registration keeps a tree well formed.
pub proof fn lemma_insert_well_formed<T>(t: Trie<T>, path: Seq<Seq<char>>, v: T)
    requires
        t.well_formed(),
    ensures
        t.insert(path, v).well_formed(),
    decreases path.len(),
{
    if path.len() > 0 {
        let seg = path[0];
        let rest = path.drop_first();
        let cs = t.children;
        let after = t.insert(path, v).children;
        lemma_literal_from(cs, seg, 0);
        match literal_child(cs, seg) {
            Some(i) => {
                let child = cs[i].insert(rest, v);
                lemma_insert_keeps_key(cs[i], rest, v);
                lemma_insert_well_formed(cs[i], rest, v);
                assert(after == cs.update(i, child));
                assert forall|k: int| 0 <= k < after.len() implies {
                    &&& after[k].key == cs[k].key
                    &&& (#[trigger] after[k]).wildcard == spec_is_wildcard(after[k].key)
                    &&& after[k].well_formed()
                } by {
                    if k != i {
                        assert(after[k] == cs[k]);
                    }
                }
            },
            None => {
                let leaf = Trie::<T>::leaf(seg);
                let child = leaf.insert(rest, v);
                lemma_insert_keeps_key(leaf, rest, v);
                assert(leaf.well_formed());
                lemma_insert_well_formed(leaf, rest, v);
                assert(after == cs.push(child));
                assert forall|k: int| 0 <= k < after.len() implies {
                    &&& (#[trigger] after[k]).wildcard == spec_is_wildcard(after[k].key)
                    &&& after[k].well_formed()
                    &&& k < cs.len() ==> after[k].key == cs[k].key
                } by {
                    if k < cs.len() {
                        assert(after[k] == cs[k]);
                    }
                }
            },
        }
    }
}

/// Grafting a well-formed tree keeps a tree well formed.
pub proof fn lemma_mount_well_formed<T>(t: Trie<T>, path: Seq<Seq<char>>, sub: Trie<T>)
    requires
        t.well_formed(),
        sub.well_formed(),
    ensures
        t.mount(path, sub).well_formed(),
    decreases path.len(),
{
    if path.len() > 0 {
        let seg = path[0];
        let rest = path.drop_first();
        let cs = t.children;
        let after = t.mount(path, sub).children;
        lemma_literal_from(cs, seg, 0);
        match literal_child(cs, seg) {
            Some(i) => {
                let child = cs[i].mount(rest, sub);
                lemma_mount_keeps_key(cs[i], rest, sub);
                lemma_mount_well_formed(cs[i], rest, sub);
                assert(after == cs.update(i, child));
                assert forall|k: int| 0 <= k < after.len() implies {
                    &&& after[k].key == cs[k].key
                    &&& (#[trigger] after[k]).wildcard == spec_is_wildcard(after[k].key)
                    &&& after[k].well_formed()
                } by {
                    if k != i {
                        assert(after[k] == cs[k]);
                    }
                }
            },
            None => {
                let leaf = Trie::<T>::leaf(seg);
                let child = leaf.mount(rest, sub);
                lemma_mount_keeps_key(leaf, rest, sub);
                assert(leaf.well_formed());
                lemma_mount_well_formed(leaf, rest, sub);
                assert(after == cs.push(child));
                assert forall|k: int| 0 <= k < after.len() implies {
                    &&& (#[trigger] after[k]).wildcard == spec_is_wildcard(after[k].key)
                    &&& after[k].well_formed()
                    &&& k < cs.len() ==> after[k].key == cs[k].key
                } by {
                    if k < cs.len() {
                        assert(after[k] == cs[k]);
                    }
                }
            },
        }
    }
}

/// Writing to the node that a lookup reaches keeps a tree well formed.
pub proof fn lemma_put_well_formed<T>(t: Trie<T>, path: Seq<Seq<char>>, v: T)
    requires
        t.well_formed(),
    ensures
        t.put(path, v).well_formed(),
    decreases path.len(),
{
    if path.len() > 0 {
        let seg = path[0];
        let rest = path.drop_first();
        let cs = t.children;
        let after = t.put(path, v).children;
        lemma_literal_from(cs, seg, 0);
        lemma_wildcard_from(cs, 0);
        match select_child(cs, seg) {
            Some(i) => {
                let child = cs[i].put(rest, v);
                lemma_put_keeps_key(cs[i], rest, v);
                lemma_put_well_formed(cs[i], rest, v);
                assert(after == cs.update(i, child));
                assert forall|k: int| 0 <= k < after.len() implies {
                    &&& after[k].key == cs[k].key
                    &&& (#[trigger] after[k]).wildcard == spec_is_wildcard(after[k].key)
                    &&& after[k].well_formed()
                } by {
                    if k != i {
                        assert(after[k] == cs[k]);
                    }
                }
            },
            None => {},
        }
    }
}

/// A tree with one registration finds its value on the instances of the
/// registered pattern and on no other path, and binds on an instance what
/// the pattern's placeholders stand for. Segment boundaries count: a path
/// that is longer or shorter than the pattern, or differs from it in a
/// literal segment, is not found.
pub proof fn lemma_single_route<T>(
    key: Seq<char>,
    pattern: Seq<Seq<char>>,
    v: T,
    path: Seq<Seq<char>>,
)
    ensures
        Trie::<T>::leaf(key).insert(pattern, v).get(path) == if pattern_matches(pattern, path) {
            Some(v)
        } else {
            None
        },
        pattern_matches(pattern, path) ==> Trie::<T>::leaf(key).insert(pattern, v).captures(path)
            == pattern_bindings(pattern, path),
    decreases pattern.len(),
{
    let leaf = Trie::<T>::leaf(key);
    let t = leaf.insert(pattern, v);
    if pattern.len() == 0 {
        if path.len() > 0 {
            lemma_literal_from(t.children, path[0], 0);
            lemma_wildcard_from(t.children, 0);
        }
    } else {
        let seg = pattern[0];
        let rest = pattern.drop_first();
        let child = Trie::<T>::leaf(seg).insert(rest, v);
        lemma_literal_from(leaf.children, seg, 0);
        lemma_insert_keeps_key(Trie::<T>::leaf(seg), rest, v);
        assert(t.children == leaf.children.push(child));
        assert(t.children.len() == 1);
        assert(t.children[0] == child);
        if path.len() > 0 {
            lemma_literal_from(t.children, path[0], 0);
            lemma_wildcard_from(t.children, 0);
            lemma_single_route(seg, rest, v, path.drop_first());
        }
    }
}

/// A child that is no wildcard, appended, leaves the first wildcard as it
/// was.
pub proof fn lemma_wildcard_push_other<T>(cs: Seq<Trie<T>>, c: Trie<T>)
    requires
        !c.wildcard,
    ensures
        wildcard_from(cs.push(c), 0) == wildcard_from(cs, 0),
{
    lemma_wildcard_from(cs, 0);
    lemma_wildcard_from(cs.push(c), 0);
    assert(cs.push(c)[cs.len() as int] == c);
    assert forall|k: int| 0 <= k < cs.len() implies cs.push(c)[k] == cs[k] by {}
    match wildcard_from(cs, 0) {
        Some(j) => {
            assert(cs.push(c)[j].wildcard);
        },
        None => {},
    }
}

/// A path that does not begin with a prefix, but has the prefix's first
/// segment, does not begin with the rest of the prefix after its own first
/// segment; and what is left of a literal path is literal.
pub proof fn lemma_prefix_rest(prefix: Seq<Seq<char>>, path: Seq<Seq<char>>)
    requires
        prefix.len() > 0,
    ensures
        literal_path(prefix) ==> literal_path(prefix.drop_first()) && !spec_is_wildcard(
            prefix[0],
        ),
        path.len() > 0 && path[0] == prefix[0] && !prefix.is_prefix_of(path)
            ==> !prefix.drop_first().is_prefix_of(path.drop_first()),
{
    if literal_path(prefix) {
        assert forall|i: int| 0 <= i < prefix.drop_first().len() implies !spec_is_wildcard(
            #[trigger] prefix.drop_first()[i],
        ) by {
            assert(prefix.drop_first()[i] == prefix[i + 1]);
        }
    }
    if path.len() > 0 && path[0] == prefix[0] && prefix.drop_first().is_prefix_of(
        path.drop_first(),
    ) {
        let rest = prefix.drop_first();
        assert(prefix =~= path.subrange(0, prefix.len() as int)) by {
            assert forall|i: int| 0 <= i < prefix.len() implies prefix[i] == path.subrange(
                0,
                prefix.len() as int,
            )[i] by {
                if i > 0 {
                    assert(rest[i - 1] == path.drop_first().subrange(0, rest.len() as int)[i - 1]);
                }
            }
        }
    }
}

/// Grafting on a literal path leaves every lookup that does not begin
/// with the path as it was, value and parameters, where no wildcard stands
/// beside the way to the path.
pub proof fn lemma_mount_frame<T>(
    t: Trie<T>,
    path: Seq<Seq<char>>,
    sub: Trie<T>,
    other: Seq<Seq<char>>,
)
    requires
        literal_path(path),
        t.no_wildcard_along(path),
        !path.is_prefix_of(other),
    ensures
        t.mount(path, sub).get(other) == t.get(other),
        t.mount(path, sub).captures(other) == t.captures(other),
    decreases path.len(),
{
    if path.len() == 0 {
        assert(path =~= other.subrange(0, 0));
    } else if other.len() > 0 {
        let seg = path[0];
        let rest = path.drop_first();
        let cs = t.children;
        let after = t.mount(path, sub).children;
        lemma_prefix_rest(path, other);
        lemma_literal_from(cs, seg, 0);
        lemma_literal_from(cs, other[0], 0);
        lemma_wildcard_from(cs, 0);
        match literal_child(cs, seg) {
            Some(i) => {
                let child = cs[i].mount(rest, sub);
                lemma_mount_keeps_key(cs[i], rest, sub);
                lemma_select_stable(cs, cs.update(i, child), other[0]);
                assert(after == cs.update(i, child));
                match select_child(cs, other[0]) {
                    Some(j) => {
                        if j == i {
                            lemma_mount_frame(cs[i], rest, sub, other.drop_first());
                            assert(after[i] == child);
                        } else {
                            assert(after[j] == cs[j]);
                        }
                    },
                    None => {},
                }
            },
            None => {
                let leaf = Trie::<T>::leaf(seg);
                let child = leaf.mount(rest, sub);
                lemma_mount_keeps_key(leaf, rest, sub);
                assert(after == cs.push(child));
                assert(after[cs.len() as int] == child);
                if other[0] == seg {
                    lemma_literal_push(cs, child, seg);
                    lemma_literal_from(leaf.children, seg, 0);
                    lemma_wildcard_from(leaf.children, 0);
                    lemma_mount_frame(leaf, rest, sub, other.drop_first());
                    if other.drop_first().len() > 0 {
                        lemma_literal_from(leaf.children, other.drop_first()[0], 0);
                    }
                } else {
                    lemma_literal_push_other(cs, child, other[0]);
                    lemma_wildcard_push_other(cs, child);
                    match select_child(cs, other[0]) {
                        Some(j) => {
                            assert(after[j] == cs[j]);
                        },
                        None => {},
                    }
                }
            },
        }
    }
}

/// After a tree was grafted on a literal prefix of a well-formed tree, a
/// lookup of the prefix followed by a path binds the parameters that a
/// lookup of that path binds in the grafted tree: the prefix binds none.
pub proof fn lemma_mount_captures<T>(
    t: Trie<T>,
    prefix: Seq<Seq<char>>,
    sub: Trie<T>,
    path: Seq<Seq<char>>,
)
    requires
        t.well_formed(),
        literal_path(prefix),
    ensures
        t.mount(prefix, sub).captures(prefix + path) == sub.captures(path),
    decreases prefix.len(),
{
    if prefix.len() == 0 {
        assert(prefix + path =~= path);
    } else {
        let seg = prefix[0];
        let rest = prefix.drop_first();
        let cs = t.children;
        assert((prefix + path)[0] == seg);
        assert((prefix + path).drop_first() =~= rest + path);
        lemma_prefix_rest(prefix, path);
        lemma_literal_from(cs, seg, 0);
        match literal_child(cs, seg) {
            Some(i) => {
                let child = cs[i].mount(rest, sub);
                let ds = cs.update(i, child);
                lemma_mount_keeps_key(cs[i], rest, sub);
                lemma_select_stable(cs, ds, seg);
                lemma_mount_captures(cs[i], rest, sub, path);
                assert(t.mount(prefix, sub).children == ds);
                assert(ds[i] == child);
                assert(!cs[i].wildcard);
            },
            None => {
                let leaf = Trie::<T>::leaf(seg);
                let child = leaf.mount(rest, sub);
                let ds = cs.push(child);
                lemma_mount_keeps_key(leaf, rest, sub);
                lemma_literal_push(cs, child, seg);
                assert(leaf.well_formed());
                lemma_mount_captures(leaf, rest, sub, path);
                assert(t.mount(prefix, sub).children == ds);
                assert(ds[cs.len() as int] == child);
            },
        }
    }
}

/// In a well-formed tree a lookup finds nothing that was not registered:
/// what it finds is registered on exactly some pattern, the path is an
/// instance of that pattern, and the parameters it binds are those that
/// the pattern's placeholders stand for. The pattern is the result.
pub proof fn lemma_found_is_registered<T>(t: Trie<T>, path: Seq<Seq<char>>) -> (pattern: Seq<
    Seq<char>,
>)
    requires
        t.well_formed(),
        t.get(path) is Some,
    ensures
        t.registered(pattern) == t.get(path),
        pattern_matches(pattern, path),
        t.captures(path) == pattern_bindings(pattern, path),
    decreases path.len(),
{
    if path.len() == 0 {
        path
    } else {
        let cs = t.children;
        lemma_literal_from(cs, path[0], 0);
        lemma_wildcard_from(cs, 0);
        let i = select_child(cs, path[0])->0;
        let key = cs[i].key;
        let rest = lemma_found_is_registered(cs[i], path.drop_first());
        let pattern = seq![key] + rest;
        assert(pattern[0] == key);
        assert(pattern.drop_first() =~= rest);
        lemma_literal_from(cs, key, 0);
        assert(literal_child(cs, key) == Some(i)) by {
            let j = literal_child(cs, key)->0;
            if j < i {
                assert(cs[j].key == cs[i].key);
            }
        }
        pattern
    }
}

/// Registration on a literal path leaves every lookup of another path as
/// it was, value and parameters, where no wildcard stands beside the way
/// to the path.
pub proof fn lemma_insert_leaves_lookups<T>(
    t: Trie<T>,
    path: Seq<Seq<char>>,
    v: T,
    other: Seq<Seq<char>>,
)
    requires
        literal_path(path),
        t.no_wildcard_along(path),
        other != path,
    ensures
        t.insert(path, v).get(other) == t.get(other),
        t.insert(path, v).captures(other) == t.captures(other),
    decreases path.len(),
{
    if path.len() == 0 {
        assert(other.len() > 0) by {
            if other.len() == 0 {
                assert(other =~= path);
            }
        }
    } else if other.len() > 0 {
        let seg = path[0];
        let rest = path.drop_first();
        let cs = t.children;
        let after = t.insert(path, v).children;
        lemma_prefix_rest(path, other);
        lemma_literal_from(cs, seg, 0);
        lemma_literal_from(cs, other[0], 0);
        lemma_wildcard_from(cs, 0);
        if other[0] == seg {
            assert(rest != other.drop_first()) by {
                if rest == other.drop_first() {
                    assert(other =~= seq![other[0]] + other.drop_first());
                    assert(path =~= seq![seg] + rest);
                }
            }
        }
        match literal_child(cs, seg) {
            Some(i) => {
                let child = cs[i].insert(rest, v);
                lemma_insert_keeps_key(cs[i], rest, v);
                lemma_select_stable(cs, cs.update(i, child), other[0]);
                assert(after == cs.update(i, child));
                match select_child(cs, other[0]) {
                    Some(j) => {
                        if j == i {
                            lemma_insert_leaves_lookups(cs[i], rest, v, other.drop_first());
                            assert(after[i] == child);
                        } else {
                            assert(after[j] == cs[j]);
                        }
                    },
                    None => {},
                }
            },
            None => {
                let leaf = Trie::<T>::leaf(seg);
                let child = leaf.insert(rest, v);
                lemma_insert_keeps_key(leaf, rest, v);
                assert(after == cs.push(child));
                assert(after[cs.len() as int] == child);
                if other[0] == seg {
                    lemma_literal_push(cs, child, seg);
                    lemma_literal_from(leaf.children, seg, 0);
                    lemma_wildcard_from(leaf.children, 0);
                    lemma_insert_leaves_lookups(leaf, rest, v, other.drop_first());
                    if other.drop_first().len() > 0 {
                        lemma_literal_from(leaf.children, other.drop_first()[0], 0);
                    }
                } else {
                    lemma_literal_push_other(cs, child, other[0]);
                    lemma_wildcard_push_other(cs, child);
                    match select_child(cs, other[0]) {
                        Some(j) => {
                            assert(after[j] == cs[j]);
                        },
                        None => {},
                    }
                }
            },
        }
    }
}

} // verus!
