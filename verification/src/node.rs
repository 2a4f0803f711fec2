//! The path tree: a trie keyed by path segments.
use vstd::prelude::*;
use crate::params::Params;
use crate::path::{is_wildcard, param_name, segments, spec_segments};
use crate::trie::{literal_child, literal_from, select_child, wildcard_from, Trie};

verus! {

/// A node of the path tree.
#[derive(Debug)]
pub struct Node<T> {
    /// The children, oldest first.
    pub nodes: Vec<Node<T>>,
    /// The segment that this node was registered under.
    pub key: String,
    /// The value of the path that ends here.
    pub handler: Option<T>,
    /// Whether the node matches any segment.
    pub wildcard: bool,
}

/// The model of a node: its own fields beside the models of its children.
pub open spec fn model<T>(node: Node<T>) -> Trie<T>
    decreases node, 1int,
{
    Trie {
        key: node.key@,
        wildcard: node.wildcard,
        value: node.handler,
        children: models(node.nodes@),
    }
}

/// The models of a sequence of nodes, in order.
pub open spec fn models<T>(nodes: Seq<Node<T>>) -> Seq<Trie<T>>
    decreases nodes, 0int,
{
    if nodes.len() == 0 {
        Seq::empty()
    } else {
        models(nodes.drop_last()).push(model(nodes.last()))
    }
}

/// The models of a sequence of nodes are the nodes' models, one for one.
pub proof fn lemma_models<T>(nodes: Seq<Node<T>>)
    ensures
        models(nodes).len() == nodes.len(),
        forall|i: int| 0 <= i < nodes.len() ==> (#[trigger] models(nodes)[i]) == model(nodes[i]),
    decreases nodes.len(),
{
    if nodes.len() > 0 {
        lemma_models(nodes.drop_last());
    }
}

impl<T> View for Node<T> {
    type V = Trie<T>;

    open spec fn view(&self) -> Trie<T> {
        model(*self)
    }
}

/// The default node is a root: a node under the key `/`.
impl<T> Default for Node<T> {
    fn default() -> (node: Self)
        ensures
            node@ == Trie::<T>::leaf("/"@),
    {
        Node::new("/")
    }
}

impl<T> Node<T> {
    /// Creates a node for `key` with no value and no children.
    pub fn new(key: &str) -> (node: Self)
        ensures
            node@ == Trie::<T>::leaf(key@),
    {
        let node = Node {
            nodes: Vec::new(),
            key: String::from_str(key),
            handler: None,
            wildcard: is_wildcard(key),
        };
        proof {
            node.lemma_view();
            assert(node@.children =~= Seq::empty());
        }
        node
    }

    /// The model's children are the children's models, in order.
    pub proof fn lemma_view(&self)
        ensures
            self@.key == self.key@,
            self@.wildcard == self.wildcard,
            self@.value == self.handler,
            self@.children.len() == self.nodes@.len(),
            forall|i: int| 0 <= i < self.nodes@.len() ==> self@.children[i] == self.nodes@[i]@,
    {
        lemma_models(self.nodes@);
    }

    /// The index of the first child whose key is `seg`.
    fn literal_child(&self, seg: &String) -> (r: Option<usize>)
        ensures
            match r {
                Some(i) => literal_child(self@.children, seg@) == Some(i as int) && i
                    < self.nodes.len(),
                None => literal_child(self@.children, seg@) is None,
            },
    {
        proof {
            self.lemma_view();
        }
        let mut i: usize = 0;
        while i < self.nodes.len()
            invariant
                i <= self.nodes.len(),
                self@.children.len() == self.nodes.len(),
                forall|j: int| 0 <= j < self.nodes@.len() ==> self@.children[j] == self.nodes@[j]@,
                literal_from(self@.children, seg@, i as int) == literal_child(
                    self@.children,
                    seg@,
                ),
            decreases self.nodes.len() - i,
        {
            proof {
                self.nodes@[i as int].lemma_view();
            }
            if self.nodes[i].key == *seg {
                return Some(i);
            }
            i += 1;
        }
        None
    }

    /// The index of the child that a lookup of `seg` descends into.
    fn select_child(&self, seg: &String) -> (r: Option<usize>)
        ensures
            match r {
                Some(i) => select_child(self@.children, seg@) == Some(i as int) && i
                    < self.nodes.len(),
                None => select_child(self@.children, seg@) is None,
            },
    {
        match self.literal_child(seg) {
            Some(i) => Some(i),
            None => {
                proof {
                    self.lemma_view();
                }
                let mut i: usize = 0;
                while i < self.nodes.len()
                    invariant
                        i <= self.nodes.len(),
                        self@.children.len() == self.nodes.len(),
                        forall|j: int|
                            0 <= j < self.nodes@.len() ==> self@.children[j] == self.nodes@[j]@,
                        literal_child(self@.children, seg@) is None,
                        wildcard_from(self@.children, i as int) == wildcard_from(
                            self@.children,
                            0,
                        ),
                    decreases self.nodes.len() - i,
                {
                    proof {
                        self.nodes@[i as int].lemma_view();
                    }
                    if self.nodes[i].wildcard {
                        return Some(i);
                    }
                    i += 1;
                }
                None
            },
        }
    }

    /// Gets the value that was registered on exactly `path`: no wildcard
    /// stands in for a segment.
    pub fn registered(&self, path: &str) -> (r: Option<&T>)
        ensures
            match r {
                Some(v) => self@.registered(spec_segments(path@)) == Some(*v),
                None => self@.registered(spec_segments(path@)) is None,
            },
    {
        let segs = segments(path);
        let ghost p = segs.deep_view();
        let mut cur: &Node<T> = self;
        let mut k: usize = 0;
        assert(p.skip(0) =~= p);
        while k < segs.len()
            invariant
                k <= segs.len(),
                p == segs.deep_view(),
                p == spec_segments(path@),
                cur@.registered(p.skip(k as int)) == self@.registered(p),
            decreases segs.len() - k,
        {
            proof {
                assert(p.skip(k as int)[0] == segs@[k as int]@);
                assert(p.skip(k as int).drop_first() =~= p.skip(k + 1));
            }
            match cur.literal_child(&segs[k]) {
                Some(i) => {
                    proof {
                        cur.lemma_view();
                    }
                    cur = &cur.nodes[i];
                },
                None => {
                    return None;
                },
            }
            k += 1;
        }
        proof {
            cur.lemma_view();
            assert(p.skip(k as int).len() == 0);
        }
        cur.handler.as_ref()
    }

    /// Gets the value along `path`.
    pub fn get(&self, path: &str) -> (r: Option<&T>)
        ensures
            match r {
                Some(v) => self@.get(spec_segments(path@)) == Some(*v),
                None => self@.get(spec_segments(path@)) is None,
            },
    {
        let segs = segments(path);
        let ghost p = segs.deep_view();
        let mut cur: &Node<T> = self;
        let mut k: usize = 0;
        assert(p.skip(0) =~= p);
        while k < segs.len()
            invariant
                k <= segs.len(),
                p == segs.deep_view(),
                p == spec_segments(path@),
                cur@.get(p.skip(k as int)) == self@.get(p),
            decreases segs.len() - k,
        {
            proof {
                assert(p.skip(k as int)[0] == segs@[k as int]@);
                assert(p.skip(k as int).drop_first() =~= p.skip(k + 1));
            }
            match cur.select_child(&segs[k]) {
                Some(i) => {
                    proof {
                        cur.lemma_view();
                    }
                    cur = &cur.nodes[i];
                },
                None => {
                    return None;
                },
            }
            k += 1;
        }
        proof {
            cur.lemma_view();
            assert(p.skip(k as int).len() == 0);
        }
        cur.handler.as_ref()
    }

    /// Registers `f` on the path `segs[k..]` below this node.
    fn insert_at(&mut self, segs: &Vec<String>, k: usize, f: T)
        requires
            k <= segs.len(),
        ensures
            final(self)@ == old(self)@.insert(segs.deep_view().skip(k as int), f),
        decreases segs.len() - k,
    {
        let ghost p = segs.deep_view();
        proof {
            self.lemma_view();
        }
        if k == segs.len() {
            self.handler = Some(f);
            proof {
                self.lemma_view();
                assert(self@.children =~= old(self)@.children);
            }
        } else {
            proof {
                assert(p.skip(k as int)[0] == segs@[k as int]@);
                assert(p.skip(k as int).drop_first() =~= p.skip(k + 1));
            }
            match self.literal_child(&segs[k]) {
                Some(i) => {
                    self.nodes[i].insert_at(segs, k + 1, f);
                    proof {
                        self.lemma_view();
                        assert(self@.children =~= old(self)@.children.update(
                            i as int,
                            old(self)@.children[i as int].insert(p.skip(k + 1), f),
                        ));
                    }
                },
                None => {
                    let mut node = Node::new(segs[k].as_str());
                    node.insert_at(segs, k + 1, f);
                    self.nodes.push(node);
                    proof {
                        self.lemma_view();
                        assert(self@.children =~= old(self)@.children.push(node@));
                    }
                },
            }
        }
    }

    /// Inserts a new path and its value along the tree. A value that was
    /// registered on the same path before is replaced.
    pub fn insert(&mut self, path: &str, f: T)
        ensures
            final(self)@ == old(self)@.insert(spec_segments(path@), f),
    {
        let segs = segments(path);
        assert(segs.deep_view().skip(0) =~= segs.deep_view());
        self.insert_at(&segs, 0, f);
    }

    /// Grafts `node` on the node that the path `segs[k..]` addresses below
    /// this one.
    fn insert_node_at(&mut self, segs: &Vec<String>, k: usize, node: Node<T>)
        requires
            k <= segs.len(),
        ensures
            final(self)@ == old(self)@.mount(segs.deep_view().skip(k as int), node@),
        decreases segs.len() - k,
    {
        let ghost p = segs.deep_view();
        proof {
            self.lemma_view();
            node.lemma_view();
        }
        if k == segs.len() {
            self.handler = node.handler;
            self.nodes = node.nodes;
            proof {
                self.lemma_view();
                assert(self@.children =~= node@.children);
            }
        } else {
            proof {
                assert(p.skip(k as int)[0] == segs@[k as int]@);
                assert(p.skip(k as int).drop_first() =~= p.skip(k + 1));
            }
            match self.literal_child(&segs[k]) {
                Some(i) => {
                    self.nodes[i].insert_node_at(segs, k + 1, node);
                    proof {
                        self.lemma_view();
                        assert(self@.children =~= old(self)@.children.update(
                            i as int,
                            old(self)@.children[i as int].mount(p.skip(k + 1), node@),
                        ));
                    }
                },
                None => {
                    let mut parent = Node::new(segs[k].as_str());
                    parent.insert_node_at(segs, k + 1, node);
                    self.nodes.push(parent);
                    proof {
                        self.lemma_view();
                        assert(self@.children =~= old(self)@.children.push(parent@));
                    }
                },
            }
        }
    }

    /// Inserts a whole tree along the path: the node that `path` addresses
    /// keeps its key and takes the value and the children of `node` in place
    /// of its own.
    pub fn insert_node(&mut self, path: &str, node: Node<T>)
        ensures
            final(self)@ == old(self)@.mount(spec_segments(path@), node@),
    {
        let segs = segments(path);
        assert(segs.deep_view().skip(0) =~= segs.deep_view());
        self.insert_node_at(&segs, 0, node);
    }

    /// Gets the value along the path `segs[k..]` below this node, for writing.
    fn get_mut_at(&mut self, segs: &Vec<String>, k: usize) -> (r: Option<&mut T>)
        requires
            k <= segs.len(),
        ensures
            match r {
                Some(v) => {
                    &&& old(self)@.get(segs.deep_view().skip(k as int)) == Some(*v)
                    &&& final(self)@ == old(self)@.put(
                        segs.deep_view().skip(k as int),
                        *final(v),
                    )
                },
                None => {
                    &&& old(self)@.get(segs.deep_view().skip(k as int)) is None
                    &&& final(self)@ == old(self)@
                },
            },
        decreases segs.len() - k,
    {
        let ghost p = segs.deep_view();
        proof {
            self.lemma_view();
        }
        let ghost after = *final(self);
        proof {
            after.lemma_view();
        }
        if k == segs.len() {
            let r = self.handler.as_mut();
            proof {
                assert(after@.children =~= old(self)@.children);
            }
            r
        } else {
            proof {
                assert(p.skip(k as int)[0] == segs@[k as int]@);
                assert(p.skip(k as int).drop_first() =~= p.skip(k + 1));
            }
            match self.select_child(&segs[k]) {
                Some(i) => {
                    let child = &mut self.nodes[i];
                    let ghost child_after = *final(child);
                    let r = child.get_mut_at(segs, k + 1);
                    proof {
                        assert(after@.children =~= old(self)@.children.update(
                            i as int,
                            child_after@,
                        ));
                        if r is None {
                            assert(after@.children =~= old(self)@.children);
                        }
                    }
                    r
                },
                None => None,
            }
        }
    }

    /// Gets the value along `path`, for writing.
    pub fn get_mut(&mut self, path: &str) -> (r: Option<&mut T>)
        ensures
            match r {
                Some(v) => {
                    &&& old(self)@.get(spec_segments(path@)) == Some(*v)
                    &&& final(self)@ == old(self)@.put(spec_segments(path@), *final(v))
                },
                None => {
                    &&& old(self)@.get(spec_segments(path@)) is None
                    &&& final(self)@ == old(self)@
                },
            },
    {
        let segs = segments(path);
        assert(segs.deep_view().skip(0) =~= segs.deep_view());
        self.get_mut_at(&segs, 0)
    }

    /// Gets the value along `path`, with the parameters that the path's
    /// wildcards bind.
    pub fn get_params(&self, path: &str) -> (r: Option<(&T, Params)>)
        ensures
            match r {
                Some((v, params)) => {
                    &&& self@.get(spec_segments(path@)) == Some(*v)
                    &&& params@ == self@.captures(spec_segments(path@))
                },
                None => self@.get(spec_segments(path@)) is None,
            },
    {
        let segs = segments(path);
        let ghost p = segs.deep_view();
        let mut params = Params::new();
        let mut cur: &Node<T> = self;
        let mut k: usize = 0;
        proof {
            assert(p.skip(0) =~= p);
            assert(params@ + self@.captures(p) =~= self@.captures(p));
        }
        while k < segs.len()
            invariant
                k <= segs.len(),
                p == segs.deep_view(),
                p == spec_segments(path@),
                cur@.get(p.skip(k as int)) == self@.get(p),
                params@ + cur@.captures(p.skip(k as int)) == self@.captures(p),
            decreases segs.len() - k,
        {
            proof {
                assert(p.skip(k as int)[0] == segs@[k as int]@);
                assert(p.skip(k as int).drop_first() =~= p.skip(k + 1));
            }
            match cur.select_child(&segs[k]) {
                Some(i) => {
                    proof {
                        cur.lemma_view();
                        cur.nodes@[i as int].lemma_view();
                    }
                    let ghost parent = cur@;
                    let ghost bound = params@;
                    cur = &cur.nodes[i];
                    if cur.wildcard {
                        params.insert(param_name(cur.key.as_str()), segs[k].clone());
                    }
                    proof {
                        assert(params@ + cur@.captures(p.skip(k + 1)) =~= bound
                            + parent.captures(p.skip(k as int)));
                    }
                },
                None => {
                    return None;
                },
            }
            k += 1;
        }
        proof {
            cur.lemma_view();
            assert(p.skip(k as int).len() == 0);
            assert(params@ + cur@.captures(p.skip(k as int)) =~= params@);
        }
        match &cur.handler {
            Some(v) => Some((v, params)),
            None => None,
        }
    }
}

} // verus!
