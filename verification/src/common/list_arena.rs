//! Many short doubly linked lists sharing one contiguous arena.
//!
//! Entities that hold a variable number of items keep only the head key of
//! their list; the items themselves live packed in the arena, which avoids a
//! heap allocation per entity and the cache misses that come with it.

use vstd::prelude::*;
use crate::common::dense_arena::{ArenaKey, DenseArena};

verus! {

/// Holds for every key but `key`.
pub open spec fn other_than(key: ArenaKey) -> spec_fn(ArenaKey) -> bool {
    |x: ArenaKey| x != key
}

struct ListArenaNode<T> {
    data: T,
    next_sibling: Option<ArenaKey>,
    prev_sibling: Option<ArenaKey>,
}

/// Doubly linked lists whose nodes are stored densely in one arena.
///
/// Each list is identified by the key of its first node (its head), which
/// the owner of the list keeps outside the arena.
pub struct ListArena<T> {
    nodes: DenseArena<ListArenaNode<T>>,
    /// Strictly decreases along every `next_sibling` link, so lists end.
    rank: Ghost<Map<ArenaKey, nat>>,
}

impl<T> ListArena<T> {
    /// `key` names a node of the arena.
    pub closed spec fn contains(self, key: ArenaKey) -> bool {
        self.nodes.view().contains_key(key)
    }

    /// The item stored at `key`.
    pub closed spec fn data(self, key: ArenaKey) -> T {
        self.nodes.view()[key].data
    }

    /// The node that follows `key` in its list.
    pub closed spec fn next(self, key: ArenaKey) -> Option<ArenaKey> {
        self.nodes.view()[key].next_sibling
    }

    /// The node that precedes `key` in its list.
    pub closed spec fn prev(self, key: ArenaKey) -> Option<ArenaKey> {
        self.nodes.view()[key].prev_sibling
    }

    /// `key` was handed out by this arena at some point.
    pub closed spec fn issued(self, key: ArenaKey) -> bool {
        self.nodes.issued(key)
    }

    /// `key` was handed out and its node has since been removed.
    pub closed spec fn retired(self, key: ArenaKey) -> bool {
        self.nodes.retired(key)
    }

    /// `head` may stand for a whole list: it is empty, or names a node that
    /// nothing precedes.
    pub open spec fn is_head(self, head: Option<ArenaKey>) -> bool {
        match head {
            Some(h) => self.contains(h) && self.prev(h) is None,
            None => true,
        }
    }

    spec fn chain_in(
        m: Map<ArenaKey, ListArenaNode<T>>,
        start: Option<ArenaKey>,
        fuel: nat,
    ) -> Seq<ArenaKey>
        decreases fuel,
    {
        match start {
            Some(k) => if fuel > 0 && m.contains_key(k) {
                seq![k] + Self::chain_in(m, m[k].next_sibling, (fuel - 1) as nat)
            } else {
                Seq::empty()
            },
            None => Seq::empty(),
        }
    }

    /// The keys met when following `next` links from `k` until the list
    /// ends; empty when `k` names no node.
    pub closed spec fn chain_from(self, k: ArenaKey) -> Seq<ArenaKey> {
        Self::chain_in(self.nodes.view(), Some(k), self.rank@[k] + 1)
    }

    /// The keys met when following `next` links from `start` until the list
    /// ends.
    pub open spec fn chain(self, start: Option<ArenaKey>) -> Seq<ArenaKey> {
        match start {
            Some(k) => self.chain_from(k),
            None => Seq::empty(),
        }
    }

    /// The items of the list that starts at `start`, in list order.
    pub open spec fn values(self, start: Option<ArenaKey>) -> Seq<T> {
        self.chain(start).map_values(|k: ArenaKey| self.data(k))
    }

    /// Links are mutual and acyclic, and every link names a node.
    pub closed spec fn wf(self) -> bool {
        let m = self.nodes.view();
        &&& self.nodes.wf()
        &&& forall|k: ArenaKey|
            #[trigger] m.contains_key(k) && m[k].next_sibling is Some ==> {
                let n = m[k].next_sibling->Some_0;
                &&& m.contains_key(n)
                &&& m[n].prev_sibling == Some(k)
                &&& self.rank@[n] < self.rank@[k]
            }
        &&& forall|k: ArenaKey|
            #[trigger] m.contains_key(k) && m[k].prev_sibling is Some ==> {
                let p = m[k].prev_sibling->Some_0;
                &&& m.contains_key(p)
                &&& m[p].next_sibling == Some(k)
            }
    }

    proof fn lemma_chain_fuel(self, k: ArenaKey, fuel: nat)
        requires
            self.wf(),
            self.contains(k),
            fuel > self.rank@[k],
        ensures
            Self::chain_in(self.nodes.view(), Some(k), fuel) == self.chain(Some(k)),
        decreases fuel,
    {
        let m = self.nodes.view();
        assert(m.contains_key(k));
        assert(self.chain(Some(k)) == Self::chain_in(m, Some(k), self.rank@[k] + 1));
        match m[k].next_sibling {
            Some(n) => {
                self.lemma_chain_fuel(n, (fuel - 1) as nat);
                self.lemma_chain_fuel(n, self.rank@[k]);
                assert(Self::chain_in(m, Some(k), fuel) == seq![k] + Self::chain_in(m, Some(n), (fuel - 1) as nat));
                assert(Self::chain_in(m, Some(k), self.rank@[k] + 1) == seq![k] + Self::chain_in(m, Some(n), self.rank@[k]));
            },
            None => {
                assert(Self::chain_in(m, Some(k), fuel) == seq![k] + Self::chain_in(m, None, (fuel - 1) as nat));
                assert(Self::chain_in(m, Some(k), self.rank@[k] + 1) == seq![k] + Self::chain_in(m, None, self.rank@[k]));
            },
        }
    }

    /// A list is its first node followed by the list after it.
    pub proof fn lemma_chain_unfold(self, k: ArenaKey)
        requires
            self.wf(),
            self.contains(k),
        ensures
            self.chain(Some(k)) == seq![k] + self.chain(self.next(k)),
    {
        let m = self.nodes.view();
        assert(m.contains_key(k));
        let f = self.rank@[k] + 1;
        assert(self.chain(Some(k)) == Self::chain_in(m, Some(k), f));
        assert(Self::chain_in(m, Some(k), f) == seq![k] + Self::chain_in(m, m[k].next_sibling, (f - 1) as nat));
        match m[k].next_sibling {
            Some(n) => {
                self.lemma_chain_fuel(n, self.rank@[k]);
                assert(Self::chain_in(m, Some(n), self.rank@[k]) == self.chain(Some(n)));
                assert(self.next(k) == Some(n));
            },
            None => {},
        }
    }

    /// Following links from a key that names no node gives the empty list.
    pub proof fn lemma_chain_absent(self, start: Option<ArenaKey>)
        requires
            start matches Some(k) ==> !self.contains(k),
        ensures
            self.chain(start) == Seq::<ArenaKey>::empty(),
    {
    }

    proof fn lemma_chain_in_frame(
        ma: Map<ArenaKey, ListArenaNode<T>>,
        mb: Map<ArenaKey, ListArenaNode<T>>,
        start: Option<ArenaKey>,
        fuel: nat,
    )
        requires
            forall|k: ArenaKey| #[trigger]
                ma.contains_key(k) ==> mb.contains_key(k) && mb[k].next_sibling == ma[k].next_sibling,
            forall|k: ArenaKey| #[trigger]
                ma.contains_key(k) && ma[k].next_sibling is Some ==> ma.contains_key(
                    ma[k].next_sibling->Some_0,
                ),
            start matches Some(k) ==> ma.contains_key(k),
        ensures
            Self::chain_in(ma, start, fuel) == Self::chain_in(mb, start, fuel),
        decreases fuel,
    {
        match start {
            Some(k) => {
                if fuel > 0 {
                    assert(ma.contains_key(k));
                    Self::lemma_chain_in_frame(ma, mb, ma[k].next_sibling, (fuel - 1) as nat);
                }
            },
            None => {},
        }
    }

    /// Lists are unaffected by changes outside the nodes they pass through:
    /// if every node of `a` is still in `b` with the same successor, the same
    /// lists run from every node of `a`.
    proof fn lemma_chain_frame(a: Self, b: Self, start: Option<ArenaKey>)
        requires
            a.wf(),
            forall|k: ArenaKey| #[trigger]
                a.contains(k) ==> b.contains(k) && b.next(k) == a.next(k) && b.rank@[k] == a.rank@[k],
            start matches Some(k) ==> a.contains(k),
        ensures
            a.chain(start) == b.chain(start),
    {
        let ma = a.nodes.view();
        let mb = b.nodes.view();
        assert forall|k: ArenaKey| #[trigger]
            ma.contains_key(k) implies mb.contains_key(k) && mb[k].next_sibling == ma[k].next_sibling by {
            assert(a.contains(k));
        }
        match start {
            Some(k) => {
                assert(a.contains(k));
                Self::lemma_chain_in_frame(ma, mb, start, a.rank@[k] + 1);
            },
            None => {},
        }
    }

    /// The two arenas hold nodes under the same keys, linked the same way;
    /// only the items may differ.
    pub closed spec fn same_links(self, other: Self) -> bool {
        &&& forall|k: ArenaKey| #[trigger] self.contains(k) == other.contains(k)
        &&& forall|k: ArenaKey| #[trigger] self.next(k) == other.next(k)
        &&& forall|k: ArenaKey| #[trigger] self.prev(k) == other.prev(k)
        &&& self.rank@ == other.rank@
    }

    /// Arenas with the same links hold the same lists.
    pub proof fn lemma_same_links_chain(self, other: Self, start: Option<ArenaKey>)
        requires
            self.wf(),
            self.same_links(other),
        ensures
            self.chain(start) == other.chain(start),
    {
        match start {
            Some(k) => {
                if self.contains(k) {
                    Self::lemma_chain_frame(self, other, start);
                }
            },
            None => {},
        }
    }

    pub fn new() -> (arena: Self)
        ensures
            arena.wf(),
            forall|k: ArenaKey| !arena.contains(k) && !arena.issued(k),
    {
        ListArena { nodes: DenseArena::new(), rank: Ghost(Map::empty()) }
    }

    /// The item stored at `key`, if `key` names a node.
    pub fn get(&mut self, key: ArenaKey) -> (r: Option<&T>)
        requires
            old(self).wf(),
        ensures
            *final(self) == *old(self),
            match r {
                Some(v) => old(self).contains(key) && *v == old(self).data(key),
                None => !old(self).contains(key),
            },
    {
        match self.nodes.get(key) {
            Some(node) => Some(&node.data),
            None => None,
        }
    }

    /// Mutable access to the item stored at `key`, if `key` names a node.
    /// Only that item can change through the returned reference.
    pub fn get_mut(&mut self, key: ArenaKey) -> (r: Option<&mut T>)
        requires
            old(self).wf(),
        ensures
            final(self).wf(),
            forall|k: ArenaKey| #[trigger] final(self).contains(k) == old(self).contains(k),
            forall|k: ArenaKey| #[trigger] final(self).next(k) == old(self).next(k),
            forall|k: ArenaKey| #[trigger] final(self).prev(k) == old(self).prev(k),
            forall|k: ArenaKey| #[trigger] final(self).issued(k) == old(self).issued(k),
            forall|k: ArenaKey| #[trigger] final(self).retired(k) == old(self).retired(k),
            final(self).same_links(*old(self)),
            forall|k: ArenaKey| k != key ==> #[trigger] final(self).data(k) == old(self).data(k),
            match r {
                Some(v) => old(self).contains(key),
                None => !old(self).contains(key) && *final(self) == *old(self),
            },
            r matches Some(v) ==> *v == old(self).data(key),
            r matches Some(v) ==> final(self).data(key) == *final(v),
    {
        let r = match self.nodes.get_mut(key) {
            Some(node) => Some(&mut node.data),
            None => None,
        };
        r
    }

    /// Puts `value` at the front of the list whose head is `head`, and makes
    /// the new node the head.
    pub fn add(&mut self, head: &mut Option<ArenaKey>, value: T) -> (k: ArenaKey)
        requires
            old(self).wf(),
            old(self).is_head(*old(head)),
        ensures
            final(self).wf(),
            *final(head) == Some(k),
            final(self).is_head(*final(head)),
            !old(self).issued(k),
            !old(self).contains(k),
            final(self).contains(k),
            final(self).data(k) == value,
            final(self).chain(Some(k)) == seq![k] + old(self).chain(*old(head)),
            forall|s: Option<ArenaKey>| s != Some(k) ==> #[trigger] final(self).chain(s) == old(self).chain(s),
            forall|j: ArenaKey| j != k ==> #[trigger] final(self).contains(j) == old(self).contains(j),
            forall|j: ArenaKey| old(self).contains(j) ==> #[trigger] final(self).data(j) == old(self).data(j),
            forall|j: ArenaKey| #[trigger] final(self).retired(j) == old(self).retired(j),
    {
        let ghost old_self = *self;
        let node = ListArenaNode { data: value, next_sibling: *head, prev_sibling: None };
        let k = self.nodes.insert(node);
        let ghost new_rank: nat = match *head {
            Some(h) => self.rank@[h] + 1,
            None => 0,
        };
        self.rank = Ghost(self.rank@.insert(k, new_rank));
        match *head {
            Some(h) => {
                match self.nodes.get_mut(h) {
                    Some(head_node) => {
                        head_node.prev_sibling = Some(k);
                    },
                    None => {},
                }
            },
            None => {},
        }
        *head = Some(k);
        proof {
            let m0 = old_self.nodes.view();
            let m = self.nodes.view();
            assert(!m0.contains_key(k));
            assert forall|x: ArenaKey| #[trigger]
                m.contains_key(x) && m[x].next_sibling is Some implies {
                let n = m[x].next_sibling->Some_0;
                &&& m.contains_key(n)
                &&& m[n].prev_sibling == Some(x)
                &&& self.rank@[n] < self.rank@[x]
            } by {
                if x != k {
                    assert(m0.contains_key(x));
                    let n = m0[x].next_sibling->Some_0;
                    assert(m0.contains_key(n));
                    if Some(n) == *old(head) {
                        assert(m0[n].prev_sibling == Some(x));
                    }
                }
            }
            assert forall|x: ArenaKey| #[trigger]
                m.contains_key(x) && m[x].prev_sibling is Some implies {
                let p = m[x].prev_sibling->Some_0;
                &&& m.contains_key(p)
                &&& m[p].next_sibling == Some(x)
            } by {
                if x != k && Some(x) != *old(head) {
                    assert(m0.contains_key(x));
                    let p = m0[x].prev_sibling->Some_0;
                    assert(m0.contains_key(p));
                }
            }
            assert(self.wf());
            assert forall|x: ArenaKey| #[trigger]
                old_self.contains(x) implies self.contains(x) && self.next(x) == old_self.next(x)
                && self.rank@[x] == old_self.rank@[x] by {
                assert(m0.contains_key(x));
            }
            assert forall|s: Option<ArenaKey>| s != Some(k) implies #[trigger] self.chain(s)
                == old_self.chain(s) by {
                match s {
                    Some(x) => {
                        if old_self.contains(x) {
                            Self::lemma_chain_frame(old_self, *self, s);
                        }
                    },
                    None => {},
                }
            }
            self.lemma_chain_unfold(k);
            match *old(head) {
                Some(h) => {
                    Self::lemma_chain_frame(old_self, *self, Some(h));
                },
                None => {},
            }
        }
        k
    }

    proof fn lemma_remove_chain(old_arena: Self, new_arena: Self, key: ArenaKey, s: Option<ArenaKey>)
        requires
            old_arena.wf(),
            new_arena.wf(),
            old_arena.contains(key),
            !new_arena.contains(key),
            new_arena.rank@ == old_arena.rank@,
            forall|j: ArenaKey| j != key ==> #[trigger] new_arena.contains(j) == old_arena.contains(j),
            forall|j: ArenaKey| #[trigger]
                new_arena.contains(j) ==> new_arena.next(j) == (if old_arena.next(j) == Some(key) {
                    old_arena.next(key)
                } else {
                    old_arena.next(j)
                }),
            s != Some(key),
        ensures
            new_arena.chain(s) == old_arena.chain(s).filter(other_than(key)),
        decreases
                (match s {
                    Some(x) => old_arena.rank@[x],
                    None => 0,
                }),
    {
        let pred = other_than(key);
        match s {
            Some(x) => {
                if old_arena.contains(x) {
                    assert(new_arena.contains(x));
                    new_arena.lemma_chain_unfold(x);
                    old_arena.lemma_chain_unfold(x);
                    assert(old_arena.nodes.view().contains_key(x));
                    let rest = old_arena.chain(old_arena.next(x));
                    rest.lemma_filter_prepend(x, pred);
                    assert(pred(x));
                    assert(old_arena.chain(s).filter(pred) == seq![x] + rest.filter(pred));
                    let t = new_arena.next(x);
                    assert(new_arena.chain(s) == seq![x] + new_arena.chain(t));
                    if old_arena.next(x) == Some(key) {
                        old_arena.lemma_chain_unfold(key);
                        assert(old_arena.nodes.view().contains_key(key));
                        let rest2 = old_arena.chain(old_arena.next(key));
                        rest2.lemma_filter_prepend(key, pred);
                        assert(!pred(key));
                        assert(rest.filter(pred) == Seq::<ArenaKey>::empty() + rest2.filter(pred));
                        assert(rest.filter(pred) =~= rest2.filter(pred));
                        assert(t == old_arena.next(key));
                        match t {
                            Some(y) => {
                                Self::lemma_remove_chain(old_arena, new_arena, key, Some(y));
                            },
                            None => {
                                assert(rest2.filter(pred) =~= Seq::<ArenaKey>::empty());
                            },
                        }
                        assert(new_arena.chain(t) == rest.filter(pred));
                        assert(new_arena.chain(s) == old_arena.chain(s).filter(pred));
                    } else {
                        assert(t == old_arena.next(x));
                        match t {
                            Some(y) => {
                                Self::lemma_remove_chain(old_arena, new_arena, key, Some(y));
                            },
                            None => {
                                assert(rest.filter(pred) =~= Seq::<ArenaKey>::empty());
                            },
                        }
                        assert(new_arena.chain(t) == rest.filter(pred));
                    }
                    assert(new_arena.chain(s) == old_arena.chain(s).filter(pred));
                } else {
                    assert(!new_arena.contains(x));
                    assert(old_arena.chain(s).filter(pred) =~= Seq::<ArenaKey>::empty());
                }
            },
            None => {
                assert(old_arena.chain(s).filter(pred) =~= Seq::<ArenaKey>::empty());
            },
        }
    }

    proof fn lemma_chain_filter_absent(self, key: ArenaKey, s: Option<ArenaKey>)
        requires
            self.wf(),
            !self.contains(key),
        ensures
            self.chain(s).filter(other_than(key)) == self.chain(s),
        decreases
                (match s {
                    Some(x) => self.rank@[x],
                    None => 0,
                }),
    {
        match s {
            Some(x) => {
                if self.contains(x) {
                    self.lemma_chain_unfold(x);
                    assert(self.nodes.view().contains_key(x));
                    let rest = self.chain(self.next(x));
                    rest.lemma_filter_prepend(x, other_than(key));
                    match self.next(x) {
                        Some(y) => {
                            self.lemma_chain_filter_absent(key, Some(y));
                        },
                        None => {
                            assert(rest.filter(other_than(key)) =~= rest);
                        },
                    }
                } else {
                    assert(self.chain(s).filter(other_than(key)) =~= self.chain(s));
                }
            },
            None => {
                assert(self.chain(s).filter(other_than(key)) =~= self.chain(s));
            },
        }
    }

    /// Takes the node at `key` out of whatever list holds it and returns its
    /// item; `head` moves on when it named that node.
    #[verifier::rlimit(60)]
    pub fn remove(&mut self, head: &mut Option<ArenaKey>, key: ArenaKey) -> (r: Option<T>)
        requires
            old(self).wf(),
        ensures
            final(self).wf(),
            match r {
                Some(v) => {
                    &&& old(self).contains(key)
                    &&& v == old(self).data(key)
                    &&& !final(self).contains(key)
                    &&& final(self).retired(key)
                    &&& *final(head) == (if *old(head) == Some(key) {
                        old(self).next(key)
                    } else {
                        *old(head)
                    })
                },
                None => {
                    &&& !old(self).contains(key)
                    &&& *final(self) == *old(self)
                    &&& *final(head) == *old(head)
                },
            },
            forall|j: ArenaKey| j != key ==> #[trigger] final(self).contains(j) == old(self).contains(j),
            forall|j: ArenaKey|
                j != key && old(self).contains(j) ==> #[trigger] final(self).data(j) == old(self).data(j),
            forall|j: ArenaKey| old(self).retired(j) ==> #[trigger] final(self).retired(j),
            forall|s: Option<ArenaKey>|
                s != Some(key) ==> #[trigger] final(self).chain(s) == old(self).chain(s).filter(other_than(key)),
            final(self).chain(*final(head)) == old(self).chain(*old(head)).filter(other_than(key)),
            old(self).is_head(*old(head)) ==> final(self).is_head(*final(head)),
    {
        let ghost old_self = *self;
        let ghost old_head = *head;
        match self.nodes.remove(key) {
            Some(node) => {
                match *head {
                    Some(head_key) => {
                        if head_key == key {
                            *head = node.next_sibling;
                        }
                    },
                    None => {},
                }
                match node.prev_sibling {
                    Some(prev) => {
                        match self.nodes.get_mut(prev) {
                            Some(prev_node) => {
                                prev_node.next_sibling = node.next_sibling;
                            },
                            None => {},
                        }
                    },
                    None => {},
                }
                match node.next_sibling {
                    Some(next) => {
                        match self.nodes.get_mut(next) {
                            Some(next_node) => {
                                next_node.prev_sibling = node.prev_sibling;
                            },
                            None => {},
                        }
                    },
                    None => {},
                }
                proof {
                    let m0 = old_self.nodes.view();
                    let m = self.nodes.view();
                    assert(m0.contains_key(key));
                    assert(node == m0[key]);
                    match node.prev_sibling {
                        Some(p) => {
                            assert(m0.contains_key(p));
                            assert(p != key);
                        },
                        None => {},
                    }
                    match node.next_sibling {
                        Some(n) => {
                            assert(m0.contains_key(n));
                            assert(n != key);
                            if let Some(p) = node.prev_sibling {
                                assert(p != n);
                            }
                        },
                        None => {},
                    }
                    assert forall|x: ArenaKey| #[trigger]
                        m.contains_key(x) && m[x].next_sibling is Some implies {
                        let n = m[x].next_sibling->Some_0;
                        &&& m.contains_key(n)
                        &&& m[n].prev_sibling == Some(x)
                        &&& self.rank@[n] < self.rank@[x]
                    } by {
                        assert(m0.contains_key(x));
                        let n0 = m0[x].next_sibling->Some_0;
                        assert(m0.contains_key(n0));
                        if n0 == key {
                            let n = m[x].next_sibling->Some_0;
                            assert(m0.contains_key(n));
                        } else {
                            if m0[n0].prev_sibling == Some(key) {
                                assert(m0[key].next_sibling == Some(n0));
                            }
                        }
                    }
                    assert forall|x: ArenaKey| #[trigger]
                        m.contains_key(x) && m[x].prev_sibling is Some implies {
                        let p = m[x].prev_sibling->Some_0;
                        &&& m.contains_key(p)
                        &&& m[p].next_sibling == Some(x)
                    } by {
                        assert(m0.contains_key(x));
                        let p0 = m0[x].prev_sibling->Some_0;
                        assert(m0.contains_key(p0));
                        if p0 == key {
                            let p = m[x].prev_sibling->Some_0;
                            assert(m0.contains_key(p));
                        } else {
                            if m0[p0].next_sibling == Some(key) {
                                assert(m0[key].prev_sibling == Some(p0));
                            }
                        }
                    }
                    assert(self.wf());
                    assert forall|j: ArenaKey| #[trigger]
                        self.contains(j) implies self.next(j) == (if old_self.next(j) == Some(key) {
                        old_self.next(key)
                    } else {
                        old_self.next(j)
                    }) by {
                        assert(m0.contains_key(j));
                        if old_self.next(j) == Some(key) {
                            assert(m0[key].prev_sibling == Some(j));
                        }
                    }
                    assert forall|s: Option<ArenaKey>| s != Some(key) implies #[trigger] self.chain(s)
                        == old_self.chain(s).filter(other_than(key)) by {
                        Self::lemma_remove_chain(old_self, *self, key, s);
                    }
                    if old_head == Some(key) {
                        old_self.lemma_chain_unfold(key);
                        old_self.chain(old_self.next(key)).lemma_filter_prepend(key, other_than(key));
                        assert(self.chain(*head) == old_self.chain(*head).filter(other_than(key)));
                    } else {
                        assert(self.chain(*head) == old_self.chain(*head).filter(other_than(key)));
                    }
                }
                Some(node.data)
            },
            None => {
                proof {
                    assert forall|s: Option<ArenaKey>| s != Some(key) implies #[trigger] self.chain(s)
                        == old_self.chain(s).filter(other_than(key)) by {
                        self.lemma_chain_filter_absent(key, s);
                    }
                    self.lemma_chain_filter_absent(key, *head);
                }
                None
            },
        }
    }

    /// Calls `f` on each item of the list that starts at `start`, in list
    /// order, letting it change the items; the links stay as they are. Each
    /// item of the list ends as what one call of `f` made of it.
    pub fn for_each_mut<F>(&mut self, start: ArenaKey, mut f: F)
        where
            F: FnMut(&mut T),
        requires
            old(self).wf(),
            forall|k: ArenaKey, x: &mut T|
                #[trigger] old(self).chain(Some(start)).contains(k) && *x == old(self).data(k)
                    ==> #[trigger] f.requires((x,)),
        ensures
            final(self).wf(),
            final(self).same_links(*old(self)),
            forall|k: ArenaKey| #[trigger] final(self).issued(k) == old(self).issued(k),
            forall|k: ArenaKey| #[trigger] final(self).retired(k) == old(self).retired(k),
            forall|k: ArenaKey|
                !old(self).chain(Some(start)).contains(k) ==> #[trigger] final(self).data(k) == old(
                    self,
                ).data(k),
            forall|k: ArenaKey|
                #[trigger] old(self).chain(Some(start)).contains(k) ==> exists|r: &mut T|
                    *r == old(self).data(k) && *final(r) == final(self).data(k) && #[trigger] f.ensures(
                        (r,),
                        (),
                    ),
    {
        let ghost old_self = *self;
        let ghost whole = old_self.chain(Some(start));
        let ghost f0 = f;
        let ghost mut pos: int = 0;
        proof {
            old_self.lemma_chain_no_repeats(Some(start));
        }
        let mut curr = Some(start);
        loop
            invariant
                self.wf(),
                self.same_links(old_self),
                old_self.wf(),
                whole == old_self.chain(Some(start)),
                forall|k: ArenaKey| #[trigger] self.issued(k) == old_self.issued(k),
                forall|k: ArenaKey| #[trigger] self.retired(k) == old_self.retired(k),
                forall|k: ArenaKey| !whole.contains(k) ==> #[trigger] self.data(k) == old_self.data(k),
                0 <= pos <= whole.len(),
                old_self.chain(curr) == whole.subrange(pos, whole.len() as int),
                forall|k: ArenaKey, x: &mut T|
                    #[trigger] whole.contains(k) && *x == old_self.data(k) ==> #[trigger] f0.requires((x,)),
                f == f0,
                forall|i: int, j: int| 0 <= i < j < whole.len() ==> whole[i] != whole[j],
                forall|k: ArenaKey|
                    #[trigger] whole.take(pos).contains(k) ==> exists|r: &mut T|
                        *r == old_self.data(k) && *final(r) == self.data(k) && #[trigger] f0.ensures(
                            (r,),
                            (),
                        ),
                forall|i: int|
                    pos <= i < whole.len() ==> self.data(#[trigger] whole[i]) == old_self.data(whole[i]),
            ensures
                pos == whole.len(),
            decreases
                    (match curr {
                        Some(k) => if old_self.contains(k) {
                            old_self.rank@[k] + 1
                        } else {
                            0
                        },
                        None => 0,
                    }),
        {
            match curr {
                Some(key) => {
                    let ghost before = *self;
                    match self.nodes.get_mut(key) {
                        Some(node) => {
                            proof {
                                assert(before.contains(key));
                                assert(old_self.contains(key));
                                old_self.lemma_chain_unfold(key);
                                assert(old_self.chain(Some(key))[0] == key);
                                assert(curr == Some(key));
                                assert(old_self.chain(curr).len() >= 1);
                                assert(pos < whole.len());
                                assert(whole.subrange(pos, whole.len() as int)[0] == key);
                                assert(whole[pos] == key);
                                assert(whole.contains(key));
                                let c = old_self.chain(old_self.next(key));
                                assert((seq![key] + c).skip(1) =~= c);
                                assert(whole.subrange(pos, whole.len() as int).skip(1) =~= whole.subrange(
                                    pos + 1,
                                    whole.len() as int,
                                ));
                                assert(c == whole.subrange(pos + 1, whole.len() as int));
                                if let Some(n) = old_self.next(key) {
                                    assert(old_self.nodes.view().contains_key(key));
                                }
                            }
                            let ghost nd = *node;
                            f(&mut node.data);
                            proof {
                                assert(node.next_sibling == nd.next_sibling);
                                assert(node.prev_sibling == nd.prev_sibling);
                            }
                            curr = node.next_sibling;
                            proof {
                                assert(whole.take(pos + 1) =~= whole.take(pos).push(key));
                                assert forall|i: int| pos + 1 <= i < whole.len() implies self.data(
                                    #[trigger] whole[i],
                                ) == old_self.data(whole[i]) by {
                                    assert(whole[i] != whole[pos]);
                                }
                                assert forall|k: ArenaKey| #[trigger] whole.take(pos + 1).contains(k) implies exists|r: &mut T|
                                    *r == old_self.data(k) && *final(r) == self.data(k) && #[trigger] f0.ensures(
                                        (r,),
                                        (),
                                    ) by {
                                    if k != key {
                                        assert(whole.take(pos).contains(k));
                                    }
                                }
                                pos = pos + 1;
                                assert(self.nodes.view() == before.nodes.view().insert(key, *node));
                                assert forall|k: ArenaKey| #[trigger] self.next(k) == before.next(k) by {}
                                assert forall|k: ArenaKey| #[trigger] self.prev(k) == before.prev(k) by {}
                                assert forall|k: ArenaKey| #[trigger] self.contains(k) == before.contains(k) by {}
                                assert forall|k: ArenaKey| #[trigger] self.retired(k) == before.retired(k) by {}
                                assert forall|k: ArenaKey| k != key implies #[trigger] self.data(k) == before.data(k) by {}
                                assert(before.next(key) == old_self.next(key));
                                assert(curr == old_self.next(key));
                                assert forall|k: ArenaKey| #[trigger] self.issued(k) == before.issued(k) by {
                                    assert(self.nodes.view().contains_key(k) == before.nodes.view().contains_key(k));
                                }
                            }
                        },
                        None => {
                            proof {
                                assert(!before.contains(key));
                                assert(!old_self.contains(key));
                                old_self.lemma_chain_absent(curr);
                            }
                            break ;
                        },
                    }
                },
                None => {
                    break ;
                },
            }
        }
        proof {
            assert(whole.take(pos) =~= whole);
        }
    }

    /// Calls `f` on each item of the list that starts at `start`, in list
    /// order; `f` need only accept the items of that list, and is not called
    /// at all where `start` names no node. Every item of the list has been
    /// handed to `f` when it returns.
    pub fn for_each<F>(&self, start: ArenaKey, f: F)
        where
            F: Fn(&T),
        requires
            self.wf(),
            forall|k: ArenaKey| #[trigger] self.chain(Some(start)).contains(k) ==> f.requires((&self.data(k),)),
        ensures
            forall|k: ArenaKey| #[trigger] self.chain(Some(start)).contains(k) ==> f.ensures((&self.data(k),), ()),
    {
        let ghost whole = self.chain(Some(start));
        let ghost mut pos: int = 0;
        let mut curr = Some(start);
        loop
            invariant
                self.wf(),
                whole == self.chain(Some(start)),
                forall|k: ArenaKey| #[trigger] whole.contains(k) ==> f.requires((&self.data(k),)),
                0 <= pos <= whole.len(),
                self.chain(curr) == whole.subrange(pos, whole.len() as int),
                forall|i: int| 0 <= i < pos ==> f.ensures((&self.data(#[trigger] whole[i]),), ()),
            ensures
                pos == whole.len(),
            decreases
                    (match curr {
                        Some(k) => if self.contains(k) {
                            self.rank@[k] + 1
                        } else {
                            0
                        },
                        None => 0,
                    }),
        {
            match curr {
                Some(key) => {
                    match self.nodes.get(key) {
                        Some(node) => {
                            proof {
                                assert(self.nodes.view().contains_key(key));
                                self.lemma_chain_unfold(key);
                                assert(self.chain(curr)[0] == key);
                                assert(whole.subrange(pos, whole.len() as int)[0] == key);
                                assert(whole[pos] == key);
                                assert(whole.contains(key));
                                let c = self.chain(self.next(key));
                                assert((seq![key] + c).skip(1) =~= c);
                                assert(whole.subrange(pos, whole.len() as int).skip(1) =~= whole.subrange(
                                    pos + 1,
                                    whole.len() as int,
                                ));
                            }
                            f(&node.data);
                            curr = node.next_sibling;
                            proof {
                                pos = pos + 1;
                            }
                        },
                        None => {
                            proof {
                                self.lemma_chain_absent(curr);
                            }
                            break ;
                        },
                    }
                },
                None => {
                    break ;
                },
            }
        }
        proof {
            assert forall|k: ArenaKey| #[trigger] whole.contains(k) implies f.ensures((&self.data(k),), ()) by {
                let i = choose|i: int| 0 <= i < whole.len() && whole[i] == k;
                assert(f.ensures((&self.data(whole[i]),), ()));
            }
        }
    }
}

impl<T> ListArena<T> {
    /// Ranks strictly decrease along a list, so no key occurs twice in it.
    proof fn lemma_chain_distinct(self, start: Option<ArenaKey>)
        requires
            self.wf(),
        ensures
            forall|i: int, j: int|
                0 <= i < j < self.chain(start).len() ==> self.rank@[self.chain(start)[i]]
                    > self.rank@[self.chain(start)[j]],
            forall|i: int, j: int|
                0 <= i < j < self.chain(start).len() ==> self.chain(start)[i] != self.chain(start)[j],
        decreases
                (match start {
                    Some(x) => self.rank@[x] + 1,
                    None => 0,
                }),
    {
        match start {
            Some(k) => {
                if self.contains(k) {
                    self.lemma_chain_unfold(k);
                    let c = self.chain(start);
                    let rest = self.chain(self.next(k));
                    assert(self.nodes.view().contains_key(k));
                    match self.next(k) {
                        Some(n) => {
                            self.lemma_chain_distinct(self.next(k));
                            self.lemma_chain_unfold(n);
                            assert forall|j: int| 0 <= j < rest.len() implies self.rank@[rest[j]]
                                <= self.rank@[n] by {
                                if j > 0 {
                                    assert(self.rank@[rest[0]] > self.rank@[rest[j]]);
                                }
                            }
                        },
                        None => {},
                    }
                    assert forall|i: int, j: int| 0 <= i < j < c.len() implies self.rank@[c[i]]
                        > self.rank@[c[j]] by {
                        assert(c[j] == rest[j - 1]);
                        if i > 0 {
                            assert(c[i] == rest[i - 1]);
                        }
                    }
                }
            },
            None => {},
        }
    }

    /// A list never passes through the same node twice.
    pub proof fn lemma_chain_no_repeats(self, start: Option<ArenaKey>)
        requires
            self.wf(),
        ensures
            forall|i: int, j: int|
                0 <= i < j < self.chain(start).len() ==> self.chain(start)[i] != self.chain(start)[j],
    {
        self.lemma_chain_distinct(start);
    }

    /// The keys of a list all name nodes of the arena.
    pub proof fn lemma_chain_contains(self, start: Option<ArenaKey>, i: int)
        requires
            self.wf(),
            0 <= i < self.chain(start).len(),
        ensures
            self.contains(self.chain(start)[i]),
        decreases i,
    {
        match start {
            Some(k) => {
                if self.contains(k) {
                    self.lemma_chain_unfold(k);
                    if i > 0 {
                        assert(self.chain(start)[i] == self.chain(self.next(k))[i - 1]);
                        self.lemma_chain_contains(self.next(k), i - 1);
                    }
                }
            },
            None => {},
        }
    }

    /// Every key that names a node was handed out by the arena.
    pub proof fn lemma_contains_is_issued(self, key: ArenaKey)
        ensures
            self.contains(key) ==> self.issued(key),
    {
    }

    /// The links of a well-formed arena name nodes of it, and agree in both
    /// directions.
    pub proof fn lemma_links_named(self, key: ArenaKey)
        requires
            self.wf(),
            self.contains(key),
        ensures
            self.next(key) matches Some(n) ==> self.contains(n) && self.prev(n) == Some(key),
            self.prev(key) matches Some(p) ==> self.contains(p) && self.next(p) == Some(key),
    {
    }

    /// A key whose node was removed names no node: once removed, a key never
    /// resolves again, since every operation keeps retired keys retired.
    pub proof fn lemma_retired_is_absent(self, key: ArenaKey)
        requires
            self.wf(),
            self.retired(key),
        ensures
            !self.contains(key),
    {
        self.nodes.lemma_retired_is_absent(key);
    }

    /// Removing the node that `add` just put at the front of a list gives
    /// back that list, with `head` back where it was, and every key names
    /// the same node, holding the same item, as before the add.
    ///
    /// `before` is the arena and `head` the list's head before the `add`,
    /// `added` the arena after it and `k` the key it returned, `after` the
    /// arena after `remove` of `k` with the new head `new_head`; each is
    /// described by the guarantees of those calls.
    pub proof fn lemma_add_then_remove(
        before: Self,
        head: Option<ArenaKey>,
        added: Self,
        k: ArenaKey,
        after: Self,
        new_head: Option<ArenaKey>,
    )
        requires
            before.wf(),
            added.wf(),
            after.wf(),
            before.is_head(head),
            // what `add(&mut head, v)` returning `k` guarantees
            !before.issued(k),
            added.contains(k),
            added.chain(Some(k)) == seq![k] + before.chain(head),
            forall|s: Option<ArenaKey>| s != Some(k) ==> #[trigger] added.chain(s) == before.chain(s),
            forall|j: ArenaKey| j != k ==> #[trigger] added.contains(j) == before.contains(j),
            forall|j: ArenaKey| before.contains(j) ==> #[trigger] added.data(j) == before.data(j),
            // what `remove(&mut Some(k), k)` then guarantees
            new_head == added.next(k),
            !after.contains(k),
            forall|s: Option<ArenaKey>|
                s != Some(k) ==> #[trigger] after.chain(s) == added.chain(s).filter(other_than(k)),
            forall|j: ArenaKey| j != k ==> #[trigger] after.contains(j) == added.contains(j),
            forall|j: ArenaKey|
                j != k && added.contains(j) ==> #[trigger] after.data(j) == added.data(j),
        ensures
            new_head == head,
            after.chain(new_head) == before.chain(head),
            forall|j: ArenaKey| #[trigger] after.contains(j) == before.contains(j),
            forall|j: ArenaKey| before.contains(j) ==> #[trigger] after.data(j) == before.data(j),
            forall|s: Option<ArenaKey>| #[trigger] after.chain(s) == before.chain(s),
    {
        before.lemma_contains_is_issued(k);
        assert forall|s: Option<ArenaKey>| #[trigger] after.chain(s) == before.chain(s) by {
            if s == Some(k) {
                after.lemma_chain_absent(s);
                before.lemma_chain_absent(s);
            } else {
                assert forall|i: int| 0 <= i < before.chain(s).len() implies before.chain(s)[i] != k by {
                    before.lemma_chain_contains(s, i);
                }
                Self::lemma_filter_without(before.chain(s), k);
            }
        }
        added.lemma_chain_unfold(k);
        assert(added.chain(Some(k)).drop_first() =~= added.chain(added.next(k)));
        assert((seq![k] + before.chain(head)).drop_first() =~= before.chain(head));
        assert(added.chain(added.next(k)) == before.chain(head));
        // the list after `k` is `head`'s list, so `k` was linked to `head`
        match head {
            Some(h) => {
                before.lemma_chain_unfold(h);
                assert(before.chain(head)[0] == h);
                match added.next(k) {
                    Some(n) => {
                        added.lemma_chain_unfold(n);
                        assert(added.chain(Some(n))[0] == n);
                    },
                    None => {},
                }
            },
            None => {
                match added.next(k) {
                    Some(n) => {
                        assert(added.nodes.view().contains_key(k));
                        added.lemma_chain_unfold(n);
                        assert(added.chain(Some(n)).len() > 0);
                    },
                    None => {},
                }
            },
        }
        assert(new_head == head);
        if head is Some {
            assert(head != Some(k)) by {
                assert(before.contains(head->Some_0));
            }
        }
        // `k` was new, so it is nowhere in `head`'s list before the add
        assert forall|i: int| 0 <= i < before.chain(head).len() implies before.chain(head)[i] != k by {
            before.lemma_chain_contains(head, i);
        }
        Self::lemma_filter_without(before.chain(head), k);
    }

    proof fn lemma_filter_without(s: Seq<ArenaKey>, k: ArenaKey)
        requires
            forall|i: int| 0 <= i < s.len() ==> s[i] != k,
        ensures
            s.filter(other_than(k)) == s,
        decreases s.len(),
    {
        if s.len() > 0 {
            let rest = s.drop_first();
            assert(s =~= seq![s[0]] + rest);
            rest.lemma_filter_prepend(s[0], other_than(k));
            assert forall|i: int| 0 <= i < rest.len() implies rest[i] != k by {
                assert(rest[i] == s[i + 1]);
            }
            Self::lemma_filter_without(rest, k);
        } else {
            assert(s.filter(other_than(k)) =~= s);
        }
    }
}

impl<T> Default for ListArena<T> {
    fn default() -> (arena: Self)
        ensures
            arena.wf(),
            forall|k: ArenaKey| !arena.contains(k) && !arena.issued(k),
    {
        ListArena::new()
    }
}

} // verus!
