//! The peer registry: a set of known peer addresses with add and evict,
//! and point-in-time snapshots that later mutation cannot touch.

use vstd::prelude::*;
use crate::codec::eq_str;

verus! {

/// A peer of the network, named by its address in host:port form.
#[derive(Debug)]
pub struct Node {
    addr: String,
}

impl View for Node {
    type V = Seq<char>;

    closed spec fn view(&self) -> Seq<char> {
        self.addr@
    }
}

impl Node {
    /// A peer with the given address.
    pub fn new(addr: String) -> (r: Node)
        ensures
            r@ == addr@,
    {
        Node { addr }
    }

    /// A copy of this peer's address.
    pub fn get_addr(&self) -> (r: String)
        ensures
            r@ == self@,
    {
        self.addr.clone()
    }
}

impl Clone for Node {
    /// A clone carries the same address.
    fn clone(&self) -> (r: Self)
        ensures
            r@ == self@,
    {
        Node { addr: self.addr.clone() }
    }
}

/// The addresses of a sequence of peers, in order.
pub open spec fn node_views(ns: Seq<Node>) -> Seq<Seq<char>> {
    ns.map_values(|n: Node| n@)
}

/// Whether the address `a` is among `s`.
pub open spec fn has_addr(s: Seq<Seq<char>>, a: Seq<char>) -> bool {
    exists|i: int| 0 <= i < s.len() && s[i] == a
}

/// No address occurs twice.
pub open spec fn unique_addrs(s: Seq<Seq<char>>) -> bool {
    forall|i: int, j: int| 0 <= i < s.len() && 0 <= j < s.len() && i != j ==> s[i] != s[j]
}

/// The set of known peers, in first-seen order.
pub struct Nodes {
    inner: Vec<Node>,
}

impl View for Nodes {
    type V = Seq<Seq<char>>;

    closed spec fn view(&self) -> Seq<Seq<char>> {
        node_views(self.inner@)
    }
}

impl Nodes {
    /// Each address is a member at most once.
    pub closed spec fn wf(self) -> bool {
        unique_addrs(self@)
    }

    /// An empty registry.
    pub fn new() -> (r: Nodes)
        ensures
            r@ =~= Seq::<Seq<char>>::empty(),
            r.wf(),
    {
        let r = Nodes { inner: Vec::new() };
        proof {
            assert(r@ =~= Seq::<Seq<char>>::empty());
        }
        r
    }

    /// Where the address stands, if it is a member.
    fn find(&self, addr: &str) -> (r: Option<usize>)
        ensures
            (match r {
                Some(i) => i < self@.len() && self@[i as int] == addr@,
                None => !has_addr(self@, addr@),
            }),
    {
        let mut i: usize = 0;
        while i < self.inner.len()
            invariant
                i <= self.inner@.len(),
                forall|j: int| 0 <= j < i ==> self@[j] != addr@,
            decreases self.inner@.len() - i,
        {
            if eq_str(self.inner[i].addr.as_str(), addr) {
                proof {
                    assert(self@[i as int] == addr@);
                }
                return Some(i);
            }
            i += 1;
        }
        None
    }

    /// Adds an address. An address already known is left alone, so adding
    /// it twice yields one member; a new one is appended.
    pub fn add_node(&mut self, addr: String)
        requires
            old(self).wf(),
        ensures
            final(self).wf(),
            has_addr(old(self)@, addr@) ==> final(self)@ == old(self)@,
            !has_addr(old(self)@, addr@) ==> final(self)@ == old(self)@.push(addr@),
    {
        match self.find(addr.as_str()) {
            Some(_) => {
                proof {
                    assert(has_addr(self@, addr@));
                }
            },
            None => {
                let ghost pre = self.inner@;
                self.inner.push(Node { addr });
                proof {
                    assert(self@ =~= node_views(pre).push(self.inner@[self.inner@.len() - 1]@));
                }
            },
        }
    }

    /// Evicts an address. A non-member is a no-op; a member is removed,
    /// the order of the others kept.
    pub fn evict_node(&mut self, addr: &str)
        requires
            old(self).wf(),
        ensures
            final(self).wf(),
            !has_addr(final(self)@, addr@),
            !has_addr(old(self)@, addr@) ==> final(self)@ == old(self)@,
            has_addr(old(self)@, addr@) ==> exists|i: int|
                0 <= i < old(self)@.len() && old(self)@[i] == addr@ && final(self)@ == old(
                    self,
                )@.remove(i),
            forall|a: Seq<char>| a != addr@ ==> has_addr(final(self)@, a) == has_addr(old(self)@, a),
    {
        let found = self.find(addr);
        match found {
            None => {},
            Some(i) => {
                let ghost pre = self@;
                self.inner.remove(i);
                proof {
                    assert(self@ =~= pre.remove(i as int));
                    assert forall|k: int| 0 <= k < self@.len() implies self@[k] != addr@ by {
                        if k < i {
                        } else {
                            assert(self@[k] == pre[k + 1]);
                        }
                    }
                    assert forall|a: Seq<char>|
                        a != addr@ && has_addr(pre, a) implies has_addr(self@, a) by {
                        let w = choose|w: int| 0 <= w < pre.len() && pre[w] == a;
                        if w < i {
                            assert(self@[w] == a);
                        } else {
                            assert(self@[w - 1] == a);
                        }
                    }
                    assert forall|a: Seq<char>|
                        a != addr@ && has_addr(self@, a) implies has_addr(pre, a) by {
                        let w = choose|w: int| 0 <= w < self@.len() && self@[w] == a;
                        if w < i {
                            assert(pre[w] == a);
                        } else {
                            assert(pre[w + 1] == a);
                        }
                    }
                }
            },
        }
    }

    /// The first peer seen, if any.
    pub fn first(&self) -> (r: Option<Node>)
        ensures
            (match r {
                Some(n) => self@.len() > 0 && n@ == self@[0],
                None => self@.len() == 0,
            }),
    {
        if self.inner.len() == 0 {
            None
        } else {
            Some(self.inner[0].clone())
        }
    }

    /// A point-in-time snapshot of the members, safe to walk while the
    /// registry changes: later mutation cannot touch the copy.
    pub fn get_nodes(&self) -> (r: Vec<Node>)
        ensures
            node_views(r@) == self@,
    {
        let mut out: Vec<Node> = Vec::new();
        let mut i: usize = 0;
        while i < self.inner.len()
            invariant
                i <= self.inner@.len(),
                out@.len() == i,
                node_views(out@) =~= self@.take(i as int),
            decreases self.inner@.len() - i,
        {
            let ghost pre = out@;
            out.push(self.inner[i].clone());
            i += 1;
            proof {
                assert(node_views(out@) =~= node_views(pre).push(out@[out@.len() - 1]@));
                assert(node_views(out@) =~= self@.take(i as int));
            }
        }
        proof {
            assert(self@.take(self@.len() as int) =~= self@);
        }
        out
    }

    /// How many peers are known.
    pub fn len(&self) -> (r: usize)
        ensures
            r == self@.len(),
    {
        self.inner.len()
    }

    /// Whether the address is a member.
    pub fn node_is_known(&self, addr: &str) -> (r: bool)
        ensures
            r == has_addr(self@, addr@),
    {
        match self.find(addr) {
            Some(_) => {
                proof {
                    assert(has_addr(self@, addr@));
                }
                true
            },
            None => false,
        }
    }
}

} // verus!
