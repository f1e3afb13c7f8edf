//! An indexed model of the intrusive doubly linked lists that carry the
//! per-frame and per-object metadata records.
//!
//! The native lists are chains of separately allocated nodes; each node holds
//! a payload pointer and links to the next and previous nodes.  Here the node
//! memory is a [`GListMem`] arena and every pointer is an `Option<usize>`
//! index into it, so that traversal can be stated and proved over plain
//! values.  A list is described by the index sequence [`chain`] reached from a
//! head index by following `next` links; [`list_wf`] says that this walk stays
//! in bounds and terminates.

use vstd::prelude::*;

verus! {

/// One node of an intrusive list: a payload handle and the forward and
/// backward links, each an index into the enclosing arena or `None` for a
/// null pointer.
#[derive(Clone, Copy, Debug)]
pub struct GListNode {
    /// Handle of the payload record this node carries.
    pub data: usize,
    /// Index of the next node, or `None` at the tail.
    pub next: Option<usize>,
    /// Index of the previous node, or `None` at the head.
    pub prev: Option<usize>,
}

/// The externally owned node memory that a list's indices point into.
#[derive(Debug)]
pub struct GListMem {
    /// The node arena; a list index addresses this vector.
    pub nodes: Vec<GListNode>,
}

/// The sequence of node indices reached from `head` by following `next`
/// links, or `None` when the walk leaves the arena or fails to reach a null
/// link within `fuel` steps.
pub open spec fn chain_rec(nodes: Seq<GListNode>, head: Option<usize>, fuel: nat) -> Option<
    Seq<usize>,
>
    decreases fuel,
{
    match head {
        None => Some(Seq::empty()),
        Some(i) => if fuel == 0 || i >= nodes.len() {
            None
        } else {
            match chain_rec(nodes, nodes[i as int].next, (fuel - 1) as nat) {
                None => None,
                Some(rest) => Some(seq![i] + rest),
            }
        },
    }
}

/// A well-formed list: the walk from `head` stays inside the arena and
/// reaches a null `next` link.  Any walk that does so visits no node twice,
/// so it ends within `nodes.len()` steps; a cyclic or corrupted chain fails
/// this bound.
pub open spec fn list_wf(nodes: Seq<GListNode>, head: Option<usize>) -> bool {
    chain_rec(nodes, head, nodes.len()) is Some
}

/// The node indices of a well-formed list, in traversal order.
pub open spec fn chain(nodes: Seq<GListNode>, head: Option<usize>) -> Seq<usize>
    recommends
        list_wf(nodes, head),
{
    chain_rec(nodes, head, nodes.len()).unwrap()
}

/// The payload handles of a well-formed list, in traversal order.
pub open spec fn chain_data(nodes: Seq<GListNode>, head: Option<usize>) -> Seq<usize>
    recommends
        list_wf(nodes, head),
{
    chain(nodes, head).map(|_k: int, i: usize| nodes[i as int].data)
}

/// Raising the fuel of a successful walk changes nothing: the walk already
/// ends at a null link, so the extra steps are never taken.
proof fn lemma_chain_rec_fuel(nodes: Seq<GListNode>, head: Option<usize>, f1: nat, f2: nat)
    requires
        f1 <= f2,
        chain_rec(nodes, head, f1) is Some,
    ensures
        chain_rec(nodes, head, f2) == chain_rec(nodes, head, f1),
    decreases f1,
{
    match head {
        None => {},
        Some(i) => {
            lemma_chain_rec_fuel(nodes, nodes[i as int].next, (f1 - 1) as nat, (f2 - 1) as nat);
        },
    }
}

/// Every index of a successful walk lies inside the arena.
proof fn lemma_chain_rec_in_bounds(nodes: Seq<GListNode>, head: Option<usize>, fuel: nat)
    requires
        chain_rec(nodes, head, fuel) is Some,
    ensures
        forall|k: int|
            0 <= k < chain_rec(nodes, head, fuel).unwrap().len() ==> (
            #[trigger] chain_rec(nodes, head, fuel).unwrap()[k] as int) < nodes.len(),
    decreases fuel,
{
    match head {
        None => {},
        Some(i) => {
            lemma_chain_rec_in_bounds(nodes, nodes[i as int].next, (fuel - 1) as nat);
        },
    }
}

/// The walk does not read `data` or `prev` fields: two arenas of equal
/// length whose `next` links agree produce the same index sequence.
proof fn lemma_chain_rec_links_only(
    n1: Seq<GListNode>,
    n2: Seq<GListNode>,
    head: Option<usize>,
    fuel: nat,
)
    requires
        n1.len() == n2.len(),
        forall|k: int| 0 <= k < n1.len() ==> (#[trigger] n2[k]).next == n1[k].next,
    ensures
        chain_rec(n2, head, fuel) == chain_rec(n1, head, fuel),
    decreases fuel,
{
    match head {
        None => {},
        Some(i) => {
            if fuel > 0 && (i as int) < n1.len() {
                lemma_chain_rec_links_only(n1, n2, n1[i as int].next, (fuel - 1) as nat);
            }
        },
    }
}

/// A list with a null head is well formed and yields nothing.
pub proof fn lemma_null_head(nodes: Seq<GListNode>)
    ensures
        list_wf(nodes, None),
        chain(nodes, None) == Seq::<usize>::empty(),
        chain_data(nodes, None) == Seq::<usize>::empty(),
{
    assert(chain_data(nodes, None) =~= Seq::<usize>::empty());
}

/// Traversal is restartable: it depends only on the `data` fields and `next`
/// links, which it never writes.  Two arenas of equal length that agree on
/// both — such as the same arena before and after a traversal cleared some
/// `prev` links — give the same handles from the same head.
pub proof fn lemma_traversal_repeatable(
    n1: Seq<GListNode>,
    n2: Seq<GListNode>,
    head: Option<usize>,
)
    requires
        n1.len() == n2.len(),
        forall|k: int|
            0 <= k < n1.len() ==> (#[trigger] n2[k]).next == n1[k].next && n2[k].data
                == n1[k].data,
        list_wf(n1, head),
    ensures
        list_wf(n2, head),
        chain(n2, head) == chain(n1, head),
        chain_data(n2, head) == chain_data(n1, head),
{
    lemma_chain_rec_links_only(n1, n2, head, n1.len());
    lemma_chain_rec_in_bounds(n1, head, n1.len());
    assert(chain_data(n2, head) =~= chain_data(n1, head));
}

/// The head index of an arena freshly linked head-to-tail: the first node,
/// or `None` when there are no nodes.
pub open spec fn linked_head(count: nat) -> Option<usize> {
    if count == 0 {
        None
    } else {
        Some(0usize)
    }
}

/// In an arena whose `next` links run `0 -> 1 -> ... -> None`, the walk from
/// node `k` visits exactly the indices `k ..` in order.
proof fn lemma_linear_chain(nodes: Seq<GListNode>, k: int)
    requires
        nodes.len() <= usize::MAX,
        0 <= k < nodes.len(),
        forall|m: int|
            0 <= m < nodes.len() ==> (#[trigger] nodes[m]).next == (if m + 1 < nodes.len() {
                Some((m + 1) as usize)
            } else {
                None
            }),
    ensures
        chain_rec(nodes, Some(k as usize), (nodes.len() - k) as nat) == Some(
            Seq::new((nodes.len() - k) as nat, |t: int| (k + t) as usize),
        ),
    decreases nodes.len() - k,
{
    let ident = Seq::new((nodes.len() - k) as nat, |t: int| (k + t) as usize);
    let i = k as usize;
    let fuel = (nodes.len() - k) as nat;
    assert(nodes[k].next == (if k + 1 < nodes.len() {
        Some((k + 1) as usize)
    } else {
        None
    }));
    if k + 1 < nodes.len() {
        lemma_linear_chain(nodes, k + 1);
        let rest = Seq::new((nodes.len() - k - 1) as nat, |t: int| (k + 1 + t) as usize);
        assert(chain_rec(nodes, Some(i), fuel) == Some(seq![i] + rest));
        assert(seq![i] + rest =~= ident);
    } else {
        assert(chain_rec(nodes, nodes[k].next, (fuel - 1) as nat) == Some(Seq::<usize>::empty()));
        assert(chain_rec(nodes, Some(i), fuel) == Some(seq![i] + Seq::<usize>::empty()));
        assert(seq![i] + Seq::<usize>::empty() =~= ident);
    }
}

/// Links fresh node memory head-to-tail: the `k`-th node carries `data[k]`
/// and points forward to node `k + 1` and backward to node `k - 1`.  The
/// walk from [`linked_head`] then yields exactly the given handles, in
/// order.
pub fn link_nodes(data: &Vec<usize>) -> (r: GListMem)
    ensures
        r.nodes@.len() == data@.len(),
        forall|m: int|
            0 <= m < data@.len() ==> (#[trigger] r.nodes@[m]) == (GListNode {
                data: data@[m],
                next: if m + 1 < data@.len() {
                    Some((m + 1) as usize)
                } else {
                    None
                },
                prev: if m > 0 {
                    Some((m - 1) as usize)
                } else {
                    None
                },
            }),
        list_wf(r.nodes@, linked_head(data@.len())),
        chain(r.nodes@, linked_head(data@.len())) == Seq::new(data@.len(), |t: int| t as usize),
        chain_data(r.nodes@, linked_head(data@.len())) == data@,
{
    let n = data.len();
    let mut nodes: Vec<GListNode> = Vec::new();
    let mut k: usize = 0;
    while k < n
        invariant
            n == data@.len(),
            k <= n,
            nodes@.len() == k,
            forall|m: int|
                0 <= m < k ==> (#[trigger] nodes@[m]) == (GListNode {
                    data: data@[m],
                    next: if m + 1 < n {
                        Some((m + 1) as usize)
                    } else {
                        None
                    },
                    prev: if m > 0 {
                        Some((m - 1) as usize)
                    } else {
                        None
                    },
                }),
        decreases n - k,
    {
        let nxt: Option<usize> = if k + 1 < n {
            Some(k + 1)
        } else {
            None
        };
        let prv: Option<usize> = if k > 0 {
            Some(k - 1)
        } else {
            None
        };
        nodes.push(GListNode { data: data[k], next: nxt, prev: prv });
        k += 1;
    }
    proof {
        let ident = Seq::new(nodes@.len(), |t: int| t as usize);
        if n > 0 {
            lemma_linear_chain(nodes@, 0);
            assert(chain(nodes@, linked_head(data@.len())) == ident);
            assert(chain_data(nodes@, linked_head(data@.len())) =~= data@);
        } else {
            assert(chain(nodes@, linked_head(data@.len())) =~= ident);
            assert(chain_data(nodes@, linked_head(data@.len())) =~= data@);
        }
    }
    GListMem { nodes }
}

/// A forward cursor over the nodes of an intrusive list, yielding node
/// indices.
#[derive(Clone, Copy, Debug)]
pub struct GList {
    /// Index of the node the cursor stands on, or `None` when exhausted.
    pub cur: Option<usize>,
}

impl GList {
    /// Starts a node-level traversal at the given head index.
    pub fn from_glib_full(head: Option<usize>) -> (r: GList)
        ensures
            r.cur == head,
    {
        GList { cur: head }
    }

    /// Yields the index of the node the cursor stands on and advances to the
    /// stored `next` link.  As the native traversal does, it defensively
    /// clears the `prev` link of the node it advances to, and touches
    /// nothing else: every `data` field and `next` link is left as it was.
    pub fn next(&mut self, mem: &mut GListMem) -> (r: Option<usize>)
        requires
            list_wf(old(mem).nodes@, old(self).cur),
        ensures
            final(mem).nodes@.len() == old(mem).nodes@.len(),
            forall|k: int|
                0 <= k < old(mem).nodes@.len() ==> (#[trigger] final(mem).nodes@[k]).data == old(
                    mem,
                ).nodes@[k].data && final(mem).nodes@[k].next == old(mem).nodes@[k].next,
            list_wf(final(mem).nodes@, final(self).cur),
            old(self).cur is None ==> r is None && final(self).cur is None && final(mem).nodes@
                == old(mem).nodes@,
            old(self).cur matches Some(i) ==> {
                &&& r == Some(i)
                &&& (i as int) < old(mem).nodes@.len()
                &&& final(self).cur == old(mem).nodes@[i as int].next
                &&& chain(old(mem).nodes@, old(self).cur) == seq![i] + chain(
                    final(mem).nodes@,
                    final(self).cur,
                )
                &&& chain_data(old(mem).nodes@, old(self).cur) == seq![
                    old(mem).nodes@[i as int].data,
                ] + chain_data(final(mem).nodes@, final(self).cur)
                &&& (match old(mem).nodes@[i as int].next {
                    None => final(mem).nodes@ == old(mem).nodes@,
                    Some(j) => final(mem).nodes@ == old(mem).nodes@.update(
                        j as int,
                        (GListNode {
                            data: old(mem).nodes@[j as int].data,
                            next: old(mem).nodes@[j as int].next,
                            prev: None,
                        }),
                    ),
                })
            },
    {
        match self.cur {
            None => None,
            Some(i) => {
                proof {
                    // A successful walk from `Some(i)` steps into the arena
                    // and continues from the stored `next` link.
                    assert((i as int) < mem.nodes@.len());
                    lemma_chain_rec_fuel(
                        mem.nodes@,
                        mem.nodes@[i as int].next,
                        (mem.nodes@.len() - 1) as nat,
                        mem.nodes@.len(),
                    );
                }
                let node = mem.nodes[i];
                let ghost before = mem.nodes@;
                self.cur = node.next;
                if let Some(j) = node.next {
                    proof {
                        assert((j as int) < mem.nodes@.len());
                    }
                    let mut nd = mem.nodes[j];
                    nd.prev = None;
                    mem.nodes.set(j, nd);
                    proof {
                        lemma_chain_rec_links_only(before, mem.nodes@, node.next, before.len());
                    }
                }
                proof {
                    assert(chain(before, Some(i)) == seq![i] + chain(mem.nodes@, node.next));
                    lemma_chain_rec_in_bounds(before, Some(i), before.len());
                    lemma_chain_rec_links_only(before, mem.nodes@, node.next, before.len());
                    assert(chain_data(before, Some(i)) =~= seq![before[i as int].data]
                        + chain_data(mem.nodes@, node.next));
                }
                Some(i)
            },
        }
    }
}

/// A forward cursor over an intrusive list, yielding the payload handle of
/// each node.
#[derive(Clone, Copy, Debug)]
pub struct GListIter {
    /// Index of the node the cursor stands on, or `None` when exhausted.
    pub cur: Option<usize>,
}

impl GListIter {
    /// Starts a payload-level traversal at the given head index.
    pub fn from_glib_full(head: Option<usize>) -> (r: GListIter)
        ensures
            r.cur == head,
    {
        GListIter { cur: head }
    }

    /// Yields the payload handle of the node the cursor stands on and
    /// advances, clearing the `prev` link of the node it advances to exactly
    /// as [`GList::next`] does.
    pub fn next(&mut self, mem: &mut GListMem) -> (r: Option<usize>)
        requires
            list_wf(old(mem).nodes@, old(self).cur),
        ensures
            final(mem).nodes@.len() == old(mem).nodes@.len(),
            forall|k: int|
                0 <= k < old(mem).nodes@.len() ==> (#[trigger] final(mem).nodes@[k]).data == old(
                    mem,
                ).nodes@[k].data && final(mem).nodes@[k].next == old(mem).nodes@[k].next,
            list_wf(final(mem).nodes@, final(self).cur),
            old(self).cur is None ==> r is None && final(self).cur is None && final(mem).nodes@
                == old(mem).nodes@,
            old(self).cur matches Some(i) ==> {
                &&& (i as int) < old(mem).nodes@.len()
                &&& r == Some(old(mem).nodes@[i as int].data)
                &&& final(self).cur == old(mem).nodes@[i as int].next
                &&& chain(old(mem).nodes@, old(self).cur) == seq![i] + chain(
                    final(mem).nodes@,
                    final(self).cur,
                )
                &&& chain_data(old(mem).nodes@, old(self).cur) == seq![
                    old(mem).nodes@[i as int].data,
                ] + chain_data(final(mem).nodes@, final(self).cur)
                &&& (match old(mem).nodes@[i as int].next {
                    None => final(mem).nodes@ == old(mem).nodes@,
                    Some(j) => final(mem).nodes@ == old(mem).nodes@.update(
                        j as int,
                        (GListNode {
                            data: old(mem).nodes@[j as int].data,
                            next: old(mem).nodes@[j as int].next,
                            prev: None,
                        }),
                    ),
                })
            },
    {
        let ghost entry = mem.nodes@;
        let mut nodes_cursor = GList { cur: self.cur };
        let step = nodes_cursor.next(mem);
        self.cur = nodes_cursor.cur;
        match step {
            None => None,
            Some(i) => {
                // The step preserved every `data` field, so the handle can
                // still be read off the advanced arena.
                proof {
                    assert(mem.nodes@[i as int].data == entry[i as int].data);
                }
                Some(mem.nodes[i].data)
            },
        }
    }

    /// Runs the cursor to exhaustion, returning every payload handle in
    /// traversal order.  The walk reads `data` and `next` only; the `prev`
    /// links it clears do not change what any later traversal from the same
    /// head yields.
    pub fn collect_handles(&mut self, mem: &mut GListMem) -> (r: Vec<usize>)
        requires
            list_wf(old(mem).nodes@, old(self).cur),
        ensures
            r@ == chain_data(old(mem).nodes@, old(self).cur),
            r@.len() == chain(old(mem).nodes@, old(self).cur).len(),
            final(self).cur is None,
            final(mem).nodes@.len() == old(mem).nodes@.len(),
            forall|k: int|
                0 <= k < old(mem).nodes@.len() ==> (#[trigger] final(mem).nodes@[k]).data == old(
                    mem,
                ).nodes@[k].data && final(mem).nodes@[k].next == old(mem).nodes@[k].next,
    {
        let ghost nodes0 = mem.nodes@;
        let ghost cur0 = self.cur;
        let mut out: Vec<usize> = Vec::new();
        while self.cur.is_some()
            invariant
                mem.nodes@.len() == nodes0.len(),
                forall|k: int|
                    0 <= k < nodes0.len() ==> (#[trigger] mem.nodes@[k]).data == nodes0[k].data
                        && mem.nodes@[k].next == nodes0[k].next,
                list_wf(mem.nodes@, self.cur),
                chain_data(nodes0, cur0) == out@ + chain_data(mem.nodes@, self.cur),
                chain(nodes0, cur0).len() == out@.len() + chain(mem.nodes@, self.cur).len(),
            decreases chain(mem.nodes@, self.cur).len(),
        {
            let step = self.next(mem);
            match step {
                None => {},
                Some(handle) => {
                    let ghost out_before = out@;
                    out.push(handle);
                    proof {
                        assert(out@ + chain_data(mem.nodes@, self.cur) =~= out_before + (seq![
                            handle,
                        ] + chain_data(mem.nodes@, self.cur)));
                    }
                },
            }
        }
        proof {
            assert(out@ + chain_data(mem.nodes@, self.cur) =~= out@);
        }
        out
    }
}

} // verus!
