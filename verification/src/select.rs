//! Waiting for any of several receivers.
//!
//! A [`Select`] is a set of receivers, each of which takes part in it through a [`Handle`].
//! A [`Round`] is a wait for the first of them that has something to offer, one question to
//! a receiver at a time.
use crate::arming::SelectionResult;
use crate::channel::{announced, polled, ready, receive_result, withdrawn, Receiver};
use crate::errors::RecvError;
use crate::link::Link;
use crate::texts;
use vstd::prelude::*;

verus! {

/// Where a handle stands in the set; a number of zero stands for no handle.
struct Node {
    prev: usize,
    next: usize,
    added: bool,
}

/// A set of receivers to wait for.
pub struct Select {
    nodes: Vec<Node>,
    head: usize,
    tail: usize,
    next_id: usize,
    order: Ghost<Seq<usize>>,
    identity: Ghost<int>,
}

impl View for Select {
    type V = Seq<usize>;

    /// The numbers of the handles in the set, in the order in which they were added.
    closed spec fn view(&self) -> Seq<usize> {
        self.order@
    }
}

/// The first handle of a set, or zero.
pub open spec fn first(s: Seq<usize>) -> usize {
    if s.len() == 0 {
        0
    } else {
        s[0]
    }
}

/// The handle that comes after `id` in a set, or zero.
pub open spec fn following(s: Seq<usize>, id: usize) -> usize {
    let i = s.index_of(id);
    if i + 1 < s.len() {
        s[i + 1]
    } else {
        0
    }
}

/// A set with `id` at its end, unless it is there already.
pub open spec fn with(s: Seq<usize>, id: usize) -> Seq<usize> {
    if s.contains(id) {
        s
    } else {
        s.push(id)
    }
}

/// A set without `id`.
pub open spec fn without(s: Seq<usize>, id: usize) -> Seq<usize> {
    if s.contains(id) {
        s.remove(s.index_of(id))
    } else {
        s
    }
}

/// To add a handle makes it a member. Those that were members stay where they are, and a new
/// one comes last.
pub proof fn law_added_is_member(s: Seq<usize>, id: usize)
    ensures
        with(s, id).contains(id),
        s.is_prefix_of(with(s, id)),
        s.contains(id) ==> with(s, id).len() == s.len(),
        !s.contains(id) ==> with(s, id).len() == s.len() + 1 && with(s, id).last() == id,
        forall|x: usize| #[trigger] with(s, id).contains(x) == (s.contains(x) || x == id),
{
    if !s.contains(id) {
        assert(s.push(id)[s.len() as int] == id);
    }
    assert forall|x: usize| #[trigger] with(s, id).contains(x) == (s.contains(x) || x == id) by {
        if s.contains(x) {
            assert(with(s, id)[s.index_of(x)] == x);
        }
    }
}

/// A handle that is not a member is nothing to leave out.
proof fn lemma_filter_all(s: Seq<usize>, id: usize)
    requires
        !s.contains(id),
    ensures
        s.filter(|x: usize| x != id) == s,
    decreases s.len(),
{
    reveal(Seq::filter);
    if s.len() > 0 {
        assert(s.contains(s.last()));
        assert(!s.drop_last().contains(id)) by {
            if s.drop_last().contains(id) {
                assert(s[s.drop_last().index_of(id)] == id);
            }
        }
        lemma_filter_all(s.drop_last(), id);
        assert(s.drop_last().push(s.last()) =~= s);
    }
}

/// What is left of a set when the handle at place `k` is left out.
proof fn lemma_filter_one(s: Seq<usize>, k: int, id: usize)
    requires
        s.no_duplicates(),
        0 <= k < s.len(),
        s[k] == id,
    ensures
        s.filter(|x: usize| x != id) == s.remove(k),
    decreases s.len(),
{
    reveal(Seq::filter);
    let rest = s.drop_last();
    if k == s.len() - 1 {
        assert(!rest.contains(id)) by {
            if rest.contains(id) {
                assert(s[rest.index_of(id)] == id);
            }
        }
        lemma_filter_all(rest, id);
        assert(s.remove(k) =~= rest);
    } else {
        lemma_filter_one(rest, k, id);
        assert(s.last() != id);
        assert(rest.remove(k).push(s.last()) =~= s.remove(k));
    }
}

/// To remove a handle leaves it out and keeps all others in their order.
pub proof fn law_removed_is_no_member(s: Seq<usize>, id: usize)
    requires
        s.no_duplicates(),
    ensures
        !without(s, id).contains(id),
        without(s, id) == s.filter(|x: usize| x != id),
        s.contains(id) ==> without(s, id).len() == s.len() - 1,
        forall|x: usize| #[trigger] without(s, id).contains(x) == (s.contains(x) && x != id),
{
    if s.contains(id) {
        let k = s.index_of(id);
        lemma_filter_one(s, k, id);
        assert forall|x: usize| #[trigger] without(s, id).contains(x) == (s.contains(x) && x
            != id) by {
            if without(s, id).contains(x) {
                let i = without(s, id).index_of(x);
                assert(s[if i < k {
                    i
                } else {
                    i + 1
                }] == x);
            }
            if s.contains(x) && x != id {
                let i = s.index_of(x);
                assert(without(s, id)[if i < k {
                    i
                } else {
                    i - 1
                }] == x);
            }
        }
    } else {
        lemma_filter_all(s, id);
    }
}

/// A walk over a set begins with the first handle, goes from each to the next and ends after
/// the last.
pub proof fn law_walk_visits_all(s: Seq<usize>, i: int)
    requires
        s.no_duplicates(),
        0 <= i < s.len(),
    ensures
        first(s) == s[0],
        i + 1 < s.len() ==> following(s, s[i]) == s[i + 1],
        i + 1 == s.len() ==> following(s, s[i]) == 0,
{
    assert(s.contains(s[i]));
}

/// The node of a handle.
spec fn node(nodes: Seq<Node>, id: usize) -> Node {
    nodes[id - 1]
}

/// The handle at a place of a set, or zero beyond its ends.
spec fn at(s: Seq<usize>, i: int) -> usize {
    if 0 <= i < s.len() {
        s[i]
    } else {
        0
    }
}

/// The nodes link the handles of a set in their order, both ways.
spec fn linked(s: Seq<usize>, nodes: Seq<Node>) -> bool {
    &&& s.no_duplicates()
    &&& forall|i: int| 0 <= i < s.len() ==> 1 <= #[trigger] s[i] <= nodes.len()
    &&& forall|i: int|
        0 <= i < s.len() ==> #[trigger] node(nodes, s[i]) == (Node {
            prev: at(s, i - 1),
            next: at(s, i + 1),
            added: true,
        })
    &&& forall|id: usize|
        1 <= id <= nodes.len() && !s.contains(id) ==> #[trigger] node(nodes, id) == (Node {
            prev: 0,
            next: 0,
            added: false,
        })
}

/// A new node is in no set.
proof fn lemma_linked_new(s: Seq<usize>, nodes: Seq<Node>)
    requires
        linked(s, nodes),
    ensures
        linked(s, nodes.push(Node { prev: 0, next: 0, added: false })),
{
    let nodes2 = nodes.push(Node { prev: 0, next: 0, added: false });
    assert forall|i: int| 0 <= i < s.len() implies #[trigger] node(nodes2, s[i]) == (Node {
        prev: at(s, i - 1),
        next: at(s, i + 1),
        added: true,
    }) by {
        assert(node(nodes, s[i]) == node(nodes2, s[i]));
    }
    assert forall|id: usize|
        1 <= id <= nodes2.len() && !s.contains(id) implies #[trigger] node(nodes2, id) == (Node {
        prev: 0,
        next: 0,
        added: false,
    }) by {
        if id <= nodes.len() {
            assert(node(nodes, id) == node(nodes2, id));
        }
    }
}

/// What the node of a handle says of it.
proof fn lemma_linked_node(s: Seq<usize>, nodes: Seq<Node>, id: usize)
    requires
        linked(s, nodes),
        1 <= id <= nodes.len(),
    ensures
        node(nodes, id).added == s.contains(id),
        s.contains(id) ==> {
            let k = s.index_of(id);
            &&& 0 <= k < s.len() && s[k] == id
            &&& node(nodes, id) == (Node { prev: at(s, k - 1), next: at(s, k + 1), added: true })
        },
{
    if s.contains(id) {
        let k = s.index_of(id);
        assert(node(nodes, s[k]).added);
    }
}

/// The nodes after a handle has come to the end.
proof fn lemma_linked_push(s: Seq<usize>, nodes: Seq<Node>, nodes2: Seq<Node>, id: usize)
    requires
        linked(s, nodes),
        1 <= id <= nodes.len(),
        !s.contains(id),
        nodes2.len() == nodes.len(),
        node(nodes2, id) == (Node { prev: at(s, s.len() - 1), next: 0, added: true }),
        forall|m: usize|
            1 <= m <= nodes.len() && m != id ==> #[trigger] node(nodes2, m) == if s.len() > 0
                && m == s.last() {
                Node { next: id, ..node(nodes, m) }
            } else {
                node(nodes, m)
            },
    ensures
        linked(s.push(id), nodes2),
{
    let s2 = s.push(id);
    assert forall|i: int| 0 <= i < s2.len() implies #[trigger] node(nodes2, s2[i]) == (Node {
        prev: at(s2, i - 1),
        next: at(s2, i + 1),
        added: true,
    }) by {
        if i < s.len() {
            assert(s2[i] == s[i]);
            assert(s.contains(s[i]));
            assert(node(nodes, s[i]).added);
        }
    }
    assert forall|m: usize|
        1 <= m <= nodes2.len() && !s2.contains(m) implies #[trigger] node(nodes2, m) == (Node {
        prev: 0,
        next: 0,
        added: false,
    }) by {
        assert(s2[s.len() as int] == id);
        if s.contains(m) {
            assert(s2[s.index_of(m)] == m);
        }
        assert(node(nodes, m).next == 0);
        if s.len() > 0 {
            assert(s.contains(s.last()));
        }
    }
}

/// The nodes after the handle at place `k` has gone.
proof fn lemma_linked_remove(s: Seq<usize>, nodes: Seq<Node>, nodes2: Seq<Node>, k: int)
    requires
        linked(s, nodes),
        0 <= k < s.len(),
        nodes2.len() == nodes.len(),
        node(nodes2, s[k]) == (Node { prev: 0, next: 0, added: false }),
        forall|m: usize|
            1 <= m <= nodes.len() && m != s[k] ==> #[trigger] node(nodes2, m) == (Node {
                next: if k > 0 && m == s[k - 1] {
                    at(s, k + 1)
                } else {
                    node(nodes, m).next
                },
                prev: if k + 1 < s.len() && m == s[k + 1] {
                    at(s, k - 1)
                } else {
                    node(nodes, m).prev
                },
                added: node(nodes, m).added,
            }),
    ensures
        linked(s.remove(k), nodes2),
{
    let s2 = s.remove(k);
    assert forall|i: int| 0 <= i < s2.len() implies #[trigger] node(nodes2, s2[i]) == (Node {
        prev: at(s2, i - 1),
        next: at(s2, i + 1),
        added: true,
    }) && 1 <= s2[i] <= nodes2.len() by {
        let j = if i < k {
            i
        } else {
            i + 1
        };
        assert(s2[i] == s[j]);
        assert(node(nodes, s[j]) == (Node { prev: at(s, j - 1), next: at(s, j + 1), added: true }));
    }
    assert forall|i: int| 0 <= i < s2.len() implies 1 <= #[trigger] s2[i] <= nodes2.len() by {
        assert(node(nodes2, s2[i]).added);
    }
    assert forall|m: usize|
        1 <= m <= nodes2.len() && !s2.contains(m) implies #[trigger] node(nodes2, m) == (Node {
        prev: 0,
        next: 0,
        added: false,
    }) by {
        if m != s[k] {
            if s.contains(m) {
                let j = s.index_of(m);
                assert(s2[if j < k {
                    j
                } else {
                    j - 1
                }] == m);
            }
            assert(node(nodes, m).added == false);
            assert(k > 0 ==> s.contains(s[k - 1]));
            assert(k + 1 < s.len() ==> s.contains(s[k + 1]));
        }
    }
}

impl Select {
    /// Which set this is; handles carry it, so that they are used with no other set.
    pub closed spec fn identity(&self) -> int {
        self.identity@
    }

    /// How many handles have been made; their numbers count from one.
    pub closed spec fn issued(&self) -> nat {
        self.nodes@.len()
    }

    /// The nodes link the handles of the set in their order, both ways.
    pub closed spec fn wf(&self) -> bool {
        let s = self.order@;
        &&& self.next_id == self.nodes@.len() + 1
        &&& linked(s, self.nodes@)
        &&& self.head == at(s, 0)
        &&& self.tail == at(s, s.len() - 1)
    }

    /// Makes an empty set.
    pub fn new() -> (r: Self)
        ensures
            r.wf(),
            r@ == Seq::<usize>::empty(),
            r.issued() == 0,
    {
        Select {
            nodes: Vec::new(),
            head: 0,
            tail: 0,
            next_id: 1,
            order: Ghost(Seq::empty()),
            identity: Ghost(arbitrary()),
        }
    }

    /// Makes a handle for a receiver, which is not in the set until the handle is added.
    pub fn handle<'a, T>(&mut self, rx: &'a Receiver<T>) -> (r: Handle<'a, T>)
        requires
            old(self).wf(),
            old(self).issued() + 2 <= usize::MAX,
        ensures
            final(self).wf(),
            final(self)@ == old(self)@,
            final(self).issued() == old(self).issued() + 1,
            final(self).identity() == old(self).identity(),
            r.number() == old(self).issued() + 1,
            r.receiver() == rx,
            r.of(final(self)),
    {
        let id: usize = self.issue();
        Handle { id, rx, set: Ghost(self.identity()) }
    }

    /// Gives out the number of a new handle.
    pub fn issue(&mut self) -> (id: usize)
        requires
            old(self).wf(),
            old(self).issued() + 2 <= usize::MAX,
        ensures
            final(self).wf(),
            final(self)@ == old(self)@,
            final(self).issued() == old(self).issued() + 1,
            final(self).identity() == old(self).identity(),
            id == old(self).issued() + 1,
    {
        let id: usize = self.next_id;
        self.next_id = id + 1;
        proof {
            lemma_linked_new(self.order@, self.nodes@);
        }
        self.nodes.push(Node { prev: 0, next: 0, added: false });
        id
    }

    /// Whether no receiver is in the set.
    pub fn is_empty(&self) -> (r: bool)
        requires
            self.wf(),
        ensures
            r == (self@.len() == 0),
    {
        assert(self@.len() > 0 ==> self@[0] != 0);
        self.head == 0 && self.tail == 0
    }

    /// The handles of the set in their order.
    pub fn iter(&self) -> (r: HandleIter)
        requires
            self.wf(),
        ensures
            r.rest() == self@,
            r.walks(self@),
    {
        HandleIter { cur: self.head, rest: Ghost(self.order@) }
    }

    /// The text shown for a set.
    pub fn debug(&self) -> (text: &'static str)
        ensures
            text@ == "Select { .. }"@,
    {
        texts::select()
    }

    /// Puts the handle `id` at the end of the set, unless it is there already.
    pub fn link(&mut self, id: usize)
        requires
            old(self).wf(),
            1 <= id <= old(self).issued(),
        ensures
            final(self).wf(),
            final(self)@ == with(old(self)@, id),
            final(self)@.contains(id),
            old(self)@.contains(id) ==> final(self)@ == old(self)@,
            !old(self)@.contains(id) ==> final(self)@ == old(self)@.push(id),
            final(self).issued() == old(self).issued(),
            final(self).identity() == old(self).identity(),
    {
        let ghost s = self.order@;
        let ghost nodes = self.nodes@;
        proof {
            law_added_is_member(s, id);
            lemma_linked_node(s, nodes, id);
            if s.len() > 0 {
                lemma_linked_node(s, nodes, s.last());
                assert(s.contains(s.last()));
            }
        }
        if self.nodes[id - 1].added {
            return;
        }
        if self.head == 0 {
            self.head = id;
        } else {
            let tail: usize = self.tail;
            let prev: usize = self.nodes[tail - 1].prev;
            self.nodes.set(tail - 1, Node { prev, next: id, added: true });
        }
        self.nodes.set(id - 1, Node { prev: self.tail, next: 0, added: true });
        self.tail = id;
        self.order = Ghost(s.push(id));
        proof {
            lemma_linked_push(s, nodes, self.nodes@, id);
        }
    }
}

impl Select {
    /// Takes the handle `id` out of the set, if it is there.
    pub fn unlink(&mut self, id: usize)
        requires
            old(self).wf(),
            1 <= id <= old(self).issued(),
        ensures
            final(self).wf(),
            final(self)@ == without(old(self)@, id),
            !final(self)@.contains(id),
            final(self)@ == old(self)@.filter(|x: usize| x != id),
            final(self).issued() == old(self).issued(),
            final(self).identity() == old(self).identity(),
    {
        let ghost s = self.order@;
        let ghost nodes = self.nodes@;
        let ghost k = s.index_of(id);
        proof {
            law_removed_is_no_member(s, id);
            lemma_linked_node(s, nodes, id);
        }
        if !self.nodes[id - 1].added {
            return;
        }
        let prev: usize = self.nodes[id - 1].prev;
        let next: usize = self.nodes[id - 1].next;
        proof {
            if k > 0 {
                lemma_linked_node(s, nodes, s[k - 1]);
                assert(s.contains(s[k - 1]));
            }
            if k + 1 < s.len() {
                lemma_linked_node(s, nodes, s[k + 1]);
                assert(s.contains(s[k + 1]));
            }
        }
        if prev == 0 {
            self.head = next;
        } else {
            let before: usize = self.nodes[prev - 1].prev;
            self.nodes.set(prev - 1, Node { prev: before, next, added: true });
        }
        if next == 0 {
            self.tail = prev;
        } else {
            let after: usize = self.nodes[next - 1].next;
            self.nodes.set(next - 1, Node { prev, next: after, added: true });
        }
        self.nodes.set(id - 1, Node { prev: 0, next: 0, added: false });
        self.order = Ghost(s.remove(k));
        proof {
            lemma_linked_remove(s, nodes, self.nodes@, k);
        }
    }

    /// The handle that comes after `id`, or zero.
    pub fn successor(&self, id: usize) -> (r: usize)
        requires
            self.wf(),
            self@.contains(id),
        ensures
            r == following(self@, id),
            forall|i: int|
                0 <= i < self@.len() && #[trigger] self@[i] == id ==> r == (if i + 1
                    < self@.len() {
                    self@[i + 1]
                } else {
                    0
                }),
    {
        proof {
            assert forall|i: int| 0 <= i < self@.len() && #[trigger] self@[i] == id implies i
                == self@.index_of(id) by {
            }
            lemma_linked_node(self@, self.nodes@, self@[self@.index_of(id)]);
        }
        self.nodes[id - 1].next
    }
}

/// A receiver's part in a set of receivers.
pub struct Handle<'rx, T> {
    id: usize,
    rx: &'rx Receiver<T>,
    set: Ghost<int>,
}

impl<'rx, T> Handle<'rx, T> {
    /// The number of the handle.
    pub closed spec fn number(&self) -> usize {
        self.id
    }

    /// Which set the handle was made by.
    pub closed spec fn set(&self) -> int {
        self.set@
    }

    /// The receiver.
    pub closed spec fn receiver(&self) -> &'rx Receiver<T> {
        self.rx
    }
}

/// A walk over the handles of a set.
pub struct HandleIter {
    cur: usize,
    rest: Ghost<Seq<usize>>,
}

impl HandleIter {
    /// The handles that are still to come.
    pub closed spec fn rest(&self) -> Seq<usize> {
        self.rest@
    }

    /// The walk goes over the set `s`.
    pub closed spec fn walks(&self, s: Seq<usize>) -> bool {
        &&& self.rest@.is_suffix_of(s)
        &&& self.cur == first(self.rest@)
    }
}

impl HandleIter {
    /// The next handle.
    pub fn next(&mut self, set: &Select) -> (r: Option<usize>)
        requires
            set.wf(),
            old(self).walks(set@),
        ensures
            final(self).walks(set@),
            old(self).rest().len() == 0 ==> r is None && final(self).rest() == old(self).rest(),
            old(self).rest().len() > 0 ==> {
                &&& r == Some(old(self).rest()[0])
                &&& final(self).rest() == old(self).rest().drop_first()
            },
    {
        proof {
            let s = set@;
            let rest = self.rest@;
            let k = s.len() - rest.len();
            assert(rest =~= s.skip(k));
            if rest.len() > 0 {
                assert(s[k] == rest[0]);
                assert(s.index_of(s[k]) == k);
                assert(rest.drop_first() =~= s.skip(k + 1));
                assert(following(s, s[k]) == first(rest.drop_first()));
            }
        }
        if self.cur == 0 {
            None
        } else {
            let ret: usize = self.cur;
            self.cur = set.successor(ret);
            self.rest = Ghost(self.rest@.drop_first());
            Some(ret)
        }
    }
}

impl<'rx, T> Handle<'rx, T> {
    /// The handle was made by the set.
    pub open spec fn of(&self, set: &Select) -> bool {
        self.set() == set.identity() && 1 <= self.number() <= set.issued()
    }

    /// The number of the handle, which a wait returns.
    pub fn id(&self) -> (r: usize)
        ensures
            r == self.number(),
    {
        self.id
    }

    /// Takes the oldest message of the receiver, and waits for one if none is pending.
    pub fn recv(&mut self, link: &mut Link<T>) -> (r: Result<T, RecvError>)
        requires
            old(self).receiver().of(*old(link)),
            old(link).wf(),
            old(link)@.receiver_open,
            !old(link).armed(),
            ready(old(link)@),
        ensures
            *final(self) == *old(self),
            final(link).identity() == old(link).identity(),
            final(link).wf(),
            !final(link).armed(),
            r == receive_result(old(link)@),
            old(link)@.items().len() > 0 ==> {
                &&& r == Ok::<T, RecvError>(old(link)@.items()[0])
                &&& final(link)@.items() == old(link)@.items().drop_first()
            },
            old(link)@.items().len() == 0 ==> {
                &&& r == Err::<T, RecvError>(RecvError)
                &&& final(link)@.items() == old(link)@.items()
            },
            final(link)@ == polled(old(link)@),
            final(link)@.sender_open == old(link)@.sender_open,
            final(link)@.receiver_open == old(link)@.receiver_open,
            final(link)@.connected == old(link)@.connected,
            final(link)@.clock == old(link)@.clock,
    {
        self.rx.recv(link)
    }

    /// Adds the receiver to the set, unless it is there already.
    pub fn add(&mut self, set: &mut Select)
        requires
            old(set).wf(),
            old(self).of(old(set)),
        ensures
            *final(self) == *old(self),
            final(set).wf(),
            final(set)@ == with(old(set)@, old(self).number()),
            final(set)@.contains(old(self).number()),
            old(set)@.contains(old(self).number()) ==> final(set)@ == old(set)@,
            !old(set)@.contains(old(self).number()) ==> final(set)@ == old(set)@.push(old(self).number()),
            final(set).issued() == old(set).issued(),
            final(set).identity() == old(set).identity(),
    {
        set.link(self.id)
    }

    /// Removes the receiver from the set, if it is there.
    pub fn remove(&mut self, set: &mut Select)
        requires
            old(set).wf(),
            old(self).of(old(set)),
        ensures
            *final(self) == *old(self),
            final(set).wf(),
            final(set)@ == without(old(set)@, old(self).number()),
            !final(set)@.contains(old(self).number()),
            final(set)@ == old(set)@.filter(|x: usize| x != old(self).number()),
            final(set).issued() == old(set).issued(),
            final(set).identity() == old(set).identity(),
    {
        set.unlink(self.id)
    }

    /// Gives the handle up; its receiver leaves the set.
    pub fn close(self, set: &mut Select)
        requires
            old(set).wf(),
            self.of(old(set)),
        ensures
            final(set).wf(),
            final(set)@ == without(old(set)@, self.number()),
            !final(set)@.contains(self.number()),
            final(set)@ == old(set)@.filter(|x: usize| x != self.number()),
            final(set).issued() == old(set).issued(),
            final(set).identity() == old(set).identity(),
    {
        set.unlink(self.id)
    }

    /// The text shown for a handle.
    pub fn debug(&self) -> (text: &'static str)
        ensures
            text@ == "Handle { .. }"@,
    {
        texts::handle()
    }
}

/// How a receiver answered the request to announce a token.
#[derive(Clone, Copy, Debug, PartialEq, Eq, Structural)]
pub enum StartResult {
    /// The token will be signalled.
    Installed,
    /// There is no need to wait.
    Abort,
}

/// What a set of receivers needs of one of them.
pub trait Packet: Sized {
    /// The messages.
    type Item;

    /// The receiver can be asked.
    spec fn valid(&self) -> bool;

    /// The messages that are pending, oldest first.
    spec fn pending(&self) -> Seq<Self::Item>;

    /// Whether more messages may come.
    spec fn connected(&self) -> bool;

    /// A message can be seen without looking further than the current queue.
    spec fn visible(&self) -> bool;

    /// A token has been announced and not been taken back.
    spec fn waiting(&self) -> bool;

    /// Which receiver this is.
    spec fn identity(&self) -> int;

    /// `after` is what the request to announce `token` makes of it.
    spec fn starts(&self, token: usize, after: &Self) -> bool;

    /// `after` is what the request to take the announcement back makes of it.
    spec fn aborts(&self, after: &Self) -> bool;

    /// Whether a message can be seen.
    fn can_recv(&self) -> (r: bool)
        requires
            self.valid(),
        ensures
            r == self.visible(),
            r ==> self.pending().len() > 0,
    ;

    /// Announces a token, unless there is no need to wait.
    fn start_selection(&mut self, token: usize) -> (r: StartResult)
        requires
            old(self).valid(),
            !old(self).waiting(),
            token != 0,
        ensures
            final(self).valid(),
            final(self).waiting() == (r is Installed),
            old(self).starts(token, final(self)),
            r is Abort == eventful(old(self).pending(), old(self).connected()),
            final(self).pending() == old(self).pending(),
            final(self).connected() == old(self).connected(),
            final(self).visible() == old(self).visible(),
            final(self).identity() == old(self).identity(),
    ;

    /// Takes the announcement back; returns whether there was no need to wait any more.
    fn abort_selection(&mut self) -> (r: bool)
        requires
            old(self).valid(),
            old(self).waiting(),
        ensures
            final(self).valid(),
            !final(self).waiting(),
            old(self).aborts(final(self)),
            r == eventful(old(self).pending(), old(self).connected()),
            final(self).pending() == old(self).pending(),
            final(self).connected() == old(self).connected(),
            final(self).visible() == old(self).visible(),
            final(self).identity() == old(self).identity(),
    ;
}

/// A receiver has something to offer: a message, or the news that no more will come.
pub open spec fn eventful<M>(pending: Seq<M>, connected: bool) -> bool {
    pending.len() > 0 || !connected
}

impl<T> Packet for Link<T> {
    type Item = T;

    open spec fn valid(&self) -> bool {
        self.wf() && self@.receiver_open
    }

    open spec fn pending(&self) -> Seq<T> {
        self@.items()
    }

    open spec fn connected(&self) -> bool {
        self@.sender_open
    }

    open spec fn visible(&self) -> bool {
        self@.front().items.len() > 0
    }

    open spec fn waiting(&self) -> bool {
        self.armed()
    }

    open spec fn identity(&self) -> int {
        Link::identity(self)
    }

    open spec fn starts(&self, token: usize, after: &Self) -> bool {
        &&& after@ == announced(self@, token)
        &&& after.armed() == !ready(self@)
    }

    open spec fn aborts(&self, after: &Self) -> bool {
        &&& after@ == withdrawn(self@)
        &&& !after.armed()
    }

    fn can_recv(&self) -> (r: bool) {
        Receiver::new(Ghost(Link::identity(self))).can_recv(self)
    }

    fn start_selection(&mut self, token: usize) -> (r: StartResult) {
        match Receiver::new(Ghost(Link::identity(self))).start_selection(self, token) {
            SelectionResult::SelSuccess => StartResult::Installed,
            SelectionResult::SelCanceled => StartResult::Abort,
        }
    }

    fn abort_selection(&mut self) -> (r: bool) {
        Receiver::new(Ghost(Link::identity(self))).abort_selection(self)
    }
}

/// A wait for one of the receivers of a set.
#[derive(Clone, Copy, Debug, PartialEq, Eq, Structural)]
pub enum Round {
    /// Ask a handle whether it can receive.
    Probe(usize),
    /// None can: make a token.
    Token,
    /// Announce the token at a handle; stands with the number of handles before it.
    Install(usize, usize),
    /// A handle has no need to wait. Take back the announcement at the first handle given,
    /// which is one of so many left; the last is the handle that has no need to wait.
    Rollback(usize, usize, usize),
    /// Sleep until the token has been signalled.
    Wait,
    /// Take back the announcement at a handle; stands with the last handle so far that had
    /// something to offer.
    Collect(usize, Option<usize>),
    /// Finished, with the handle that has something to offer.
    Done(usize),
}

impl Round {
    /// Goes on to ask `id` whether it can receive.
    pub open spec fn probing(id: usize) -> Self {
        if id == 0 {
            Round::Token
        } else {
            Round::Probe(id)
        }
    }

    /// Goes on to announce the token at `id`, which has `n` handles before it.
    pub open spec fn installing(id: usize, n: usize) -> Self {
        if id == 0 {
            Round::Wait
        } else {
            Round::Install(id, n)
        }
    }

    /// Goes on to take back `left` announcements from `id` on.
    pub open spec fn rolling(id: usize, left: usize, ready: usize) -> Self {
        if left == 0 {
            Round::Done(ready)
        } else {
            Round::Rollback(id, left, ready)
        }
    }

    /// Goes on to take back all announcements from `id` on.
    pub open spec fn collecting(id: usize, ready: Option<usize>) -> Self {
        if id == 0 {
            Round::Done(ready->0)
        } else {
            Round::Collect(id, ready)
        }
    }

    /// The first question of a wait.
    pub open spec fn start(s: Seq<usize>, do_preflight_checks: bool) -> Self {
        if do_preflight_checks {
            Round::probing(first(s))
        } else {
            Round::Token
        }
    }

    /// How a wait goes on after a question that was answered with yes or no. The questions
    /// are whether the handle can receive, whether it had no need to wait, whether the token
    /// has been signalled, and whether a message had come or the sender had gone.
    pub open spec fn next(self, s: Seq<usize>, yes: bool) -> Self {
        match self {
            Round::Probe(id) => if yes {
                Round::Done(id)
            } else {
                Round::probing(following(s, id))
            },
            Round::Token => Round::installing(first(s), 0),
            Round::Install(id, n) => if yes {
                Round::rolling(first(s), n, id)
            } else {
                Round::installing(following(s, id), (n + 1) as usize)
            },
            Round::Rollback(id, left, ready) => {
                Round::rolling(following(s, id), (left - 1) as usize, ready)
            },
            Round::Wait => if yes {
                Round::collecting(first(s), None)
            } else {
                Round::Wait
            },
            Round::Collect(id, ready) => {
                Round::collecting(
                    following(s, id),
                    if yes {
                        Some(id)
                    } else {
                        ready
                    },
                )
            },
            Round::Done(_) => self,
        }
    }

    /// The handles at which the token is announced.
    pub open spec fn announced(self, s: Seq<usize>) -> Seq<usize> {
        match self {
            Round::Install(_, n) => s.take(n as int),
            Round::Rollback(id, left, _) => {
                s.subrange(s.index_of(id), s.index_of(id) + left)
            },
            Round::Wait => s,
            Round::Collect(id, _) => s.skip(s.index_of(id)),
            _ => Seq::empty(),
        }
    }

    /// The handles that a wait speaks of are in the set and where they should be.
    pub open spec fn proper(self, s: Seq<usize>) -> bool {
        match self {
            Round::Probe(id) => s.contains(id),
            Round::Install(id, n) => n < s.len() && s[n as int] == id,
            Round::Rollback(id, left, ready) => {
                &&& s.contains(id) && left > 0
                &&& s.index_of(id) + left < s.len() && s[s.index_of(id) + left] == ready
            },
            Round::Collect(id, ready) => {
                &&& s.contains(id)
                &&& ready is Some ==> s.contains(ready->0) && s.index_of(ready->0) < s.index_of(id)
            },
            Round::Done(id) => s.contains(id),
            _ => true,
        }
    }

    /// A question can be answered with yes or no: somebody is there to signal the token, and
    /// when all announcements have been taken back, some handle had something to offer.
    pub open spec fn answerable(self, s: Seq<usize>, yes: bool) -> bool {
        match self {
            Round::Wait => yes ==> s.len() > 0,
            Round::Collect(id, ready) => following(s, id) == 0 ==> yes || ready is Some,
            _ => true,
        }
    }
}

/// The handles of a set are numbers from one on, each of which occurs once.
pub open spec fn distinct(s: Seq<usize>) -> bool {
    s.no_duplicates() && !s.contains(0)
}

/// A wait goes from handles of the set to handles of the set.
pub proof fn lemma_round_proper(s: Seq<usize>, at: Round, yes: bool)
    requires
        distinct(s),
        at.proper(s),
        at.answerable(s, yes),
        s.len() <= usize::MAX,
    ensures
        at.next(s, yes).proper(s),
        at matches Round::Install(_, n) ==> n < usize::MAX,
{
    assert(s.len() > 0 ==> s.contains(s[0]) && s.index_of(s[0]) == 0);
    assert forall|id: usize| s.contains(id) implies {
        let next = #[trigger] following(s, id);
        next == 0 || (s.contains(next) && s.index_of(next) == s.index_of(id) + 1)
    } by {
        let i = s.index_of(id);
        if i + 1 < s.len() {
            assert(s.contains(s[i + 1]));
        }
    }
    match at {
        Round::Install(id, n) => {
            assert(s.contains(id) && s.index_of(id) == n);
        },
        Round::Rollback(id, left, ready) => {
            assert(s.contains(ready));
        },
        _ => {},
    }
}

/// The token is announced at a handle exactly when it said that it waits and has not been
/// asked to take the announcement back. Announcements are taken back in the order in which
/// they were made, and none is left at the end.
pub proof fn law_announcements_balance(s: Seq<usize>, at: Round, yes: bool)
    requires
        distinct(s),
        at.proper(s),
        at.answerable(s, yes),
        s.len() <= usize::MAX,
    ensures
        ({
            let before = at.announced(s);
            let after = at.next(s, yes).announced(s);
            match at {
                Round::Probe(_) => before.len() == 0 && after.len() == 0,
                Round::Token => before.len() == 0 && after.len() == 0,
                Round::Install(id, _) => after == if yes {
                    before
                } else {
                    before.push(id)
                },
                Round::Rollback(id, _, _) => {
                    &&& before.len() > 0 && before[0] == id
                    &&& after == before.drop_first()
                },
                Round::Wait => after == before,
                Round::Collect(id, _) => {
                    &&& before.len() > 0 && before[0] == id
                    &&& after == before.drop_first()
                },
                Round::Done(_) => before.len() == 0 && after.len() == 0,
            }
        }),
{
    lemma_round_proper(s, at, yes);
    let before = at.announced(s);
    let after = at.next(s, yes).announced(s);
    assert(s.len() > 0 ==> s.contains(s[0]) && s.index_of(s[0]) == 0);
    match at {
        Round::Install(id, n) => {
            assert(s.contains(id) && s.index_of(id) == n);
            assert(s.take(0) =~= Seq::<usize>::empty());
            assert(after =~= if yes {
                before
            } else {
                before.push(id)
            });
        },
        Round::Rollback(id, left, ready) => {
            let i = s.index_of(id);
            assert(s.contains(s[i + 1]) && s.index_of(s[i + 1]) == i + 1);
            assert(after =~= before.drop_first());
        },
        Round::Collect(id, _) => {
            let i = s.index_of(id);
            if i + 1 < s.len() {
                assert(s.contains(s[i + 1]) && s.index_of(s[i + 1]) == i + 1);
            }
            assert(after =~= before.drop_first());
        },
        Round::Wait => {
            assert(after =~= before);
        },
        _ => {},
    }
}

/// A wait after a row of answers.
pub open spec fn asked(s: Seq<usize>, do_preflight_checks: bool, answers: Seq<bool>) -> Round
    decreases answers.len(),
{
    if answers.len() == 0 {
        Round::start(s, do_preflight_checks)
    } else {
        asked(s, do_preflight_checks, answers.drop_last()).next(s, answers.last())
    }
}

/// Each question can be answered as it is.
pub open spec fn answered(s: Seq<usize>, do_preflight_checks: bool, answers: Seq<bool>) -> bool
    decreases answers.len(),
{
    answers.len() > 0 ==> {
        &&& answered(s, do_preflight_checks, answers.drop_last())
        &&& asked(s, do_preflight_checks, answers.drop_last()).answerable(s, answers.last())
    }
}

/// The question is about the handle `id`, and yes means that it has something to offer.
pub open spec fn about(at: Round, id: usize) -> bool {
    match at {
        Round::Probe(k) => k == id,
        Round::Install(k, _) => k == id,
        Round::Collect(k, _) => k == id,
        _ => false,
    }
}

/// The handle that a wait has settled on so far, if any.
pub open spec fn settled(at: Round) -> Option<usize> {
    match at {
        Round::Rollback(_, _, ready) => Some(ready),
        Round::Collect(_, ready) => ready,
        Round::Done(ready) => Some(ready),
        _ => None,
    }
}

/// The question after the first `k` answers was about `id` and was answered with yes.
pub open spec fn offered(
    s: Seq<usize>,
    do_preflight_checks: bool,
    answers: Seq<bool>,
    k: int,
    id: usize,
) -> bool {
    &&& 0 <= k < answers.len()
    &&& answers[k]
    &&& about(asked(s, do_preflight_checks, answers.take(k)), id)
}

/// The handle that a wait returns is in the set, and it was found to have something to offer
/// when it was asked.
pub proof fn law_selected_has_event(
    s: Seq<usize>,
    do_preflight_checks: bool,
    answers: Seq<bool>,
)
    requires
        distinct(s),
        s.len() <= usize::MAX,
        answered(s, do_preflight_checks, answers),
    ensures
        asked(s, do_preflight_checks, answers).proper(s),
        settled(asked(s, do_preflight_checks, answers)) matches Some(id) ==> {
            &&& s.contains(id)
            &&& exists|k: int| offered(s, do_preflight_checks, answers, k, id)
        },
    decreases answers.len(),
{
    if answers.len() == 0 {
        assert(s.len() > 0 ==> s.contains(s[0]));
    } else {
        let prefix = answers.drop_last();
        let before = asked(s, do_preflight_checks, prefix);
        law_selected_has_event(s, do_preflight_checks, prefix);
        lemma_round_proper(s, before, answers.last());
        let now = asked(s, do_preflight_checks, answers);
        if let Some(id) = settled(now) {
            if settled(before) == Some(id) {
                let k = choose|k: int| offered(s, do_preflight_checks, prefix, k, id);
                assert(prefix.take(k) =~= answers.take(k));
                assert(offered(s, do_preflight_checks, answers, k, id));
            } else {
                let k = answers.len() - 1;
                assert(answers.take(k) =~= prefix);
                assert(offered(s, do_preflight_checks, answers, k, id));
            }
            if let Round::Rollback(i, left, _) = now {
                assert(s.contains(s[s.index_of(i) + left]));
            }
        }
    }
}

/// There are at most `n` different numbers from one to `n`.
proof fn lemma_distinct_len(s: Seq<usize>, n: nat)
    requires
        s.no_duplicates(),
        forall|i: int| 0 <= i < s.len() ==> 1 <= #[trigger] s[i] <= n,
    ensures
        s.len() <= n,
    decreases n,
{
    if n == 0 {
        if s.len() > 0 {
            assert(1 <= s[0] <= 0);
        }
    } else if s.contains(n as usize) {
        let k = s.index_of(n as usize);
        let rest = s.remove(k);
        assert forall|i: int| 0 <= i < rest.len() implies 1 <= #[trigger] rest[i] <= n - 1 by {
            let j = if i < k {
                i
            } else {
                i + 1
            };
            assert(rest[i] == s[j]);
            assert(s[j] != s[k]);
        }
        lemma_distinct_len(rest, (n - 1) as nat);
    } else {
        assert forall|i: int| 0 <= i < s.len() implies 1 <= #[trigger] s[i] <= n - 1 by {
            assert(s.contains(s[i]));
        }
        lemma_distinct_len(s, (n - 1) as nat);
    }
}

/// What a wait finds at the receivers: the packet of each handle stands at the handle's
/// number, counted from one.
pub open spec fn packet<P>(ports: Seq<P>, id: usize) -> P {
    ports[id - 1]
}

/// The receiver of the handle `id` has something to offer.
pub open spec fn has_event<P: Packet>(ports: Seq<P>, id: usize) -> bool {
    eventful(packet(ports, id).pending(), packet(ports, id).connected())
}

/// A message can be seen at the receiver of the handle `id`.
pub open spec fn has_visible<P: Packet>(ports: Seq<P>, id: usize) -> bool {
    packet(ports, id).visible()
}

/// The handle `id` is the first one in the set that has something to offer.
pub open spec fn first_with_event<P: Packet>(s: Seq<usize>, ports: Seq<P>, id: usize) -> bool {
    &&& s.contains(id)
    &&& has_event(ports, id)
    &&& forall|i: int| 0 <= i < s.index_of(id) ==> !has_event(ports, #[trigger] s[i])
}

/// The handle `id` is the first one in the set at which a message can be seen.
pub open spec fn first_with_visible<P: Packet>(s: Seq<usize>, ports: Seq<P>, id: usize) -> bool {
    &&& s.contains(id)
    &&& has_visible(ports, id)
    &&& forall|i: int| 0 <= i < s.index_of(id) ==> !has_visible(ports, #[trigger] s[i])
}

/// A message can be seen at some handle of the set.
pub open spec fn any_visible<P: Packet>(s: Seq<usize>, ports: Seq<P>) -> bool {
    exists|i: int| 0 <= i < s.len() && has_visible(ports, #[trigger] s[i])
}

/// Some handle of the set has something to offer.
pub open spec fn any_event<P: Packet>(s: Seq<usize>, ports: Seq<P>) -> bool {
    exists|i: int| 0 <= i < s.len() && has_event(ports, #[trigger] s[i])
}

/// The receivers of a set can be asked, and those that wait are the ones given.
pub open spec fn askable<P: Packet>(s: Seq<usize>, ports: Seq<P>, waiting: Seq<usize>) -> bool {
    forall|i: int|
        0 <= i < s.len() ==> {
            let id = #[trigger] s[i];
            &&& 1 <= id <= ports.len()
            &&& packet(ports, id).valid()
            &&& packet(ports, id).waiting() == waiting.contains(id)
        }
}

/// The receivers hold what they held.
pub open spec fn undisturbed<P: Packet>(before: Seq<P>, after: Seq<P>) -> bool {
    &&& before.len() == after.len()
    &&& forall|i: int|
        0 <= i < before.len() ==> {
            &&& (#[trigger] after[i]).pending() == before[i].pending()
            &&& after[i].connected() == before[i].connected()
            &&& after[i].visible() == before[i].visible()
            &&& after[i].identity() == before[i].identity()
        }
}

/// What it means for a handle to be found: it is the first one of the set, counted from the
/// front, whose receiver has a message or has lost its sender, or at which a message can be
/// seen.
pub proof fn law_found_is_first<P: Packet>(s: Seq<usize>, ports: Seq<P>, k: int)
    requires
        s.no_duplicates(),
        0 <= k < s.len(),
    ensures
        first_with_event(s, ports, s[k]) == {
            &&& ports[s[k] - 1].pending().len() > 0 || !ports[s[k] - 1].connected()
            &&& forall|i: int|
                0 <= i < k ==> ports[#[trigger] s[i] - 1].pending().len() == 0 && ports[s[i]
                    - 1].connected()
        },
        first_with_visible(s, ports, s[k]) == {
            &&& ports[s[k] - 1].visible()
            &&& forall|i: int| 0 <= i < k ==> !ports[#[trigger] s[i] - 1].visible()
        },
        ports[s[k] - 1].visible() ==> any_visible(s, ports),
        ports[s[k] - 1].pending().len() > 0 || !ports[s[k] - 1].connected() ==> any_event(
            s,
            ports,
        ),
        any_visible(s, ports) ==> exists|i: int|
            0 <= i < s.len() && ports[#[trigger] s[i] - 1].visible(),
        any_event(s, ports) ==> exists|i: int|
            0 <= i < s.len() && (ports[#[trigger] s[i] - 1].pending().len() > 0 || !ports[s[i]
                - 1].connected()),
{
    assert(s.contains(s[k]));
    assert(s.index_of(s[k]) == k);
    assert(has_visible(ports, s[k]) == ports[s[k] - 1].visible());
    assert forall|i: int| 0 <= i < s.len() implies has_visible(ports, #[trigger] s[i])
        == ports[s[i] - 1].visible() && has_event(ports, s[i]) == (ports[s[i]
        - 1].pending().len() > 0 || !ports[s[i] - 1].connected()) by {
    }
}

/// A receiver was asked to announce `token` and then to take the announcement back.
pub open spec fn called_off<P: Packet>(before: P, after: P, token: usize) -> bool {
    exists|between: P| #[trigger] before.starts(token, &between) && between.aborts(&after)
}

/// What has been asked of the receivers: of the first `back` handles of the set to announce
/// `token` and to take the announcement back, of those that follow up to `asked` to announce
/// it, and nothing of anybody else.
pub open spec fn visited<P: Packet>(
    s: Seq<usize>,
    before: Seq<P>,
    after: Seq<P>,
    back: int,
    asked: int,
    token: usize,
) -> bool {
    &&& before.len() == after.len()
    &&& forall|i: int|
        0 <= i < s.len() ==> {
            let id = #[trigger] s[i];
            &&& i < back ==> called_off(packet(before, id), packet(after, id), token)
            &&& back <= i < asked ==> packet(before, id).starts(token, &packet(after, id))
            &&& i >= back && i >= asked ==> packet(after, id) == packet(before, id)
        }
    &&& forall|k: int|
        0 <= k < before.len() && !s.contains((k + 1) as usize) ==> #[trigger] after[k] == before[k]
}

/// What a wait has asked of whom: the handles before place `k` have been asked to announce the
/// token and to take it back, the one at place `k` to announce it, and nobody else anything.
pub proof fn law_visited_are_asked<P: Packet>(
    s: Seq<usize>,
    before: Seq<P>,
    after: Seq<P>,
    k: int,
    token: usize,
    i: int,
)
    requires
        visited(s, before, after, k, k + 1, token),
        0 <= k < s.len(),
        0 <= i < s.len(),
    ensures
        after.len() == before.len(),
        i < k ==> exists|between: P| #[trigger]
            before[s[i] - 1].starts(token, &between) && between.aborts(&after[s[i] - 1]),
        i == k ==> before[s[i] - 1].starts(token, &after[s[i] - 1]),
        i > k ==> after[s[i] - 1] == before[s[i] - 1],
        forall|id: usize|
            1 <= id <= before.len() && !(#[trigger] s.contains(id)) ==> after[id - 1] == before[id
                - 1],
{
    assert(packet(before, s[i]) == before[s[i] - 1]);
    assert forall|id: usize|
        1 <= id <= before.len() && !(#[trigger] s.contains(id)) implies after[id - 1] == before[id
        - 1] by {
        let j = id - 1;
        assert((j + 1) as usize == id);
        assert(after[j] == before[j]);
    }
}

impl Select {
    /// The handles of a set are different numbers from one on.
    pub proof fn lemma_distinct(&self)
        requires
            self.wf(),
        ensures
            distinct(self@),
            self@.len() <= self.issued() < usize::MAX,
            forall|i: int| 0 <= i < self@.len() ==> 1 <= #[trigger] self@[i] <= self.issued(),
    {
        lemma_distinct_len(self@, self.nodes@.len());
    }

    /// The first question of a wait. Whether a receiver has a message is asked first only if
    /// `do_preflight_checks` says so.
    pub fn begin(&self, do_preflight_checks: bool) -> (r: Round)
        requires
            self.wf(),
        ensures
            r == Round::start(self@, do_preflight_checks),
            r.proper(self@),
    {
        proof {
            self.lemma_distinct();
            assert(self@.len() > 0 ==> self@.contains(self@[0]));
        }
        if do_preflight_checks && self.head != 0 {
            Round::Probe(self.head)
        } else {
            Round::Token
        }
    }

    /// How a wait goes on after a question that was answered with yes or no.
    pub fn answer(&self, at: Round, yes: bool) -> (r: Round)
        requires
            self.wf(),
            at.proper(self@),
            at.answerable(self@, yes),
        ensures
            r == at.next(self@, yes),
            r.proper(self@),
    {
        proof {
            self.lemma_distinct();
            lemma_round_proper(self@, at, yes);
            assert(self@.len() > 0 ==> self@.contains(self@[0]));
            if let Round::Install(_, n) = at {
                assert(self@.contains(self@[n as int]));
            }
        }
        match at {
            Round::Probe(id) => if yes {
                Round::Done(id)
            } else {
                let next: usize = self.successor(id);
                if next == 0 {
                    Round::Token
                } else {
                    Round::Probe(next)
                }
            },
            Round::Token => if self.head == 0 {
                Round::Wait
            } else {
                Round::Install(self.head, 0)
            },
            Round::Install(id, n) => if yes {
                if n == 0 {
                    Round::Done(id)
                } else {
                    Round::Rollback(self.head, n, id)
                }
            } else {
                let next: usize = self.successor(id);
                if next == 0 {
                    Round::Wait
                } else {
                    Round::Install(next, n + 1)
                }
            },
            Round::Rollback(id, left, ready) => {
                let next: usize = self.successor(id);
                if left == 1 {
                    Round::Done(ready)
                } else {
                    Round::Rollback(next, left - 1, ready)
                }
            },
            Round::Wait => if yes {
                Round::Collect(self.head, None)
            } else {
                Round::Wait
            },
            Round::Collect(id, ready) => {
                let next: usize = self.successor(id);
                let ready = if yes {
                    Some(id)
                } else {
                    ready
                };
                match ready {
                    Some(found) => if next == 0 {
                        Round::Done(found)
                    } else {
                        Round::Collect(next, ready)
                    },
                    None => Round::Collect(next, None),
                }
            },
            Round::Done(id) => Round::Done(id),
        }
    }
}

/// What a wait that nothing interrupts has found out so far.
spec fn found_so_far<P: Packet>(
    s: Seq<usize>,
    ports: Seq<P>,
    do_preflight_checks: bool,
    at: Round,
) -> bool {
    let none_visible = do_preflight_checks ==> !any_visible(s, ports);
    match at {
        Round::Probe(id) => {
            &&& do_preflight_checks
            &&& forall|i: int| 0 <= i < s.index_of(id) ==> !has_visible(ports, #[trigger] s[i])
        },
        Round::Token => none_visible,
        Round::Install(_, n) => {
            &&& none_visible
            &&& forall|i: int| 0 <= i < n ==> !has_event(ports, #[trigger] s[i])
        },
        Round::Rollback(_, _, ready) => none_visible && first_with_event(s, ports, ready),
        Round::Done(id) => {
            &&& has_event(ports, id)
            &&& if do_preflight_checks && any_visible(s, ports) {
                first_with_visible(s, ports, id)
            } else {
                first_with_event(s, ports, id)
            }
        },
        _ => false,
    }
}

/// What a wait that nothing interrupts has asked of the receivers so far.
spec fn visited_so_far<P: Packet>(
    s: Seq<usize>,
    before: Seq<P>,
    after: Seq<P>,
    do_preflight_checks: bool,
    at: Round,
) -> bool {
    match at {
        Round::Install(_, n) => visited(s, before, after, 0, n as int, 1),
        Round::Rollback(id, left, _) => {
            visited(s, before, after, s.index_of(id), s.index_of(id) + left + 1, 1)
        },
        Round::Done(id) => if do_preflight_checks && any_visible(s, before) {
            after == before
        } else {
            visited(s, before, after, s.index_of(id), s.index_of(id) + 1, 1)
        },
        _ => after == before,
    }
}

/// One more receiver is asked to announce the token.
proof fn lemma_visited_start<P: Packet>(
    s: Seq<usize>,
    p0: Seq<P>,
    p1: Seq<P>,
    p2: Seq<P>,
    n: int,
    token: usize,
)
    requires
        s.no_duplicates(),
        0 <= n < s.len(),
        1 <= s[n] <= p0.len(),
        forall|i: int| 0 <= i < s.len() ==> 1 <= #[trigger] s[i] <= p0.len(),
        visited(s, p0, p1, 0, n, token),
        p2 == p1.update(s[n] - 1, packet(p2, s[n])),
        packet(p1, s[n]).starts(token, &packet(p2, s[n])),
    ensures
        visited(s, p0, p2, 0, n + 1, token),
{
    assert(packet(p1, s[n]) == packet(p0, s[n]));
    assert forall|i: int| 0 <= i < s.len() implies {
        let id = #[trigger] s[i];
        &&& i < n + 1 ==> packet(p0, id).starts(token, &packet(p2, id))
        &&& i >= n + 1 ==> packet(p2, id) == packet(p0, id)
    } by {
        if i != n {
            assert(packet(p2, s[i]) == packet(p1, s[i]));
        }
    }
    assert forall|k: int|
        0 <= k < p0.len() && !s.contains((k + 1) as usize) implies #[trigger] p2[k] == p0[k] by {
        assert(s.contains(s[n]));
        assert(p1[k] == p0[k]);
    }
}

/// One more receiver is asked to take the announcement back.
proof fn lemma_visited_abort<P: Packet>(
    s: Seq<usize>,
    p0: Seq<P>,
    p1: Seq<P>,
    p2: Seq<P>,
    n: int,
    asked: int,
    token: usize,
)
    requires
        s.no_duplicates(),
        0 <= n < s.len(),
        n < asked,
        forall|i: int| 0 <= i < s.len() ==> 1 <= #[trigger] s[i] <= p0.len(),
        visited(s, p0, p1, n, asked, token),
        p2 == p1.update(s[n] - 1, packet(p2, s[n])),
        packet(p1, s[n]).aborts(&packet(p2, s[n])),
    ensures
        visited(s, p0, p2, n + 1, asked, token),
{
    assert(packet(p0, s[n]).starts(token, &packet(p1, s[n])));
    assert forall|i: int| 0 <= i < s.len() implies {
        let id = #[trigger] s[i];
        &&& i < n + 1 ==> called_off(packet(p0, id), packet(p2, id), token)
        &&& n + 1 <= i < asked ==> packet(p0, id).starts(token, &packet(p2, id))
        &&& i >= n + 1 && i >= asked ==> packet(p2, id) == packet(p0, id)
    } by {
        if i != n {
            assert(packet(p2, s[i]) == packet(p1, s[i]));
        }
    }
    assert forall|k: int|
        0 <= k < p0.len() && !s.contains((k + 1) as usize) implies #[trigger] p2[k] == p0[k] by {
        assert(s.contains(s[n]));
        assert(p1[k] == p0[k]);
    }
}

/// How many parts a wait that nothing interrupts has before it.
spec fn wait_stage(at: Round) -> nat {
    match at {
        Round::Probe(_) => 4,
        Round::Token => 3,
        Round::Install(_, _) => 2,
        Round::Rollback(_, _, _) => 1,
        _ => 0,
    }
}

/// How many questions the current part of a wait has before it.
spec fn wait_rank(s: Seq<usize>, at: Round) -> int {
    match at {
        Round::Probe(id) => s.len() - s.index_of(id),
        Round::Install(_, n) => s.len() - n,
        Round::Rollback(_, left, _) => left as int,
        _ => 0,
    }
}

/// The answers that receivers give lead a wait to the right handle.
proof fn lemma_found_so_far<P: Packet>(
    s: Seq<usize>,
    ports: Seq<P>,
    do_preflight_checks: bool,
    at: Round,
    yes: bool,
)
    requires
        distinct(s),
        s.len() <= usize::MAX,
        at.proper(s),
        at.answerable(s, yes),
        any_event(s, ports),
        found_so_far(s, ports, do_preflight_checks, at),
        !(at is Done),
        match at {
            Round::Probe(id) => yes == has_visible(ports, id) && (yes ==> has_event(ports, id)),
            Round::Install(id, _) => yes == has_event(ports, id),
            _ => true,
        },
    ensures
        found_so_far(s, ports, do_preflight_checks, at.next(s, yes)),
        wait_stage(at.next(s, yes)) < wait_stage(at) || (wait_stage(at.next(s, yes)) == wait_stage(
            at,
        ) && 0 <= wait_rank(s, at.next(s, yes)) < wait_rank(s, at)),
{
    lemma_round_proper(s, at, yes);
    assert(s.len() > 0 ==> s.contains(s[0]) && s.index_of(s[0]) == 0);
    match at {
        Round::Probe(id) => {
            let k = s.index_of(id);
            if yes {
                assert(has_visible(ports, s[k]));
            } else if k + 1 < s.len() {
                assert(s.contains(s[k + 1]) && s.index_of(s[k + 1]) == k + 1);
            }
        },
        Round::Install(id, n) => {
            assert(s.contains(id) && s.index_of(id) == n);
            if !yes && n + 1 == s.len() {
                assert(forall|i: int| 0 <= i < s.len() ==> !has_event(ports, #[trigger] s[i]));
            }
        },
        _ => {},
    }
}

/// A handle is in what is left of a set after its first one exactly if it is another one.
proof fn lemma_rest_contains(s: Seq<usize>, t: Seq<usize>)
    requires
        s.no_duplicates(),
        s.len() > 0,
        t == s.drop_first(),
    ensures
        forall|id: usize| #[trigger] t.contains(id) == (s.contains(id) && id != s[0]),
{
    assert forall|id: usize| #[trigger] t.contains(id) == (s.contains(id) && id != s[0]) by {
        if t.contains(id) {
            let i = t.index_of(id);
            assert(s[i + 1] == id);
        }
        if s.contains(id) && id != s[0] {
            let i = s.index_of(id);
            assert(t[i - 1] == id);
        }
    }
}

/// A handle that answers as it should, and the others, are askable again.
proof fn lemma_asked<P: Packet>(
    s: Seq<usize>,
    before: Seq<P>,
    after: Seq<P>,
    id: usize,
    waiting: Seq<usize>,
    waiting2: Seq<usize>,
)
    requires
        s.no_duplicates(),
        askable(s, before, waiting),
        1 <= id <= before.len(),
        after == before.update(id - 1, packet(after, id)),
        packet(after, id).valid(),
        packet(after, id).waiting() == waiting2.contains(id),
        forall|k: usize| k != id ==> (#[trigger] waiting2.contains(k) == waiting.contains(k)),
    ensures
        askable(s, after, waiting2),
{
    assert forall|i: int| 0 <= i < s.len() implies {
        let k = #[trigger] s[i];
        &&& 1 <= k <= after.len()
        &&& packet(after, k).valid()
        &&& packet(after, k).waiting() == waiting2.contains(k)
    } by {
        if s[i] != id {
            assert(packet(after, s[i]) == packet(before, s[i]));
        }
    }
}

impl Select {
    /// Waits until one of the receivers has something to offer and returns the number of its
    /// handle: a message is pending there, or no more will come. The packets of the handles
    /// stand in `ports`, in the order of their numbers. Nobody can end the wait of a thread
    /// that owns all of them, so one of them has to have something to offer.
    ///
    /// If a message can be seen somewhere, nothing is asked of anybody but whether it can.
    /// Otherwise one token is announced at the handles in turn up to the one that is
    /// returned, and taken back at those before it.
    pub fn wait<P: Packet>(&self, ports: &mut Vec<P>) -> (r: usize)
        requires
            self.wf(),
            askable(self@, old(ports)@, Seq::empty()),
            any_event(self@, old(ports)@),
        ensures
            askable(self@, final(ports)@, Seq::empty()),
            undisturbed(old(ports)@, final(ports)@),
            has_event(old(ports)@, r),
            self@.contains(r),
            old(ports)@[r - 1].pending().len() > 0 || !old(ports)@[r - 1].connected(),
            any_visible(self@, old(ports)@) ==> {
                &&& first_with_visible(self@, old(ports)@, r)
                &&& final(ports)@ == old(ports)@
            },
            !any_visible(self@, old(ports)@) ==> {
                let k = self@.index_of(r);
                &&& first_with_event(self@, old(ports)@, r)
                &&& exists|token: usize|
                    token != 0 && #[trigger] visited(
                        self@,
                        old(ports)@,
                        final(ports)@,
                        k,
                        k + 1,
                        token,
                    )
            },
    {
        self.wait2(ports, true)
    }

    /// Waits like [`Select::wait`]; whether a message can be seen somewhere is asked first
    /// only if `do_preflight_checks` says so.
    pub fn wait2<P: Packet>(&self, ports: &mut Vec<P>, do_preflight_checks: bool) -> (r: usize)
        requires
            self.wf(),
            askable(self@, old(ports)@, Seq::empty()),
            any_event(self@, old(ports)@),
        ensures
            askable(self@, final(ports)@, Seq::empty()),
            undisturbed(old(ports)@, final(ports)@),
            has_event(old(ports)@, r),
            self@.contains(r),
            old(ports)@[r - 1].pending().len() > 0 || !old(ports)@[r - 1].connected(),
            do_preflight_checks && any_visible(self@, old(ports)@) ==> {
                &&& first_with_visible(self@, old(ports)@, r)
                &&& final(ports)@ == old(ports)@
            },
            !(do_preflight_checks && any_visible(self@, old(ports)@)) ==> {
                let k = self@.index_of(r);
                &&& first_with_event(self@, old(ports)@, r)
                &&& exists|token: usize|
                    token != 0 && #[trigger] visited(
                        self@,
                        old(ports)@,
                        final(ports)@,
                        k,
                        k + 1,
                        token,
                    )
            },
    {
        let ghost s = self@;
        let ghost p0 = ports@;
        proof {
            self.lemma_distinct();
            assert(s.len() > 0 ==> s.contains(s[0]) && s.index_of(s[0]) == 0);
        }
        let mut at = self.begin(do_preflight_checks);
        assert(at.announced(s) =~= Seq::<usize>::empty());
        loop
            invariant
                self.wf(),
                s == self@,
                distinct(s),
                s.len() <= usize::MAX,
                at.proper(s),
                any_event(s, p0),
                p0 == old(ports)@,
                askable(s, ports@, at.announced(s)),
                undisturbed(p0, ports@),
                found_so_far(s, p0, do_preflight_checks, at),
                visited_so_far(s, p0, ports@, do_preflight_checks, at),
                forall|i: int| 0 <= i < s.len() ==> 1 <= #[trigger] s[i] <= p0.len(),
            decreases wait_stage(at), wait_rank(s, at),
        {
            let ghost before = at;
            let ghost p1 = ports@;
            let yes: bool;
            match at {
                Round::Done(id) => {
                    assert(at.announced(s) =~= Seq::<usize>::empty());
                    return id;
                },
                Round::Probe(id) => {
                    assert(s[s.index_of(id)] == id);
                    yes = ports[id - 1].can_recv();
                },
                Round::Install(id, n) => {
                    assert(s[n as int] == id);
                    assert(s.contains(id) && s.index_of(id) == n);
                    assert(!before.announced(s).contains(id));
                    let result = ports[id - 1].start_selection(1);
                    yes = match result {
                        StartResult::Installed => false,
                        StartResult::Abort => true,
                    };
                },
                Round::Rollback(id, left, ready) => {
                    assert(s[s.index_of(id)] == id);
                    assert(before.announced(s)[0] == id);
                    yes = ports[id - 1].abort_selection();
                },
                _ => {
                    yes = true;
                },
            }
            proof {
                law_announcements_balance(s, before, yes);
                lemma_found_so_far(s, p0, do_preflight_checks, before, yes);
                let was = before.announced(s);
                let now = before.next(s, yes).announced(s);
                match before {
                    Round::Install(id, n) => {
                        assert(forall|k: usize|
                            k != id ==> #[trigger] was.push(id).contains(k) == was.contains(k)) by {
                            assert forall|k: usize| k != id implies #[trigger] was.push(
                                id,
                            ).contains(k) == was.contains(k) by {
                                if was.contains(k) {
                                    assert(was.push(id)[was.index_of(k)] == k);
                                }
                                if was.push(id).contains(k) {
                                    assert(was[was.push(id).index_of(k)] == k);
                                }
                            }
                        }
                        assert(was.push(id)[was.len() as int] == id);
                        lemma_asked(s, p1, ports@, id, was, now);
                        lemma_visited_start(s, p0, p1, ports@, n as int, 1);
                    },
                    Round::Rollback(id, left, ready) => {
                        lemma_rest_contains(was, now);
                        lemma_asked(s, p1, ports@, id, was, now);
                        let j = s.index_of(id);
                        lemma_visited_abort(s, p0, p1, ports@, j, j + left + 1, 1);
                        assert(s.contains(s[j + 1]) && s.index_of(s[j + 1]) == j + 1);
                        assert(s.contains(ready) && s.index_of(ready) == j + left);
                    },
                    _ => {
                        assert(was =~= now);
                    },
                }
            }
            at = self.answer(at, yes);
        }
    }
}

} // verus!
