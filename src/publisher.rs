use vstd::laws_eq::obeys_concrete_eq;
use vstd::prelude::*;
use vstd::std_specs::cmp::PartialEqSpec;

verus! {

/// The callbacks that the registry `m` holds for `event`, oldest first. A tag
/// that was never subscribed to has none.
pub open spec fn listeners_of<E, S>(m: Map<E, Seq<S>>, event: E) -> Seq<S> {
    if m.contains_key(event) {
        m[event]
    } else {
        Seq::empty()
    }
}

/// The registry `m` after `listener` joins the end of `event`'s list.
pub open spec fn subscribed<E, S>(m: Map<E, Seq<S>>, event: E, listener: S) -> Map<E, Seq<S>> {
    m.insert(event, listeners_of(m, event).push(listener))
}

/// The registry `m` after each callback of `ls` is subscribed to `event`, in
/// the order of `ls`.
pub open spec fn subscribed_all<E, S>(m: Map<E, Seq<S>>, event: E, ls: Seq<S>) -> Map<E, Seq<S>>
    decreases ls.len(),
{
    if ls.len() == 0 {
        m
    } else {
        subscribed(subscribed_all(m, event, ls.drop_last()), event, ls.last())
    }
}

/// `outcomes` holds, position by position, what each of `listeners` gave back
/// when called with `event`: every listener was called once, in order.
pub open spec fn notified<E, S: Fn(E) -> R, R>(
    listeners: Seq<S>,
    event: E,
    outcomes: Seq<R>,
) -> bool {
    &&& outcomes.len() == listeners.len()
    &&& forall|i: int|
        0 <= i < listeners.len() ==> call_ensures(listeners[i], (event,), #[trigger] outcomes[i])
}

/// Each listener of `listeners` may be called with `event`.
pub open spec fn all_accept<E, S: Fn(E) -> R, R>(listeners: Seq<S>, event: E) -> bool {
    forall|i: int| 0 <= i < listeners.len() ==> call_requires(#[trigger] listeners[i], (event,))
}

/// Subscribing the callbacks `ls` one after another to `event` puts them
/// after those already there, in the order they were subscribed; from an
/// empty registry, `event`'s list is exactly `ls`.
pub proof fn lemma_subscribe_keeps_order<E, S>(m: Map<E, Seq<S>>, event: E, ls: Seq<S>)
    ensures
        listeners_of(subscribed_all(m, event, ls), event) == listeners_of(m, event) + ls,
        listeners_of(subscribed_all(Map::empty(), event, ls), event) == ls,
    decreases ls.len(),
{
    if ls.len() > 0 {
        lemma_subscribe_keeps_order(m, event, ls.drop_last());
        lemma_subscribe_keeps_order(Map::empty(), event, ls.drop_last());
        assert(listeners_of(m, event) + ls =~= (listeners_of(m, event) + ls.drop_last()).push(
            ls.last(),
        ));
        assert(ls =~= ls.drop_last().push(ls.last()));
    } else {
        assert(listeners_of(m, event) + ls =~= listeners_of(m, event));
    }
}

/// Subscribing callbacks to one tag leaves the callbacks of every other tag
/// as they were, so notifying the other tag never reaches them.
pub proof fn lemma_subscribe_leaves_other_tags<E, S>(
    m: Map<E, Seq<S>>,
    event: E,
    ls: Seq<S>,
    other: E,
)
    requires
        event != other,
    ensures
        listeners_of(subscribed_all(m, event, ls), other) == listeners_of(m, other),
    decreases ls.len(),
{
    if ls.len() > 0 {
        lemma_subscribe_leaves_other_tags(m, event, ls.drop_last(), other);
    }
}

/// A registry that maps each event tag to the ordered list of callbacks
/// subscribed to it. Each tag stands once in `tags`, its callbacks at the same
/// index of `lists`; a tag is found by comparing with `==`, so a tag type
/// needs equality and nothing more. No entry is ever removed.
#[verifier::reject_recursive_types(E)]
pub struct Publisher<E, S> {
    tags: Vec<E>,
    lists: Vec<Vec<S>>,
    model: Ghost<Map<E, Seq<S>>>,
}

impl<E, S> View for Publisher<E, S> {
    type V = Map<E, Seq<S>>;

    /// Each tag that was subscribed to, with its callbacks in registration
    /// order.
    closed spec fn view(&self) -> Map<E, Seq<S>> {
        self.model@
    }
}

impl<E: Copy + Eq, S> Publisher<E, S> {
    /// The tags are told apart by `==`, each tag has one slot, and the slots
    /// hold exactly the registry's lists.
    pub closed spec fn wf(&self) -> bool {
        &&& obeys_concrete_eq::<E>()
        &&& self.tags.len() == self.lists.len()
        &&& forall|i: int, j: int|
            0 <= i < j < self.tags.len() ==> self.tags[i] != self.tags[j]
        &&& forall|i: int|
            0 <= i < self.tags.len() ==> #[trigger] self.model@.contains_key(self.tags[i])
                && self.model@[self.tags[i]] == self.lists[i]@
        &&& forall|e: E|
            #[trigger] self.model@.contains_key(e) ==> exists|i: int|
                0 <= i < self.tags.len() && self.tags[i] == e
    }

    /// An empty registry.
    pub fn new() -> (r: Self)
        requires
            obeys_concrete_eq::<E>(),
        ensures
            r.wf(),
            r@ == Map::<E, Seq<S>>::empty(),
    {
        Publisher { tags: Vec::new(), lists: Vec::new(), model: Ghost(Map::empty()) }
    }

    /// The slot that holds `event`, if any.
    fn position(&self, event: &E) -> (r: Option<usize>)
        requires
            self.wf(),
        ensures
            match r {
                Some(i) => i < self.tags.len() && self.tags[i as int] == *event,
                None => !self@.contains_key(*event),
            },
    {
        proof {
            reveal(obeys_concrete_eq);
        }
        let mut i: usize = 0;
        while i < self.tags.len()
            invariant
                self.wf(),
                E::obeys_eq_spec(),
                forall|x: E, y: E| x.eq_spec(&y) <==> x == y,
                i <= self.tags.len(),
                forall|k: int| 0 <= k < i ==> self.tags[k] != *event,
            decreases self.tags.len() - i,
        {
            if self.tags[i].eq(event) {
                return Some(i);
            }
            i = i + 1;
        }
        None
    }

    /// Adds `listener` to the end of the callbacks of `event_type`, creating
    /// an empty list first when the tag is new.
    pub fn subscribe(&mut self, event_type: E, listener: S)
        requires
            old(self).wf(),
        ensures
            final(self).wf(),
            final(self)@ == subscribed(old(self)@, event_type, listener),
    {
        let ghost before = self.model@;
        let ghost old_tags = self.tags@;
        let ghost old_lists = self.lists@;
        let ghost slot: int;
        match self.position(&event_type) {
            Some(i) => {
                self.lists[i].push(listener);
                proof {
                    slot = i as int;
                }
            },
            None => {
                self.tags.push(event_type);
                self.lists.push(Vec::new());
                let last = self.lists.len() - 1;
                self.lists[last].push(listener);
                proof {
                    slot = last as int;
                }
            },
        }
        self.model = Ghost(subscribed(before, event_type, listener));
        assert(self.wf()) by {
            assert(self.tags[slot] == event_type);
            assert forall|i: int| 0 <= i < self.tags.len() implies #[trigger] self.model@.contains_key(
                self.tags[i],
            ) && self.model@[self.tags[i]] == self.lists[i]@ by {
                if i != slot {
                    assert(old_tags[i] == self.tags[i]);
                    assert(self.tags[i] != event_type);
                    assert(old_lists[i] == self.lists[i]);
                    assert(before.contains_key(old_tags[i]));
                } else {
                    assert(self.model@[self.tags[i]] =~= self.lists[i]@);
                }
            }
            assert forall|e: E| #[trigger] self.model@.contains_key(e) implies exists|i: int|
                0 <= i < self.tags.len() && self.tags[i] == e by {
                if e != event_type {
                    assert(before.contains_key(e));
                    let k = choose|k: int| 0 <= k < old_tags.len() && old_tags[k] == e;
                    assert(self.tags[k] == e);
                }
            }
        }
    }

    /// Calls each callback of `event` with `event`, oldest first, and returns
    /// what each gave back, in the same order. A tag that nobody subscribed
    /// to has no callbacks, and then nothing is called.
    pub fn notify<R>(&self, event: E) -> (r: Vec<R>) where S: Fn(E) -> R
        requires
            self.wf(),
            all_accept(listeners_of(self@, event), event),
        ensures
            notified(listeners_of(self@, event), event, r@),
            !self@.contains_key(event) ==> r@.len() == 0,
    {
        let mut out: Vec<R> = Vec::new();
        if let Some(k) = self.position(&event) {
            let listeners = &self.lists[k];
            let mut j: usize = 0;
            while j < listeners.len()
                invariant
                    listeners@ == listeners_of(self@, event),
                    all_accept(listeners@, event),
                    j <= listeners.len(),
                    out@.len() == j,
                    forall|i: int|
                        0 <= i < j ==> call_ensures(listeners@[i], (event,), #[trigger] out@[i]),
                decreases listeners.len() - j,
            {
                let f = &listeners[j];
                out.push(f(event));
                j = j + 1;
            }
        }
        out
    }
}

} // verus!
