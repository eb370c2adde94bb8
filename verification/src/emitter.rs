//! The emitter: which listeners an event has, which of them an emit
//! calls, and how listeners come and go.

use crate::listener::{
    emit_dropped, emit_fired, emit_kept, first_index_of_id, is_first_index, plan_emit, strings_view, views,
    AsyncListener, ListenerView,
};
use crate::table::{
    fresh_listener_id, is_uuid_v4_text, listener_table, table_clone, table_events, table_get, table_insert, table_new,
    table_remove,
};
use crate::laws::{lemma_emit_touches_only_its_event, lemma_removed_listener_keeps_order};
use dashmap::DashMap;
use vstd::prelude::*;

verus! {

/// The listeners of every event, in the order they subscribed.
#[derive(Debug)]
pub struct AsyncEventEmitter {
    pub listeners: DashMap<String, Vec<AsyncListener>>,
}

impl View for AsyncEventEmitter {
    type V = Map<Seq<char>, Seq<ListenerView>>;

    open spec fn view(&self) -> Map<Seq<char>, Seq<ListenerView>> {
        listener_table(self.listeners)
    }
}

/// The listeners of event `e` in table `t`; none where `t` has no entry for `e`.
pub open spec fn listeners_of(t: Map<Seq<char>, Seq<ListenerView>>, e: Seq<char>) -> Seq<
    ListenerView,
> {
    if t.dom().contains(e) {
        t[e]
    } else {
        Seq::empty()
    }
}

/// Table `t` with listener `l` added last to the listeners of event `e`.
pub open spec fn with_listener(
    t: Map<Seq<char>, Seq<ListenerView>>,
    e: Seq<char>,
    l: ListenerView,
) -> Map<Seq<char>, Seq<ListenerView>> {
    t.insert(e, listeners_of(t, e).push(l))
}

/// Table `t` after an emit of event `e` went through.
pub open spec fn after_emit(t: Map<Seq<char>, Seq<ListenerView>>, e: Seq<char>) -> Map<
    Seq<char>,
    Seq<ListenerView>,
> {
    if t.dom().contains(e) {
        t.insert(e, emit_kept(t[e]))
    } else {
        t
    }
}

/// Some event of table `t` has a listener with id `id`.
pub open spec fn has_listener_id(t: Map<Seq<char>, Seq<ListenerView>>, id: Seq<char>) -> bool {
    exists|e: Seq<char>, i: int|
        #![trigger t[e][i]]
        t.dom().contains(e) && 0 <= i < t[e].len() && t[e][i].0 == id
}

/// `t2` is `t` with the first listener with id `id` taken out of the
/// listeners of one event.
pub open spec fn removed_listener(
    t: Map<Seq<char>, Seq<ListenerView>>,
    t2: Map<Seq<char>, Seq<ListenerView>>,
    id: Seq<char>,
) -> bool {
    exists|e: Seq<char>, i: int|
        #![trigger t[e].remove(i)]
        t.dom().contains(e) && is_first_index(t[e], id, i) && t2 == t.insert(e, t[e].remove(i))
}

/// The ids of a list of calls.
pub open spec fn call_ids(calls: Seq<(String, Vec<u8>)>) -> Seq<Seq<char>> {
    calls.map_values(|c: (String, Vec<u8>)| c.0@)
}

impl AsyncEventEmitter {
    /// An emitter with no listeners.
    pub fn new() -> (em: Self)
        ensures
            em@ =~= Map::<Seq<char>, Seq<ListenerView>>::empty(),
    {
        AsyncEventEmitter { listeners: table_new() }
    }

    /// Emits `event` with the value serialized as `payload`. Each listener of
    /// the event whose limit has not run out is to be called, in the order
    /// they subscribed, each with its own copy of the bytes; a limit goes
    /// down by one per call, a listener is removed after its last call, and
    /// one whose limit is already zero is removed without a call (as one
    /// added with a limit of zero is). Returns the calls and the ids of the removed
    /// listeners. Where the event has listeners and the value could not be
    /// serialized, the error comes back and nothing changes.
    pub fn emit<E>(&mut self, event: &str, payload: Result<Vec<u8>, E>) -> (res: Result<
        (Vec<(String, Vec<u8>)>, Vec<String>),
        E,
    >)
        ensures
            res is Err <==> (listeners_of(old(self)@, event@).len() > 0 && payload is Err),
            res matches Err(e) ==> payload == Err::<Vec<u8>, E>(e) && final(self)@ == old(self)@,
            res matches Ok((calls, removed)) ==> {
                &&& call_ids(calls@) == emit_fired(listeners_of(old(self)@, event@))
                &&& strings_view(removed@) == emit_dropped(listeners_of(old(self)@, event@))
                &&& payload matches Ok(bytes) ==> forall|i: int|
                    0 <= i < calls.len() ==> (#[trigger] calls@[i]).1@ == bytes@
                &&& final(self)@ == after_emit(old(self)@, event@)
                &&& final(self)@.dom() == old(self)@.dom()
                &&& final(self)@.remove(event@) == old(self)@.remove(event@)
                &&& old(self)@.dom().contains(event@) ==> final(self)@[event@] == emit_kept(
                    old(self)@[event@],
                )
            },
    {
        let ghost t0 = self@;
        match table_remove(&mut self.listeners, event) {
            None => {
                proof {
                    assert(self@ =~= t0);
                }
                let calls: Vec<(String, Vec<u8>)> = Vec::new();
                let removed: Vec<String> = Vec::new();
                assert(call_ids(calls@) =~= emit_fired(Seq::empty()));
                assert(strings_view(removed@) =~= emit_dropped(Seq::empty()));
                Ok((calls, removed))
            },
            Some((key, listeners)) => {
                let bytes = match payload {
                    Ok(b) => b,
                    Err(e) => {
                        if listeners.len() > 0 {
                            table_insert(&mut self.listeners, key, listeners);
                            assert(self@ =~= t0);
                            return Err(e);
                        }
                        Vec::new()
                    },
                };
                let (fired, kept, removed) = plan_emit(&listeners);
                table_insert(&mut self.listeners, key, kept);
                assert(self@ =~= after_emit(t0, event@));
                proof {
                    lemma_emit_touches_only_its_event(t0, event@, event@);
                }
                let ghost f = strings_view(fired@);
                let mut calls: Vec<(String, Vec<u8>)> = Vec::new();
                let mut i: usize = 0;
                while i < fired.len()
                    invariant
                        i <= fired.len(),
                        f == strings_view(fired@),
                        calls.len() == i,
                        forall|j: int| 0 <= j < i ==> (#[trigger] calls@[j]).0@ == fired@[j]@,
                        forall|j: int| 0 <= j < i ==> (#[trigger] calls@[j]).1@ == bytes@,
                    decreases fired.len() - i,
                {
                    let copy = bytes.clone();
                    assert(copy@ =~= bytes@);
                    calls.push((fired[i].clone(), copy));
                    i += 1;
                }
                assert(call_ids(calls@) =~= f);
                Ok((calls, removed))
            },
        }
    }

    /// Whether `event` has listeners, so that an emit of it would call for
    /// the value's bytes.
    pub fn has_listeners(&self, event: &str) -> (res: bool)
        ensures
            res == (listeners_of(self@, event@).len() > 0),
    {
        match table_get(&self.listeners, event) {
            Some(ls) => ls.len() > 0,
            None => false,
        }
    }

    /// Adds a listener with id `id` to `event`, answering at most `limit`
    /// emits (`None`: every emit).
    pub fn add_listener(&mut self, event: &str, limit: Option<u64>, id: String)
        ensures
            final(self)@ == with_listener(old(self)@, event@, (id@, limit)),
    {
        let ghost t0 = self@;
        let ghost l: ListenerView = (id@, limit);
        let listener = AsyncListener { id, limit };
        match table_remove(&mut self.listeners, event) {
            Some((key, mut ls)) => {
                ls.push(listener);
                assert(views(ls@) =~= listeners_of(t0, event@).push(l));
                table_insert(&mut self.listeners, key, ls);
            },
            None => {
                let mut ls: Vec<AsyncListener> = Vec::new();
                ls.push(listener);
                assert(views(ls@) =~= listeners_of(t0, event@).push(l));
                table_insert(&mut self.listeners, event.to_string(), ls);
            },
        }
        assert(self@ =~= with_listener(t0, event@, l));
    }

    /// Adds a listener to `event` that answers at most `limit` emits
    /// (`None`: every emit), and returns its new id.
    pub fn on_limited(&mut self, event: &str, limit: Option<u64>) -> (id: String)
        ensures
            is_uuid_v4_text(id@),
            final(self)@ == with_listener(old(self)@, event@, (id@, limit)),
    {
        let id = fresh_listener_id();
        self.add_listener(event, limit, id.clone());
        id
    }

    /// Adds a listener to `event` that answers one emit, and returns its id.
    pub fn once(&mut self, event: &str) -> (id: String)
        ensures
            is_uuid_v4_text(id@),
            final(self)@ == with_listener(old(self)@, event@, (id@, Some(1u64))),
    {
        self.on_limited(event, Some(1))
    }

    /// Adds a listener to `event` that answers every emit, and returns its id.
    pub fn on(&mut self, event: &str) -> (id: String)
        ensures
            is_uuid_v4_text(id@),
            final(self)@ == with_listener(old(self)@, event@, (id@, None::<u64>)),
    {
        self.on_limited(event, None)
    }

    /// Removes the listener with id `id_to_delete`: the first one with that
    /// id among the listeners of the first event, in the table's order, that
    /// has one. Returns the id, or `None` where no listener has it.
    pub fn remove_listener(&mut self, id_to_delete: &str) -> (res: Option<String>)
        ensures
            res is Some <==> has_listener_id(old(self)@, id_to_delete@),
            res matches Some(r) ==> r@ == id_to_delete@ && removed_listener(
                old(self)@,
                final(self)@,
                id_to_delete@,
            ),
            res is Some ==> exists|e: Seq<char>, i: int|
                #![trigger old(self)@[e][i]]
                {
                    &&& old(self)@.dom().contains(e)
                    &&& 0 <= i < old(self)@[e].len()
                    &&& old(self)@[e][i].0 == id_to_delete@
                    &&& forall|j: int| 0 <= j < i ==> old(self)@[e][j].0 != id_to_delete@
                    &&& final(self)@.dom() == old(self)@.dom()
                    &&& final(self)@.remove(e) == old(self)@.remove(e)
                    &&& final(self)@[e].len() + 1 == old(self)@[e].len()
                    &&& forall|j: int| 0 <= j < i ==> final(self)@[e][j] == old(self)@[e][j]
                    &&& forall|j: int|
                        i <= j < final(self)@[e].len() ==> final(self)@[e][j] == old(self)@[e][j
                            + 1]
                },
            res is None ==> final(self)@ == old(self)@,
    {
        let ghost t0 = self@;
        let target = id_to_delete.to_string();
        let events = table_events(&self.listeners);
        let mut k: usize = 0;
        while k < events.len()
            invariant
                k <= events.len(),
                self@ == t0,
                t0 == old(self)@,
                target@ == id_to_delete@,
                forall|i: int| 0 <= i < events.len() ==> t0.dom().contains(#[trigger] events@[i]@),
                forall|e: Seq<char>|
                    #[trigger] t0.dom().contains(e) ==> exists|i: int|
                        0 <= i < events.len() && events@[i]@ == e,
                forall|j: int, i: int|
                    #![trigger t0[events@[j]@][i]]
                    0 <= j < k && 0 <= i < t0[events@[j]@].len() ==> t0[events@[j]@][i].0
                        != target@,
            decreases events.len() - k,
        {
            let event = &events[k];
            match table_get(&self.listeners, event.as_str()) {
                Some(mut ls) => {
                    match first_index_of_id(&ls, &target) {
                        Some(i) => {
                            let ghost before = views(ls@);
                            ls.remove(i);
                            assert(views(ls@) =~= before.remove(i as int));
                            table_insert(&mut self.listeners, event.clone(), ls);
                            assert(removed_listener(t0, self@, id_to_delete@)) by {
                                assert(t0[event@].remove(i as int) == before.remove(i as int));
                            };
                            assert(has_listener_id(t0, id_to_delete@)) by {
                                assert(t0[event@][i as int].0 == id_to_delete@);
                            };
                            proof {
                                lemma_removed_listener_keeps_order(t0, self@, id_to_delete@);
                            }
                            return Some(target);
                        },
                        None => {
                            assert forall|i: int| 0 <= i < t0[event@].len() implies t0[event@][i].0
                                != target@ by {
                                assert(views(ls@)[i] == ls@[i]@);
                            };
                        },
                    }
                },
                None => {},
            }
            k += 1;
        }
        assert(!has_listener_id(t0, id_to_delete@)) by {
            if has_listener_id(t0, id_to_delete@) {
                let (e, i) = choose|e: Seq<char>, i: int|
                    #![trigger t0[e][i]]
                    t0.dom().contains(e) && 0 <= i < t0[e].len() && t0[e][i].0 == id_to_delete@;
                let j = choose|j: int| 0 <= j < events.len() && events@[j]@ == e;
                assert(t0[events@[j]@][i].0 != target@);
            }
        };
        None
    }
}

impl Clone for AsyncEventEmitter {
    fn clone(&self) -> (res: Self)
        ensures
            res@ == self@,
    {
        AsyncEventEmitter { listeners: table_clone(&self.listeners) }
    }
}

impl Default for AsyncEventEmitter {
    fn default() -> (em: Self)
        ensures
            em@ =~= Map::<Seq<char>, Seq<ListenerView>>::empty(),
    {
        AsyncEventEmitter::new()
    }
}

} // verus!
