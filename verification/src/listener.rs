//! Listeners and what one emit does to the listeners of an event.

use vstd::prelude::*;

verus! {

/// A listener as the contracts see it: its id, and how many more emits it
/// answers (`None`: every one).
pub type ListenerView = (Seq<char>, Option<u64>);

/// A listener of an event. The callback that answers it is kept by the
/// caller under `id`.
#[derive(Debug)]
pub struct AsyncListener {
    pub id: String,
    pub limit: Option<u64>,
}

impl Clone for AsyncListener {
    fn clone(&self) -> (res: Self)
        ensures
            res == *self,
    {
        AsyncListener { id: self.id.clone(), limit: self.limit }
    }
}

impl View for AsyncListener {
    type V = ListenerView;

    open spec fn view(&self) -> ListenerView {
        (self.id@, self.limit)
    }
}

/// The views of a sequence of listeners.
pub open spec fn views(s: Seq<AsyncListener>) -> Seq<ListenerView> {
    s.map_values(|l: AsyncListener| l@)
}

/// The views of a sequence of strings.
pub open spec fn strings_view(s: Seq<String>) -> Seq<Seq<char>> {
    s.map_values(|x: String| x@)
}

/// A listener whose limit has run out: an emit removes it without calling it.
pub open spec fn is_exhausted(l: ListenerView) -> bool {
    l.1 == Some(0u64)
}

/// A listener that an emit removes: one whose limit has run out, and one
/// that answers its last emit now (limit one), which is removed after the call.
pub open spec fn is_removed_by_emit(l: ListenerView) -> bool {
    l.1 == Some(0u64) || l.1 == Some(1u64)
}

/// A listener after it has answered one emit: a limit goes down by one.
pub open spec fn answered(l: ListenerView) -> ListenerView {
    match l.1 {
        Some(n) => (l.0, Some((n - 1) as u64)),
        None => l,
    }
}

/// What an emit leaves of one listener.
pub open spec fn kept_after_emit(l: ListenerView) -> Option<ListenerView> {
    if is_removed_by_emit(l) {
        None
    } else {
        Some(answered(l))
    }
}

/// The id an emit calls for one listener, if it calls it.
pub open spec fn fired_by_emit(l: ListenerView) -> Option<Seq<char>> {
    if is_exhausted(l) {
        None
    } else {
        Some(l.0)
    }
}

/// The id of a listener that an emit removes, if it removes it.
pub open spec fn dropped_by_emit(l: ListenerView) -> Option<Seq<char>> {
    if is_removed_by_emit(l) {
        Some(l.0)
    } else {
        None
    }
}

/// The ids of the listeners that one emit removes, in the order of `s`.
pub open spec fn emit_dropped(s: Seq<ListenerView>) -> Seq<Seq<char>> {
    s.filter_map(|l: ListenerView| dropped_by_emit(l))
}

/// The listeners of an event after one emit of it.
pub open spec fn emit_kept(s: Seq<ListenerView>) -> Seq<ListenerView> {
    s.filter_map(|l: ListenerView| kept_after_emit(l))
}

/// The ids of the listeners that one emit calls, in the order of `s`.
pub open spec fn emit_fired(s: Seq<ListenerView>) -> Seq<Seq<char>> {
    s.filter_map(|l: ListenerView| fired_by_emit(l))
}

/// `i` is the first place in `s` of a listener with id `id`.
pub open spec fn is_first_index(s: Seq<ListenerView>, id: Seq<char>, i: int) -> bool {
    &&& 0 <= i < s.len()
    &&& s[i].0 == id
    &&& forall|j: int| 0 <= j < i ==> s[j].0 != id
}

/// One emit of an event whose listeners are `listeners`: the ids to call,
/// in order, the listeners that remain, and the ids of those removed.
pub fn plan_emit(listeners: &Vec<AsyncListener>) -> (res: (Vec<String>, Vec<AsyncListener>, Vec<String>))
    ensures
        strings_view(res.0@) == emit_fired(views(listeners@)),
        views(res.1@) == emit_kept(views(listeners@)),
        strings_view(res.2@) == emit_dropped(views(listeners@)),
{
    let mut fired: Vec<String> = Vec::new();
    let mut kept: Vec<AsyncListener> = Vec::new();
    let mut dropped: Vec<String> = Vec::new();
    let mut i: usize = 0;
    while i < listeners.len()
        invariant
            i <= listeners.len(),
            strings_view(fired@) == emit_fired(views(listeners@).take(i as int)),
            views(kept@) == emit_kept(views(listeners@).take(i as int)),
            strings_view(dropped@) == emit_dropped(views(listeners@).take(i as int)),
        decreases listeners.len() - i,
    {
        let ghost all = views(listeners@);
        let ghost before = all.take(i as int);
        let ghost after = all.take(i + 1);
        assert(after.drop_last() =~= before);
        assert(after.last() == listeners@[i as int]@);
        let l = &listeners[i];
        match l.limit {
            None => {
                fired.push(l.id.clone());
                kept.push(AsyncListener { id: l.id.clone(), limit: None });
                assert(strings_view(fired@) =~= emit_fired(before) + seq![l.id@]);
                assert(views(kept@) =~= emit_kept(before) + seq![answered(l@)]);
                assert(strings_view(dropped@) =~= emit_dropped(before));
            },
            Some(n) => {
                if n == 0 {
                    dropped.push(l.id.clone());
                    assert(strings_view(fired@) =~= emit_fired(before));
                    assert(views(kept@) =~= emit_kept(before));
                    assert(strings_view(dropped@) =~= emit_dropped(before) + seq![l.id@]);
                } else if n == 1 {
                    fired.push(l.id.clone());
                    dropped.push(l.id.clone());
                    assert(strings_view(fired@) =~= emit_fired(before) + seq![l.id@]);
                    assert(views(kept@) =~= emit_kept(before));
                    assert(strings_view(dropped@) =~= emit_dropped(before) + seq![l.id@]);
                } else {
                    fired.push(l.id.clone());
                    kept.push(AsyncListener { id: l.id.clone(), limit: Some(n - 1) });
                    assert(strings_view(fired@) =~= emit_fired(before) + seq![l.id@]);
                    assert(views(kept@) =~= emit_kept(before) + seq![answered(l@)]);
                    assert(strings_view(dropped@) =~= emit_dropped(before));
                }
            },
        }
        i += 1;
    }
    assert(views(listeners@).take(listeners.len() as int) =~= views(listeners@));
    (fired, kept, dropped)
}

/// Where the first listener with id `id` stands in `listeners`, if any does.
pub fn first_index_of_id(listeners: &Vec<AsyncListener>, id: &String) -> (res: Option<usize>)
    ensures
        match res {
            Some(i) => is_first_index(views(listeners@), id@, i as int),
            None => forall|j: int| 0 <= j < listeners.len() ==> listeners@[j].id@ != id@,
        },
{
    let mut i: usize = 0;
    while i < listeners.len()
        invariant
            i <= listeners.len(),
            forall|j: int| 0 <= j < i ==> listeners@[j].id@ != id@,
        decreases listeners.len() - i,
    {
        if listeners[i].id == *id {
            return Some(i);
        }
        i += 1;
    }
    None
}

} // verus!
