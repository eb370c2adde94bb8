//! Laws of the emitter, stated over the views that the contracts of
//! `AsyncEventEmitter` use.

use crate::emitter::{
    after_emit, call_ids, has_listener_id, listeners_of, removed_listener, with_listener,
    AsyncEventEmitter,
};
use crate::listener::{
    answered, emit_dropped, emit_fired, emit_kept, is_exhausted, is_first_index,
    is_removed_by_emit, strings_view, views, AsyncListener, ListenerView,
};
use crate::table::{is_uuid_v4_text, listener_table};
use vstd::prelude::*;

verus! {

/// The listeners that remain of `s` after `n` emits in a row.
pub open spec fn emit_times(s: Seq<ListenerView>, n: nat) -> Seq<ListenerView>
    decreases n,
{
    if n == 0 {
        s
    } else {
        emit_kept(emit_times(s, (n - 1) as nat))
    }
}

/// The ids that `n` emits in a row call on listeners `s`, in the order of the calls.
pub open spec fn fired_over(s: Seq<ListenerView>, n: nat) -> Seq<Seq<char>>
    decreases n,
{
    if n == 0 {
        Seq::empty()
    } else {
        fired_over(s, (n - 1) as nat) + emit_fired(emit_times(s, (n - 1) as nat))
    }
}

/// One emit on a single listener: it is called unless its limit has run
/// out, and it stays, having answered, unless that was its last call or its
/// limit had run out.
pub proof fn lemma_emit_single(l: ListenerView)
    ensures
        emit_kept(seq![l]) == (if is_removed_by_emit(l) {
            Seq::<ListenerView>::empty()
        } else {
            seq![answered(l)]
        }),
        emit_fired(seq![l]) == (if is_exhausted(l) {
            Seq::<Seq<char>>::empty()
        } else {
            seq![l.0]
        }),
{
    let s = seq![l];
    assert(s.drop_last() =~= Seq::<ListenerView>::empty());
    assert(s.last() == l);
    assert(emit_kept(s.drop_last()) =~= Seq::<ListenerView>::empty());
    assert(emit_fired(s.drop_last()) =~= Seq::<Seq<char>>::empty());
    if !is_removed_by_emit(l) {
        assert(emit_kept(s) =~= seq![answered(l)]);
    }
    if !is_exhausted(l) {
        assert(emit_fired(s) =~= seq![l.0]);
    }
}

/// Listeners do not affect one another: an emit on the listeners `a`
/// followed by `b` leaves and calls what it leaves and calls of `a`,
/// followed by what it leaves and calls of `b`.
pub proof fn lemma_emit_splits(a: Seq<ListenerView>, b: Seq<ListenerView>)
    ensures
        emit_kept(a + b) == emit_kept(a) + emit_kept(b),
        emit_fired(a + b) == emit_fired(a) + emit_fired(b),
    decreases b.len(),
{
    if b.len() == 0 {
        assert(a + b =~= a);
        assert(emit_kept(b) =~= Seq::<ListenerView>::empty());
        assert(emit_fired(b) =~= Seq::<Seq<char>>::empty());
        assert(emit_kept(a) + emit_kept(b) =~= emit_kept(a));
        assert(emit_fired(a) + emit_fired(b) =~= emit_fired(a));
    } else {
        let b0 = b.drop_last();
        lemma_emit_splits(a, b0);
        assert((a + b).drop_last() =~= a + b0);
        assert((a + b).last() == b.last());
        if is_exhausted(b.last()) {
            assert(emit_kept(a + b) =~= emit_kept(a) + emit_kept(b));
            assert(emit_fired(a + b) =~= emit_fired(a) + emit_fired(b));
        } else {
            assert(emit_kept(a + b) =~= emit_kept(a) + emit_kept(b));
            assert(emit_fired(a + b) =~= emit_fired(a) + emit_fired(b));
        }
    }
}

/// The same holds over any number of emits in a row.
pub proof fn lemma_emit_times_splits(a: Seq<ListenerView>, b: Seq<ListenerView>, n: nat)
    ensures
        emit_times(a + b, n) == emit_times(a, n) + emit_times(b, n),
    decreases n,
{
    if n > 0 {
        lemma_emit_times_splits(a, b, (n - 1) as nat);
        lemma_emit_splits(emit_times(a, (n - 1) as nat), emit_times(b, (n - 1) as nat));
    }
}

/// A listener with limit `limit` is called by each of the first `limit`
/// emits, its limit going down by one each time, and is removed by the last
/// of them; one added with limit zero is removed by the first emit, uncalled.
pub proof fn lemma_limited_listener(id: Seq<char>, limit: u64, n: nat)
    ensures
        (n == 0 || n < limit) ==> emit_times(seq![(id, Some(limit))], n) == seq![
            (id, Some((limit - n) as u64)),
        ],
        (n > 0 && n >= limit) ==> emit_times(seq![(id, Some(limit))], n) == Seq::<
            ListenerView,
        >::empty(),
        fired_over(seq![(id, Some(limit))], n) == Seq::new(
            if n <= limit {
                n
            } else {
                limit as nat
            },
            |_i: int| id,
        ),
    decreases n,
{
    let s: Seq<ListenerView> = seq![(id, Some(limit))];
    if n == 0 {
        assert(emit_times(s, 0) == s);
        assert(seq![(id, Some((limit - 0) as u64))] =~= s);
        assert(fired_over(s, 0) =~= Seq::new(0, |_i: int| id));
    } else {
        let m = (n - 1) as nat;
        lemma_limited_listener(id, limit, m);
        if m < limit {
            let l: ListenerView = (id, Some((limit - m) as u64));
            lemma_emit_single(l);
            assert(answered(l) == (id, Some((limit - n) as u64)));
            assert(fired_over(s, n) =~= Seq::new(n, |_i: int| id));
        } else if m == 0 {
            let l: ListenerView = (id, Some(0u64));
            assert(emit_times(s, m) =~= seq![l]);
            lemma_emit_single(l);
            assert(fired_over(s, n) =~= Seq::new(limit as nat, |_i: int| id));
        } else {
            assert(emit_kept(Seq::<ListenerView>::empty()) =~= Seq::<ListenerView>::empty());
            assert(emit_fired(Seq::<ListenerView>::empty()) =~= Seq::<Seq<char>>::empty());
            assert(fired_over(s, n) =~= Seq::new(limit as nat, |_i: int| id));
        }
    }
}

/// Some listener of `s` has id `id`.
pub open spec fn has_id(s: Seq<ListenerView>, id: Seq<char>) -> bool {
    exists|j: int| 0 <= j < s.len() && s[j].0 == id
}

/// An emit brings in no listener: an id that none of `s` has, none of what
/// it leaves has.
pub proof fn lemma_emit_brings_no_id(s: Seq<ListenerView>, id: Seq<char>)
    requires
        !has_id(s, id),
    ensures
        !has_id(emit_kept(s), id),
    decreases s.len(),
{
    if s.len() > 0 {
        let s0 = s.drop_last();
        assert(!has_id(s0, id)) by {
            if has_id(s0, id) {
                let j = choose|j: int| 0 <= j < s0.len() && s0[j].0 == id;
                assert(s[j] == s0[j]);
            }
        };
        lemma_emit_brings_no_id(s0, id);
        if !is_removed_by_emit(s.last()) {
            let k = emit_kept(s0);
            assert(emit_kept(s) == k + seq![answered(s.last())]);
            assert(answered(s.last()).0 == s.last().0);
            assert(!has_id(emit_kept(s), id)) by {
                if has_id(emit_kept(s), id) {
                    let j = choose|j: int|
                        0 <= j < emit_kept(s).len() && emit_kept(s)[j].0 == id;
                    if j < k.len() {
                        assert(emit_kept(s)[j] == k[j]);
                    }
                }
            };
        }
    }
}

/// The same over any number of emits in a row.
pub proof fn lemma_emit_times_brings_no_id(s: Seq<ListenerView>, id: Seq<char>, n: nat)
    requires
        !has_id(s, id),
    ensures
        !has_id(emit_times(s, n), id),
    decreases n,
{
    if n > 0 {
        lemma_emit_times_brings_no_id(s, id, (n - 1) as nat);
        lemma_emit_brings_no_id(emit_times(s, (n - 1) as nat), id);
    }
}

/// Whatever listeners stand beside it, a listener with limit `limit` whose
/// id no other listener has is gone after `limit` emits (after one, where
/// its limit is zero): no listener with its id is left.
pub proof fn lemma_limited_listener_is_deleted(
    a: Seq<ListenerView>,
    b: Seq<ListenerView>,
    id: Seq<char>,
    limit: u64,
    n: nat,
)
    requires
        !has_id(a, id),
        !has_id(b, id),
        n > 0,
        n >= limit,
    ensures
        !has_id(emit_times(a + seq![(id, Some(limit))] + b, n), id),
{
    let l: Seq<ListenerView> = seq![(id, Some(limit))];
    lemma_emit_times_splits(a + l, b, n);
    lemma_emit_times_splits(a, l, n);
    lemma_limited_listener(id, limit, n);
    lemma_emit_times_brings_no_id(a, id, n);
    lemma_emit_times_brings_no_id(b, id, n);
    let ea = emit_times(a, n);
    let eb = emit_times(b, n);
    assert(emit_times(l, n) =~= Seq::<ListenerView>::empty());
    let all = emit_times(a + l + b, n);
    assert(all =~= ea + eb);
    assert(!has_id(all, id)) by {
        if has_id(all, id) {
            let j = choose|j: int| 0 <= j < all.len() && all[j].0 == id;
            if j < ea.len() {
                assert(all[j] == ea[j]);
            } else {
                assert(all[j] == eb[j - ea.len()]);
            }
        }
    };
}

/// A listener without a limit is called by every emit and never removed.
pub proof fn lemma_unlimited_listener(id: Seq<char>, n: nat)
    ensures
        emit_times(seq![(id, None::<u64>)], n) == seq![(id, None::<u64>)],
        fired_over(seq![(id, None::<u64>)], n) == Seq::new(n, |_i: int| id),
    decreases n,
{
    let l: ListenerView = (id, None);
    let s = seq![l];
    if n == 0 {
        assert(fired_over(s, 0) =~= Seq::new(0, |_i: int| id));
    } else {
        lemma_unlimited_listener(id, (n - 1) as nat);
        lemma_emit_single(l);
        assert(fired_over(s, n) =~= Seq::new(n, |_i: int| id));
    }
}

/// An emit after a listener was added to an event calls what it called
/// before, followed by the new listener (unless its limit is already zero),
/// and leaves what it left before, followed by the new listener after it
/// answered.
pub proof fn lemma_emit_after_add(
    t: Map<Seq<char>, Seq<ListenerView>>,
    e: Seq<char>,
    l: ListenerView,
)
    ensures
        emit_fired(listeners_of(with_listener(t, e, l), e)) == emit_fired(listeners_of(t, e))
            + emit_fired(seq![l]),
        emit_kept(listeners_of(with_listener(t, e, l), e)) == emit_kept(listeners_of(t, e))
            + emit_kept(seq![l]),
        !is_exhausted(l) ==> emit_fired(listeners_of(with_listener(t, e, l), e)) == emit_fired(
            listeners_of(t, e),
        ).push(l.0),
{
    let old_ls = listeners_of(t, e);
    assert(listeners_of(with_listener(t, e, l), e) == old_ls.push(l));
    assert(old_ls.push(l) =~= old_ls + seq![l]);
    lemma_emit_splits(old_ls, seq![l]);
    lemma_emit_single(l);
    if !is_exhausted(l) {
        assert(emit_fired(old_ls) + seq![l.0] =~= emit_fired(old_ls).push(l.0));
    }
}

/// Removing a listener just added, whose id no other listener has, gives
/// the event back the listeners it had (an event that had none keeps an
/// entry with no listeners).
pub proof fn lemma_remove_undoes_add(
    t: Map<Seq<char>, Seq<ListenerView>>,
    e: Seq<char>,
    l: ListenerView,
    t2: Map<Seq<char>, Seq<ListenerView>>,
)
    requires
        !has_listener_id(t, l.0),
        removed_listener(with_listener(t, e, l), t2, l.0),
    ensures
        t2 == t.insert(e, listeners_of(t, e)),
{
    let t1 = with_listener(t, e, l);
    let old_ls = listeners_of(t, e);
    let (e2, i) = choose|e2: Seq<char>, i: int|
        #![trigger t1[e2].remove(i)]
        t1.dom().contains(e2) && is_first_index(t1[e2], l.0, i) && t2 == t1.insert(
            e2,
            t1[e2].remove(i),
        );
    if e2 != e {
        assert(t[e2][i].0 == l.0);
        assert(false);
    }
    assert(t1[e] == old_ls.push(l));
    if i < old_ls.len() {
        assert(t1[e][i] == old_ls[i]);
        assert(t.dom().contains(e));
        assert(t[e][i].0 == l.0);
        assert(false);
    }
    assert(i == old_ls.len());
    assert(t1[e].remove(i) =~= old_ls);
    assert(t2 =~= t.insert(e, old_ls));
}

/// An emitter is seen as exactly what its table of listeners holds.
pub proof fn lemma_emitter_view(em: AsyncEventEmitter)
    ensures
        em@ == listener_table(em.listeners),
{
}

/// The views that the contracts use, element by element: a listener is seen
/// as its id and limit, a string as its characters, a call as its id.
pub proof fn lemma_views_elementwise(
    ls: Seq<AsyncListener>,
    ss: Seq<String>,
    calls: Seq<(String, Vec<u8>)>,
)
    ensures
        views(ls).len() == ls.len(),
        forall|i: int| 0 <= i < ls.len() ==> #[trigger] views(ls)[i] == (ls[i].id@, ls[i].limit),
        strings_view(ss).len() == ss.len(),
        forall|i: int| 0 <= i < ss.len() ==> #[trigger] strings_view(ss)[i] == ss[i]@,
        call_ids(calls).len() == calls.len(),
        forall|i: int| 0 <= i < calls.len() ==> #[trigger] call_ids(calls)[i] == calls[i].0@,
{
}

/// What one emit does, listener by listener, in the order they subscribed:
/// with no listeners it calls, keeps and removes nothing; a further
/// listener at the end is called unless its limit is zero; it stays, its
/// limit one lower, where it has no limit or a limit of two or more; it is
/// removed where its limit is zero or one.
pub proof fn lemma_emit_step(s: Seq<ListenerView>, l: ListenerView)
    ensures
        emit_fired(Seq::empty()) == Seq::<Seq<char>>::empty(),
        emit_kept(Seq::empty()) == Seq::<ListenerView>::empty(),
        emit_dropped(Seq::empty()) == Seq::<Seq<char>>::empty(),
        emit_fired(s.push(l)) == (if l.1 == Some(0u64) {
            emit_fired(s)
        } else {
            emit_fired(s).push(l.0)
        }),
        emit_kept(s.push(l)) == (match l.1 {
            None => emit_kept(s).push(l),
            Some(n) => if n >= 2 {
                emit_kept(s).push((l.0, Some((n - 1) as u64)))
            } else {
                emit_kept(s)
            },
        }),
        emit_dropped(s.push(l)) == (match l.1 {
            None => emit_dropped(s),
            Some(n) => if n <= 1 {
                emit_dropped(s).push(l.0)
            } else {
                emit_dropped(s)
            },
        }),
{
    let t = s.push(l);
    assert(t.drop_last() =~= s);
    assert(t.last() == l);
    assert(emit_fired(t) =~= (if l.1 == Some(0u64) {
        emit_fired(s)
    } else {
        emit_fired(s).push(l.0)
    }));
    assert(emit_kept(t) =~= (match l.1 {
        None => emit_kept(s).push(l),
        Some(n) => if n >= 2 {
            emit_kept(s).push((l.0, Some((n - 1) as u64)))
        } else {
            emit_kept(s)
        },
    }));
    assert(emit_dropped(t) =~= (match l.1 {
        None => emit_dropped(s),
        Some(n) => if n <= 1 {
            emit_dropped(s).push(l.0)
        } else {
            emit_dropped(s)
        },
    }));
}

/// An emit of event `e` touches only the listeners of `e`: every other
/// event keeps exactly the listeners it had, no event appears or
/// disappears, and the listeners of `e` become what one emit leaves of them.
pub proof fn lemma_emit_touches_only_its_event(
    t: Map<Seq<char>, Seq<ListenerView>>,
    e: Seq<char>,
    k: Seq<char>,
)
    ensures
        after_emit(t, e).dom() == t.dom(),
        k != e && t.dom().contains(k) ==> after_emit(t, e)[k] == t[k],
        t.dom().contains(e) ==> after_emit(t, e)[e] == emit_kept(t[e]),
        after_emit(t, e).remove(e) == t.remove(e),
{
    assert(after_emit(t, e).dom() =~= t.dom());
    assert(after_emit(t, e).remove(e) =~= t.remove(e));
}

/// `has_listener_id` holds exactly where some listener of some event has the id.
pub proof fn lemma_has_listener_id(
    t: Map<Seq<char>, Seq<ListenerView>>,
    e: Seq<char>,
    i: int,
    id: Seq<char>,
)
    ensures
        t.dom().contains(e) && 0 <= i < t[e].len() ==> has_listener_id(t, t[e][i].0),
        has_listener_id(t, id) ==> exists|e2: Seq<char>, j: int|
            #![trigger t[e2][j]]
            t.dom().contains(e2) && 0 <= j < t[e2].len() && t[e2][j].0 == id,
{
}

/// The first place of an id in a list of listeners is unique, holds the id,
/// and no earlier place holds it; a list that holds the id has one.
pub proof fn lemma_first_index(s: Seq<ListenerView>, id: Seq<char>, i: int, j: int)
    ensures
        is_first_index(s, id, i) ==> 0 <= i < s.len() && s[i].0 == id && forall|k: int|
            0 <= k < i ==> s[k].0 != id,
        is_first_index(s, id, i) && is_first_index(s, id, j) ==> i == j,
        0 <= j < s.len() && s[j].0 == id ==> exists|k: int| is_first_index(s, id, k),
    decreases j,
{
    if 0 <= j < s.len() && s[j].0 == id {
        if is_first_index(s, id, j) {
        } else {
            let k = choose|k: int| 0 <= k < j && s[k].0 == id;
            lemma_first_index(s, id, i, k);
        }
    }
}

/// Removing a listener takes out the first listener with the id from one
/// event, and from no other: that event keeps all its other listeners, in
/// their old order (those before the removed one in place, those after it
/// one place earlier), and every other event keeps exactly what it had.
pub proof fn lemma_removed_listener_keeps_order(
    t: Map<Seq<char>, Seq<ListenerView>>,
    t2: Map<Seq<char>, Seq<ListenerView>>,
    id: Seq<char>,
)
    requires
        removed_listener(t, t2, id),
    ensures
        exists|e: Seq<char>, i: int|
            #![trigger t[e][i]]
            {
                &&& t.dom().contains(e)
                &&& 0 <= i < t[e].len()
                &&& t[e][i].0 == id
                &&& forall|j: int| 0 <= j < i ==> t[e][j].0 != id
                &&& t2.dom() == t.dom()
                &&& t2.remove(e) == t.remove(e)
                &&& t2[e].len() + 1 == t[e].len()
                &&& forall|j: int| 0 <= j < i ==> t2[e][j] == t[e][j]
                &&& forall|j: int| i <= j < t2[e].len() ==> t2[e][j] == t[e][j + 1]
            },
{
    let (e, i) = choose|e: Seq<char>, i: int|
        #![trigger t[e].remove(i)]
        t.dom().contains(e) && is_first_index(t[e], id, i) && t2 == t.insert(e, t[e].remove(i));
    assert(t2.dom() =~= t.dom());
    assert(t2.remove(e) =~= t.remove(e));
    assert(t2[e] == t[e].remove(i));
    assert(t[e][i].0 == id);
}

/// Adding a listener puts it last among the listeners of its event, after
/// those the event had (none where it had no entry), and leaves every
/// other event as it was.
pub proof fn lemma_add_appends(
    t: Map<Seq<char>, Seq<ListenerView>>,
    e: Seq<char>,
    l: ListenerView,
)
    ensures
        with_listener(t, e, l).dom() == t.dom().insert(e),
        with_listener(t, e, l)[e].len() == listeners_of(t, e).len() + 1,
        with_listener(t, e, l)[e].last() == l,
        with_listener(t, e, l)[e].drop_last() == (if t.dom().contains(e) {
            t[e]
        } else {
            Seq::<ListenerView>::empty()
        }),
        with_listener(t, e, l).remove(e) == t.remove(e),
{
    assert(with_listener(t, e, l).dom() =~= t.dom().insert(e));
    assert(with_listener(t, e, l)[e].drop_last() =~= listeners_of(t, e));
    assert(with_listener(t, e, l).remove(e) =~= t.remove(e));
}

/// The listeners of an event are those its entry holds, and none where the
/// table has no entry for it.
pub proof fn lemma_listeners_of(t: Map<Seq<char>, Seq<ListenerView>>, e: Seq<char>)
    ensures
        t.dom().contains(e) ==> listeners_of(t, e) == t[e],
        !t.dom().contains(e) ==> listeners_of(t, e).len() == 0,
{
}

/// The id of a new listener has the shape of a version 4 UUID written in
/// lower case with hyphens.
pub proof fn lemma_uuid_text_shape(s: Seq<char>, i: int)
    requires
        is_uuid_v4_text(s),
        0 <= i < 36,
    ensures
        s.len() == 36,
        (i == 8 || i == 13 || i == 18 || i == 23) ==> s[i] == '-',
        !(i == 8 || i == 13 || i == 18 || i == 23) ==> ('0' <= s[i] <= '9' || 'a' <= s[i] <= 'f'),
        s[14] == '4',
        s[19] == '8' || s[19] == '9' || s[19] == 'a' || s[19] == 'b',
{
    assert(s[i] == s[i]);
}

} // verus!
