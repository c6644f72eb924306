//! Listeners held by weak handles: an [`Arena`] owns the listeners, and a
//! [`Registry`] or a [`RenderList`] only names them by handle. Releasing a
//! listener from its arena ends it; the lists find out at their next pass
//! and drop the stale handle.
use vstd::prelude::*;
use crate::event::PlayerChatEvent;
use crate::seqs::lemma_filter_take_step;

verus! {

/// Names a listener in an arena; handles are never reused, so two listeners
/// never share one, however alike they are.
#[derive(Clone, Copy, Debug, PartialEq, Eq, Structural)]
pub struct Handle {
    pub id: u64,
}

/// Something that reacts to the chat events of one entity.
pub trait PlayerChatEventListener {
    fn handle_event(&mut self, event: &PlayerChatEvent);
}

/// Something drawn on every frame.
pub trait Renderable {
    fn render(&mut self);
}

pub proof fn lemma_push_contains(s: Seq<u64>, v: u64)
    ensures
        forall|x: u64| #[trigger] s.push(v).contains(x) <==> s.contains(x) || x == v,
{
    assert forall|x: u64| #[trigger] s.push(v).contains(x) <==> s.contains(x) || x == v by {
        if s.contains(x) {
            let k = choose|k: int| 0 <= k < s.len() && s[k] == x;
            assert(s.push(v)[k] == x);
        }
        if x == v {
            assert(s.push(v)[s.len() as int] == x);
        }
        if s.push(v).contains(x) && x != v {
            let k = choose|k: int| 0 <= k < s.len() + 1 && s.push(v)[k] == x;
            assert(s[k] == x);
        }
    }
}

pub proof fn lemma_remove_contains(s: Seq<u64>, i: int)
    requires
        0 <= i < s.len(),
        s.no_duplicates(),
    ensures
        s.remove(i).no_duplicates(),
        forall|x: u64| #[trigger] s.remove(i).contains(x) <==> s.contains(x) && x != s[i],
{
    let r = s.remove(i);
    assert forall|a: int, b: int| 0 <= a < b < r.len() implies r[a] != r[b] by {
        let a2 = if a < i { a } else { a + 1 };
        let b2 = if b < i { b } else { b + 1 };
        assert(r[a] == s[a2] && r[b] == s[b2]);
    }
    assert forall|x: u64| #[trigger] r.contains(x) <==> s.contains(x) && x != s[i] by {
        if r.contains(x) {
            let k = choose|k: int| 0 <= k < r.len() && r[k] == x;
            let k2 = if k < i { k } else { k + 1 };
            assert(s[k2] == x);
            assert(k2 != i);
        }
        if s.contains(x) && x != s[i] {
            let k = choose|k: int| 0 <= k < s.len() && s[k] == x;
            if k < i {
                assert(r[k] == x);
            } else {
                assert(k != i);
                assert(r[k - 1] == x);
            }
        }
    }
}

/// The owner of listeners.
pub struct Arena<T> {
    items: Vec<(u64, T)>,
    next_id: u64,
}

impl<T> Arena<T> {
    /// The ids of the listeners held, in order of insertion.
    pub closed spec fn ids(&self) -> Seq<u64> {
        self.items@.map_values(|p: (u64, T)| p.0)
    }

    /// The listeners held, in the order of `ids`.
    pub closed spec fn values(&self) -> Seq<T> {
        self.items@.map_values(|p: (u64, T)| p.1)
    }

    /// The handles that resolve.
    pub open spec fn live(&self) -> Set<u64> {
        Set::new(|id: u64| self.ids().contains(id))
    }

    /// The id that the next insertion hands out.
    pub closed spec fn next_id(&self) -> u64 {
        self.next_id
    }

    pub closed spec fn wf(&self) -> bool {
        &&& self.ids().no_duplicates()
        &&& forall|i: int| 0 <= i < self.items@.len() ==> #[trigger] self.items@[i].0 < self.next_id
    }

    pub fn new() -> (r: Self)
        ensures
            r.wf(),
            r.live() == Set::<u64>::empty(),
            r.next_id() == 0,
    {
        let r = Arena { items: Vec::new(), next_id: 0 };
        assert(r.ids() =~= Seq::<u64>::empty());
        r
    }

    /// The number of listeners held.
    pub fn len(&self) -> (n: usize)
        ensures
            n == self.ids().len(),
    {
        self.items.len()
    }

    /// Takes ownership of `value`; gives its handle, or nothing once every
    /// id has been handed out.
    pub fn insert(&mut self, value: T) -> (r: Option<Handle>)
        requires
            old(self).wf(),
        ensures
            final(self).wf(),
            r is Some <==> old(self).next_id() < u64::MAX,
            r is Some ==> r->Some_0.id == old(self).next_id() && !old(self).live().contains(
                r->Some_0.id,
            ) && final(self).live() == old(self).live().insert(r->Some_0.id),
            r is None ==> final(self).live() == old(self).live(),
    {
        if self.next_id == u64::MAX {
            return None;
        }
        let id = self.next_id;
        let ghost before = self.ids();
        self.items.push((id, value));
        self.next_id = id + 1;
        proof {
            assert(self.ids() =~= before.push(id));
            assert(!before.contains(id));
            lemma_push_contains(before, id);
            assert(self.live() =~= old(self).live().insert(id));
            assert forall|i: int| 0 <= i < self.items@.len() implies #[trigger] self.items@[i].0
                < self.next_id by {
                if i < before.len() {
                    assert(self.items@[i] == old(self).items@[i]);
                }
            }
        }
        Some(Handle { id })
    }

    /// Whether `h` resolves.
    pub fn contains(&self, h: Handle) -> (r: bool)
        ensures
            r == self.live().contains(h.id),
    {
        let mut i: usize = 0;
        while i < self.items.len()
            invariant
                i <= self.items@.len(),
                forall|j: int| 0 <= j < i ==> #[trigger] self.ids()[j] != h.id,
            decreases self.items@.len() - i,
        {
            if self.items[i].0 == h.id {
                assert(self.ids()[i as int] == h.id);
                return true;
            }
            i = i + 1;
        }
        false
    }

    /// The listener that `h` names, if it is held.
    pub fn get(&self, h: Handle) -> (r: Option<&T>)
        ensures
            r is Some <==> self.live().contains(h.id),
            r is Some ==> exists|j: int|
                0 <= j < self.ids().len() && self.ids()[j] == h.id && *r->Some_0
                    == #[trigger] self.values()[j],
    {
        let mut i: usize = 0;
        while i < self.items.len()
            invariant
                i <= self.items@.len(),
                forall|j: int| 0 <= j < i ==> #[trigger] self.ids()[j] != h.id,
            decreases self.items@.len() - i,
        {
            if self.items[i].0 == h.id {
                assert(self.ids()[i as int] == h.id);
                assert(self.values()[i as int] == self.items@[i as int].1);
                return Some(&self.items[i].1);
            }
            i = i + 1;
        }
        None
    }

    /// Ends the listener that `h` names, giving it back; the handle no
    /// longer resolves.
    pub fn release(&mut self, h: Handle) -> (r: Option<T>)
        requires
            old(self).wf(),
        ensures
            final(self).wf(),
            final(self).next_id() == old(self).next_id(),
            r is Some <==> old(self).live().contains(h.id),
            final(self).live() == old(self).live().remove(h.id),
    {
        let mut i: usize = 0;
        while i < self.items.len()
            invariant
                self.items@ == old(self).items@,
                self.next_id == old(self).next_id,
                old(self).wf(),
                i <= self.items@.len(),
                forall|j: int| 0 <= j < i ==> #[trigger] self.ids()[j] != h.id,
            decreases self.items@.len() - i,
        {
            if self.items[i].0 == h.id {
                let ghost before = self.ids();
                assert(before[i as int] == h.id);
                assert(old(self).live().contains(h.id));
                let (_, value) = self.items.remove(i);
                proof {
                    assert(self.ids() =~= before.remove(i as int));
                    lemma_remove_contains(before, i as int);
                    assert(self.live() =~= old(self).live().remove(h.id));
                    assert forall|j: int| 0 <= j < self.items@.len() implies #[trigger] self.items@[j].0
                        < self.next_id by {
                        if j < i {
                            assert(self.items@[j] == old(self).items@[j]);
                        } else {
                            assert(self.items@[j] == old(self).items@[j + 1]);
                        }
                    }
                }
                return Some(value);
            }
            i = i + 1;
        }
        assert(!self.ids().contains(h.id));
        assert(self.live() =~= old(self).live().remove(h.id));
        None
    }
}

impl<T: PlayerChatEventListener> Arena<T> {
    /// Hands `event` to the listener that `h` names, if it is held.
    fn notify(&mut self, h: Handle, event: &PlayerChatEvent)
        requires
            old(self).wf(),
        ensures
            final(self).wf(),
            final(self).ids() == old(self).ids(),
            final(self).next_id() == old(self).next_id(),
            final(self).values().len() == old(self).values().len(),
            forall|j: int|
                0 <= j < old(self).ids().len() && old(self).ids()[j] != h.id
                    ==> #[trigger] final(self).values()[j] == old(self).values()[j],
    {
        let mut i: usize = 0;
        while i < self.items.len()
            invariant
                self.items@ == old(self).items@,
                self.next_id == old(self).next_id,
                old(self).wf(),
                i <= self.items@.len(),
            decreases self.items@.len() - i,
        {
            if self.items[i].0 == h.id {
                let item = &mut self.items[i];
                item.1.handle_event(event);
                assert(self.ids() =~= old(self).ids());
                assert(forall|j: int| 0 <= j < self.items@.len() ==> #[trigger] self.items@[j].0
                    == old(self).items@[j].0);
                assert(forall|j: int|
                    0 <= j < self.items@.len() && j != i ==> #[trigger] self.items@[j]
                        == old(self).items@[j]);
                return;
            }
            i = i + 1;
        }
    }
}

impl<T: Renderable> Arena<T> {
    /// Draws the listener that `h` names, if it is held.
    fn render_one(&mut self, h: Handle)
        requires
            old(self).wf(),
        ensures
            final(self).wf(),
            final(self).ids() == old(self).ids(),
            final(self).next_id() == old(self).next_id(),
    {
        let mut i: usize = 0;
        while i < self.items.len()
            invariant
                self.items@ == old(self).items@,
                self.next_id == old(self).next_id,
                old(self).wf(),
                i <= self.items@.len(),
            decreases self.items@.len() - i,
        {
            if self.items[i].0 == h.id {
                let item = &mut self.items[i];
                item.1.render();
                assert(self.ids() =~= old(self).ids());
                assert(forall|j: int| 0 <= j < self.items@.len() ==> #[trigger] self.items@[j].0
                    == old(self).items@[j].0);
                return;
            }
            i = i + 1;
        }
    }
}

/// A listener of one entity.
#[derive(Clone, Copy, Debug, PartialEq, Eq, Structural)]
pub struct Registration {
    pub entity_id: u8,
    pub listener: Handle,
}

/// A registration that survives a dispatch to `entity_id` while the handles
/// in `live` resolve.
pub open spec fn survives(r: Registration, entity_id: u8, live: Set<u64>) -> bool {
    r.entity_id != entity_id || live.contains(r.listener.id)
}

/// A registration whose listener a dispatch to `entity_id` reaches.
pub open spec fn reached(r: Registration, entity_id: u8, live: Set<u64>) -> bool {
    r.entity_id == entity_id && live.contains(r.listener.id)
}

/// Some registration under `entity_id` names the listener `id`.
pub open spec fn registered_under(entries: Seq<Registration>, entity_id: u8, id: u64) -> bool {
    exists|k: int|
        0 <= k < entries.len() && (#[trigger] entries[k]).entity_id == entity_id
            && entries[k].listener.id == id
}

/// The number of registrations under `entity_id`.
pub open spec fn count_for(entries: Seq<Registration>, entity_id: u8) -> nat
    decreases entries.len(),
{
    if entries.len() == 0 {
        0
    } else {
        count_for(entries.drop_last(), entity_id) + if entries.last().entity_id == entity_id {
            1nat
        } else {
            0nat
        }
    }
}

proof fn lemma_count_zero(entries: Seq<Registration>, entity_id: u8)
    requires
        forall|i: int| 0 <= i < entries.len() ==> (#[trigger] entries[i]).entity_id != entity_id,
    ensures
        count_for(entries, entity_id) == 0,
    decreases entries.len(),
{
    if entries.len() > 0 {
        let init = entries.drop_last();
        assert forall|i: int| 0 <= i < init.len() implies (#[trigger] init[i]).entity_id != entity_id by {
            assert(init[i] == entries[i]);
        }
        lemma_count_zero(init, entity_id);
        assert(entries.last() == entries[entries.len() - 1]);
    }
}

/// The entity-keyed registrations of chat event listeners, in order of
/// registration. It holds handles only: it never keeps a listener alive.
pub struct Registry {
    entries: Vec<Registration>,
}

impl View for Registry {
    type V = Seq<Registration>;

    closed spec fn view(&self) -> Seq<Registration> {
        self.entries@
    }
}

impl Registry {
    pub fn new() -> (r: Self)
        ensures
            r@ == Seq::<Registration>::empty(),
    {
        Registry { entries: Vec::new() }
    }

    /// Registers the listener `h` for the events of `entity_id`, after the
    /// ones there.
    pub fn start_listening(&mut self, entity_id: u8, h: Handle)
        ensures
            final(self)@ == old(self)@.push(Registration { entity_id, listener: h }),
    {
        self.entries.push(Registration { entity_id, listener: h });
    }

    /// Removes every registration of the listener `h`, under every entity.
    pub fn stop_listening(&mut self, h: Handle)
        ensures
            final(self)@ == old(self)@.filter(|r: Registration| r.listener != h),
    {
        let ghost pred = |r: Registration| r.listener != h;
        let ghost before = self@;
        let mut kept: Vec<Registration> = Vec::new();
        let mut i: usize = 0;
        assert(before.take(0) =~= Seq::<Registration>::empty());
        while i < self.entries.len()
            invariant
                self@ == before,
                pred == (|r: Registration| r.listener != h),
                i <= before.len(),
                kept@ == before.take(i as int).filter(pred),
            decreases before.len() - i,
        {
            let r = self.entries[i];
            proof {
                lemma_filter_take_step(before, pred, i as int);
            }
            if r.listener != h {
                kept.push(r);
            }
            i = i + 1;
        }
        assert(before.take(i as int) =~= before);
        self.entries = kept;
    }

    /// Some registration under `entity_id` names the listener `id`.
pub open spec fn registered_under(entries: Seq<Registration>, entity_id: u8, id: u64) -> bool {
    exists|k: int|
        0 <= k < entries.len() && (#[trigger] entries[k]).entity_id == entity_id
            && entries[k].listener.id == id
}

/// The number of registrations under `entity_id`.
    pub fn listener_count(&self, entity_id: u8) -> (n: usize)
        ensures
            n == count_for(self@, entity_id),
    {
        let mut n: usize = 0;
        let mut i: usize = 0;
        assert(self@.take(0) =~= Seq::<Registration>::empty());
        while i < self.entries.len()
            invariant
                i <= self@.len(),
                n == count_for(self@.take(i as int), entity_id),
                n <= i,
            decreases self@.len() - i,
        {
            proof {
                assert(self@.take(i + 1).drop_last() =~= self@.take(i as int));
                assert(self@.take(i + 1).last() == self@[i as int]);
            }
            if self.entries[i].entity_id == entity_id {
                n = n + 1;
            }
            i = i + 1;
        }
        assert(self@.take(i as int) =~= self@);
        n
    }

    /// Dispatches `event` to the listeners of `entity_id`, in order of
    /// registration, and drops the registrations whose listener is gone.
    /// Gives the handles of the listeners reached.
    pub fn emit<L: PlayerChatEventListener>(
        &mut self,
        arena: &mut Arena<L>,
        entity_id: u8,
        event: &PlayerChatEvent,
    ) -> (invoked: Vec<Handle>)
        requires
            old(arena).wf(),
        ensures
            final(arena).wf(),
            final(arena).ids() == old(arena).ids(),
            final(arena).next_id() == old(arena).next_id(),
            final(self)@ == old(self)@.filter(
                |r: Registration| survives(r, entity_id, old(arena).live()),
            ),
            invoked@ == old(self)@.filter(
                |r: Registration| reached(r, entity_id, old(arena).live()),
            ).map_values(|r: Registration| r.listener),
            final(arena).values().len() == old(arena).values().len(),
            forall|j: int|
                0 <= j < old(arena).ids().len() && !registered_under(
                    old(self)@,
                    entity_id,
                    old(arena).ids()[j],
                ) ==> #[trigger] final(arena).values()[j] == old(arena).values()[j],
    {
        let ghost live = arena.live();
        let ghost keep = |r: Registration| survives(r, entity_id, live);
        let ghost reach = |r: Registration| reached(r, entity_id, live);
        let ghost before = self@;
        let mut kept: Vec<Registration> = Vec::new();
        let mut invoked: Vec<Handle> = Vec::new();
        let mut i: usize = 0;
        assert(before.take(0) =~= Seq::<Registration>::empty());
        while i < self.entries.len()
            invariant
                self@ == before,
                arena.wf(),
                arena.ids() == old(arena).ids(),
                arena.next_id() == old(arena).next_id(),
                live == old(arena).live(),
                keep == (|r: Registration| survives(r, entity_id, live)),
                reach == (|r: Registration| reached(r, entity_id, live)),
                i <= before.len(),
                arena.values().len() == old(arena).values().len(),
                forall|j: int|
                    0 <= j < old(arena).ids().len() && !registered_under(
                        before.take(i as int),
                        entity_id,
                        old(arena).ids()[j],
                    ) ==> #[trigger] arena.values()[j] == old(arena).values()[j],
                kept@ == before.take(i as int).filter(keep),
                invoked@ == before.take(i as int).filter(reach).map_values(
                    |r: Registration| r.listener,
                ),
            decreases before.len() - i,
        {
            let r = self.entries[i];
            proof {
                lemma_filter_take_step(before, keep, i as int);
                lemma_filter_take_step(before, reach, i as int);
                assert(arena.live() =~= live);
                assert forall|id: u64|
                    !registered_under(before.take(i + 1), entity_id, id) implies !registered_under(
                    before.take(i as int),
                    entity_id,
                    id,
                ) by {
                    if registered_under(before.take(i as int), entity_id, id) {
                        let k = choose|k: int|
                            0 <= k < i && (#[trigger] before.take(i as int)[k]).entity_id
                                == entity_id && before.take(i as int)[k].listener.id == id;
                        assert(before.take(i + 1)[k] == before.take(i as int)[k]);
                    }
                }
                assert(before.take(i + 1)[i as int] == r);
            }
            if r.entity_id != entity_id {
                kept.push(r);
            } else if arena.contains(r.listener) {
                arena.notify(r.listener, event);
                proof {
                    assert(arena.live() =~= live);
                }
                kept.push(r);
                invoked.push(r.listener);
                assert(invoked@ =~= before.take(i + 1).filter(reach).map_values(
                    |r: Registration| r.listener,
                ));
            }
            i = i + 1;
        }
        assert(before.take(i as int) =~= before);
        self.entries = kept;
        invoked
    }
}

/// Once a listener's owner lets it go, the next dispatch to its entity
/// neither reaches it nor keeps its registration; when no listener of the
/// entity is left, the entity has no registrations after that dispatch.
pub proof fn lemma_dispatch_prunes(entries: Seq<Registration>, entity_id: u8, live: Set<u64>)
    ensures
        ({
            let after = entries.filter(|r: Registration| survives(r, entity_id, live));
            let reached_all = entries.filter(|r: Registration| reached(r, entity_id, live));
            &&& forall|i: int|
                0 <= i < after.len() && (#[trigger] after[i]).entity_id == entity_id ==> live.contains(
                    after[i].listener.id,
                )
            &&& forall|i: int|
                0 <= i < reached_all.len() ==> live.contains((#[trigger] reached_all[i]).listener.id)
            &&& (forall|i: int|
                0 <= i < entries.len() && (#[trigger] entries[i]).entity_id == entity_id
                    ==> !live.contains(entries[i].listener.id)) ==> count_for(after, entity_id) == 0
        }),
{
    broadcast use vstd::seq_lib::group_filter_ensures;

    let keep = |r: Registration| survives(r, entity_id, live);
    let reach = |r: Registration| reached(r, entity_id, live);
    let after = entries.filter(keep);
    let reached_all = entries.filter(reach);
    assert forall|i: int| 0 <= i < after.len() && (#[trigger] after[i]).entity_id == entity_id implies live.contains(
        after[i].listener.id,
    ) by {
        assert(keep(after[i]));
    }
    assert forall|i: int| 0 <= i < reached_all.len() implies live.contains(
        (#[trigger] reached_all[i]).listener.id,
    ) by {
        assert(reach(reached_all[i]));
    }
    if forall|i: int|
        0 <= i < entries.len() && (#[trigger] entries[i]).entity_id == entity_id ==> !live.contains(
            entries[i].listener.id,
        ) {
        assert forall|i: int| 0 <= i < after.len() implies (#[trigger] after[i]).entity_id != entity_id by {
            assert(keep(after[i]));
            assert(after.contains(after[i]));
            entries.lemma_filter_contains_rev(keep, after[i]);
            let k = choose|k: int| 0 <= k < entries.len() && entries[k] == after[i];
            assert(entries[k] == after[i]);
        }
        lemma_count_zero(after, entity_id);
    }
}

/// The renderables drawn every frame, by handle, in order of registration.
pub struct RenderList {
    entries: Vec<Handle>,
}

impl View for RenderList {
    type V = Seq<Handle>;

    closed spec fn view(&self) -> Seq<Handle> {
        self.entries@
    }
}

impl RenderList {
    pub fn new() -> (r: Self)
        ensures
            r@ == Seq::<Handle>::empty(),
    {
        RenderList { entries: Vec::new() }
    }

    pub fn is_empty(&self) -> (r: bool)
        ensures
            r == (self@.len() == 0),
    {
        self.entries.len() == 0
    }

    pub fn len(&self) -> (n: usize)
        ensures
            n == self@.len(),
    {
        self.entries.len()
    }

    pub fn start_rendering(&mut self, h: Handle)
        ensures
            final(self)@ == old(self)@.push(h),
    {
        self.entries.push(h);
    }

    pub fn stop_rendering(&mut self, h: Handle)
        ensures
            final(self)@ == old(self)@.filter(|x: Handle| x != h),
    {
        let ghost pred = |x: Handle| x != h;
        let ghost before = self@;
        let mut kept: Vec<Handle> = Vec::new();
        let mut i: usize = 0;
        assert(before.take(0) =~= Seq::<Handle>::empty());
        while i < self.entries.len()
            invariant
                self@ == before,
                pred == (|x: Handle| x != h),
                i <= before.len(),
                kept@ == before.take(i as int).filter(pred),
            decreases before.len() - i,
        {
            let x = self.entries[i];
            proof {
                lemma_filter_take_step(before, pred, i as int);
            }
            if x != h {
                kept.push(x);
            }
            i = i + 1;
        }
        assert(before.take(i as int) =~= before);
        self.entries = kept;
    }

    /// Draws every renderable that is still held, in order, and drops the
    /// handles of those that are gone.
    pub fn render_all<R: Renderable>(&mut self, arena: &mut Arena<R>)
        requires
            old(arena).wf(),
        ensures
            final(arena).wf(),
            final(arena).ids() == old(arena).ids(),
            final(arena).next_id() == old(arena).next_id(),
            final(self)@ == old(self)@.filter(|x: Handle| old(arena).live().contains(x.id)),
    {
        let ghost live = arena.live();
        let ghost pred = |x: Handle| live.contains(x.id);
        let ghost before = self@;
        let mut kept: Vec<Handle> = Vec::new();
        let mut i: usize = 0;
        assert(before.take(0) =~= Seq::<Handle>::empty());
        while i < self.entries.len()
            invariant
                self@ == before,
                arena.wf(),
                arena.ids() == old(arena).ids(),
                arena.next_id() == old(arena).next_id(),
                live == old(arena).live(),
                pred == (|x: Handle| live.contains(x.id)),
                i <= before.len(),
                kept@ == before.take(i as int).filter(pred),
            decreases before.len() - i,
        {
            let x = self.entries[i];
            proof {
                lemma_filter_take_step(before, pred, i as int);
                assert(arena.live() =~= live);
            }
            if arena.contains(x) {
                arena.render_one(x);
                kept.push(x);
            }
            i = i + 1;
        }
        assert(before.take(i as int) =~= before);
        self.entries = kept;
    }
}

} // verus!
