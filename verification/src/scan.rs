//! Scans shared by all reactors: one sweep per watched component type, message
//! type or asset type and tick, however many reactors watch it. Each sweep is
//! turned into a stamp, the tick at which something last moved; a dependency
//! compares that stamp with the tick at which its reactor last ran.
use vstd::prelude::*;

use crate::table::{Key, Table};
use crate::tick::{clamp_tick, is_newer_than};

verus! {

/// The state of the sweep over one component type with one query filter.
#[derive(Clone, Copy)]
pub struct TypeScan {
    pub last_scan: u32,
    pub scanned_at: Option<u32>,
    pub dirty_stamp: u32,
    pub last_count: usize,
}

/// Is one of these ticks newer than `since`?
pub open spec fn any_newer(ticks: Seq<u32>, since: u32, this_run: u32) -> bool {
    exists|i: int|
        0 <= i < ticks.len() && crate::tick::newer(#[trigger] ticks[i], since, this_run)
}

impl TypeScan {
    /// The state before the first sweep. It reads as dirty, so that a new
    /// watcher fires once.
    pub open spec fn fresh(this_run: u32) -> TypeScan {
        TypeScan {
            last_scan: 0,
            scanned_at: None,
            dirty_stamp: this_run,
            last_count: usize::MAX,
        }
    }

    /// Did the type change between the last sweep and one that finds these
    /// change ticks? It did if a component was written since, or if the number
    /// of components is another.
    pub open spec fn finds_change(self, changed: Seq<u32>, this_run: u32) -> bool {
        changed.len() != self.last_count || any_newer(
            changed,
            crate::tick::clamped(self.last_scan, this_run),
            this_run,
        )
    }

    /// The state after a sweep at `this_run` that finds these change ticks. A
    /// second sweep at the same tick is not made.
    pub open spec fn scanned(self, changed: Seq<u32>, this_run: u32) -> TypeScan {
        if self.scanned_at == Some(this_run) {
            self
        } else {
            TypeScan {
                last_scan: this_run,
                scanned_at: Some(this_run),
                dirty_stamp: if self.finds_change(changed, this_run) {
                    this_run
                } else {
                    crate::tick::clamped(self.dirty_stamp, this_run)
                },
                last_count: changed.len() as usize,
            }
        }
    }

    pub fn new(this_run: u32) -> (r: TypeScan)
        ensures
            r == TypeScan::fresh(this_run),
    {
        TypeScan { last_scan: 0, scanned_at: None, dirty_stamp: this_run, last_count: usize::MAX }
    }

    /// Take in one sweep: the change tick of each component it found.
    pub fn refresh(&mut self, changed: &Vec<u32>, this_run: u32)
        ensures
            *final(self) == old(self).scanned(changed@, this_run),
    {
        if let Some(at) = self.scanned_at {
            if at == this_run {
                return;
            }
        }
        self.scanned_at = Some(this_run);
        clamp_tick(&mut self.last_scan, this_run);
        clamp_tick(&mut self.dirty_stamp, this_run);
        let since: u32 = self.last_scan;
        let mut dirty = false;
        let mut i: usize = 0;
        while i < changed.len()
            invariant
                i <= changed@.len(),
                dirty == any_newer(changed@.take(i as int), since, this_run),
            decreases changed@.len() - i,
        {
            let found = is_newer_than(changed[i], since, this_run);
            proof {
                let next = changed@.take(i + 1);
                let prior = changed@.take(i as int);
                if found {
                    assert(next[i as int] == changed@[i as int]);
                }
                if dirty {
                    let j = choose|j: int|
                        0 <= j < prior.len() && crate::tick::newer(
                            #[trigger] prior[j],
                            since,
                            this_run,
                        );
                    assert(next[j] == prior[j]);
                }
                if any_newer(next, since, this_run) {
                    let j = choose|j: int|
                        0 <= j < next.len() && crate::tick::newer(
                            #[trigger] next[j],
                            since,
                            this_run,
                        );
                    if j < i {
                        assert(prior[j] == next[j]);
                    }
                }
            }
            if found {
                dirty = true;
            }
            i += 1;
        }
        proof {
            assert(changed@.take(i as int) =~= changed@);
        }
        if changed.len() != self.last_count {
            dirty = true;
            self.last_count = changed.len();
        }
        self.last_scan = this_run;
        if dirty {
            self.dirty_stamp = this_run;
        }
    }
}

/// The state of the shared reading of one message buffer.
#[derive(Clone, Copy)]
pub struct MessageStamp {
    pub scanned_at: Option<u32>,
    pub dirty_stamp: u32,
}

impl MessageStamp {
    /// The state before the first reading. It reads as dirty, so that a new
    /// watcher fires once.
    pub open spec fn fresh(this_run: u32) -> MessageStamp {
        MessageStamp { scanned_at: None, dirty_stamp: this_run }
    }

    /// The state after a reading at `this_run` that finds `unread` messages.
    pub open spec fn read(self, unread: usize, this_run: u32) -> MessageStamp {
        if self.scanned_at == Some(this_run) {
            self
        } else {
            MessageStamp {
                scanned_at: Some(this_run),
                dirty_stamp: if unread > 0 {
                    this_run
                } else {
                    crate::tick::clamped(self.dirty_stamp, this_run)
                },
            }
        }
    }

    pub fn new(this_run: u32) -> (r: MessageStamp)
        ensures
            r == MessageStamp::fresh(this_run),
    {
        MessageStamp { scanned_at: None, dirty_stamp: this_run }
    }

    /// Take in one reading of the buffer; a missing buffer holds no message.
    pub fn refresh(&mut self, unread: usize, this_run: u32)
        ensures
            *final(self) == old(self).read(unread, this_run),
    {
        if let Some(at) = self.scanned_at {
            if at == this_run {
                return;
            }
        }
        self.scanned_at = Some(this_run);
        clamp_tick(&mut self.dirty_stamp, this_run);
        if unread > 0 {
            self.dirty_stamp = this_run;
        }
    }
}

/// The state of the shared reading of the events of one asset type: the tick
/// at which each asset was last touched.
pub struct AssetStamp {
    pub scanned_at: Option<u32>,
    pub created: u32,
    pub touched: Table<u32>,
}

#[verifier::ext_equal]
pub ghost struct AssetStampView {
    pub scanned_at: Option<u32>,
    pub created: u32,
    pub touched: Map<Key, u32>,
}

impl View for AssetStamp {
    type V = AssetStampView;

    open spec fn view(&self) -> AssetStampView {
        AssetStampView {
            scanned_at: self.scanned_at,
            created: self.created,
            touched: self.touched@,
        }
    }
}

impl AssetStampView {
    pub open spec fn fresh(this_run: u32) -> AssetStampView {
        AssetStampView { scanned_at: None, created: this_run, touched: Map::empty() }
    }

    /// The state after a reading at `this_run` that finds events about these
    /// assets: they are touched now, and entries too old to tell anything go.
    pub open spec fn read(self, events: Seq<Key>, this_run: u32) -> AssetStampView {
        if self.scanned_at == Some(this_run) {
            self
        } else {
            AssetStampView {
                scanned_at: Some(this_run),
                created: crate::tick::clamped(self.created, this_run),
                touched: Map::new(
                    |k: Key|
                        events.contains(k) || (self.touched.dom().contains(k) && crate::tick::age(
                            self.touched[k],
                            this_run,
                        ) <= crate::tick::MAX_CHANGE_AGE),
                    |k: Key|
                        if events.contains(k) {
                            this_run
                        } else {
                            self.touched[k]
                        },
                ),
            }
        }
    }

    /// The tick that stands for an asset: when it was last touched, or for one
    /// that no event has named the tick at which watching began.
    pub open spec fn stamp_of(self, id: Key) -> u32 {
        if self.touched.dom().contains(id) {
            self.touched[id]
        } else {
            self.created
        }
    }
}

impl AssetStamp {
    pub open spec fn wf(&self) -> bool {
        self.touched.wf()
    }

    pub fn new(this_run: u32) -> (r: AssetStamp)
        ensures
            r.wf(),
            r@ == AssetStampView::fresh(this_run),
    {
        AssetStamp { scanned_at: None, created: this_run, touched: Table::new() }
    }

    /// Take in one reading of the buffer: the assets that its events name.
    pub fn refresh(&mut self, events: &Vec<Key>, this_run: u32)
        requires
            old(self).wf(),
        ensures
            final(self).wf(),
            final(self)@ == old(self)@.read(events@, this_run),
    {
        if let Some(at) = self.scanned_at {
            if at == this_run {
                return;
            }
        }
        let ghost before = self@;
        self.scanned_at = Some(this_run);
        clamp_tick(&mut self.created, this_run);
        self.touched.drop_expired(this_run);
        let mut i: usize = 0;
        while i < events.len()
            invariant
                i <= events@.len(),
                self.wf(),
                self.scanned_at == Some(this_run),
                before.scanned_at != Some(this_run),
                self.created == crate::tick::clamped(before.created, this_run),
                self.touched@ =~= before.read(events@.take(i as int), this_run).touched,
            decreases events@.len() - i,
        {
            self.touched.insert(events[i], this_run);
            proof {
                let prior = events@.take(i as int);
                let next = events@.take(i + 1);
                assert(next =~= prior.push(events@[i as int]));
                assert forall|k: Key| next.contains(k) <==> (prior.contains(k) || k
                    == events@[i as int]) by {
                    if prior.contains(k) {
                        let j = choose|j: int| 0 <= j < prior.len() && prior[j] == k;
                        assert(next[j] == k);
                    }
                    if k == events@[i as int] {
                        assert(next[i as int] == k);
                    }
                }
            }
            i += 1;
        }
        proof {
            assert(events@.take(i as int) =~= events@);
            assert(self@ =~= before.read(events@, this_run));
        }
    }

    pub fn stamp(&self, id: Key) -> (r: u32)
        requires
            self.wf(),
        ensures
            r == self@.stamp_of(id),
    {
        match self.touched.get(id) {
            Some(t) => *t,
            None => self.created,
        }
    }
}

/// All shared scans, by component type and filter, message type and asset type.
pub struct SharedScans {
    components: Table<TypeScan>,
    messages: Table<MessageStamp>,
    assets: Table<AssetStamp>,
}

#[verifier::ext_equal]
pub ghost struct ScansView {
    pub components: Map<Key, TypeScan>,
    pub messages: Map<Key, MessageStamp>,
    pub assets: Map<Key, AssetStampView>,
}

impl ScansView {
    pub open spec fn component(self, k: Key, this_run: u32) -> TypeScan {
        if self.components.dom().contains(k) {
            self.components[k]
        } else {
            TypeScan::fresh(this_run)
        }
    }

    pub open spec fn message(self, k: Key, this_run: u32) -> MessageStamp {
        if self.messages.dom().contains(k) {
            self.messages[k]
        } else {
            MessageStamp::fresh(this_run)
        }
    }

    pub open spec fn asset(self, k: Key, this_run: u32) -> AssetStampView {
        if self.assets.dom().contains(k) {
            self.assets[k]
        } else {
            AssetStampView::fresh(this_run)
        }
    }

    pub open spec fn after_sweep(self, k: Key, changed: Seq<u32>, this_run: u32) -> ScansView {
        ScansView {
            components: self.components.insert(
                k,
                self.component(k, this_run).scanned(changed, this_run),
            ),
            ..self
        }
    }

    pub open spec fn after_messages(self, k: Key, unread: usize, this_run: u32) -> ScansView {
        ScansView {
            messages: self.messages.insert(k, self.message(k, this_run).read(unread, this_run)),
            ..self
        }
    }

    pub open spec fn after_events(self, k: Key, events: Seq<Key>, this_run: u32) -> ScansView {
        ScansView {
            assets: self.assets.insert(k, self.asset(k, this_run).read(events, this_run)),
            ..self
        }
    }
}

impl View for SharedScans {
    type V = ScansView;

    closed spec fn view(&self) -> ScansView {
        ScansView {
            components: self.components@,
            messages: self.messages@,
            assets: self.assets@.map_values(|s: AssetStamp| s@),
        }
    }
}

impl SharedScans {
    pub closed spec fn wf(&self) -> bool {
        &&& self.components.wf()
        &&& self.messages.wf()
        &&& self.assets.wf()
        &&& forall|k: Key|
            self.assets@.dom().contains(k) ==> (#[trigger] self.assets@[k]).wf()
    }

    pub fn new() -> (r: SharedScans)
        ensures
            r.wf(),
            r@ == (ScansView {
                components: Map::empty(),
                messages: Map::empty(),
                assets: Map::empty(),
            }),
    {
        let r = SharedScans { components: Table::new(), messages: Table::new(), assets: Table::new() };
        proof {
            assert(r@.assets =~= Map::<Key, AssetStampView>::empty());
        }
        r
    }

    /// Has this component type not been swept at `this_run` yet?
    pub fn wants_sweep(&self, k: Key, this_run: u32) -> (r: bool)
        requires
            self.wf(),
        ensures
            r == (self@.component(k, this_run).scanned_at != Some(this_run)),
    {
        match self.components.get(k) {
            Some(s) => match s.scanned_at {
                Some(at) => at != this_run,
                None => true,
            },
            None => true,
        }
    }

    /// Has this message buffer not been read at `this_run` yet?
    pub fn wants_messages(&self, k: Key, this_run: u32) -> (r: bool)
        requires
            self.wf(),
        ensures
            r == (self@.message(k, this_run).scanned_at != Some(this_run)),
    {
        match self.messages.get(k) {
            Some(s) => match s.scanned_at {
                Some(at) => at != this_run,
                None => true,
            },
            None => true,
        }
    }

    /// Have the events of this asset type not been read at `this_run` yet?
    pub fn wants_events(&self, k: Key, this_run: u32) -> (r: bool)
        requires
            self.wf(),
        ensures
            r == (self@.asset(k, this_run).scanned_at != Some(this_run)),
    {
        match self.assets.get(k) {
            Some(s) => match s.scanned_at {
                Some(at) => at != this_run,
                None => true,
            },
            None => true,
        }
    }

    /// The stamp of a component type, after the sweep that found `changed`.
    pub fn stamp(&mut self, k: Key, changed: &Vec<u32>, this_run: u32) -> (r: u32)
        requires
            old(self).wf(),
        ensures
            final(self).wf(),
            final(self)@ == old(self)@.after_sweep(k, changed@, this_run),
            r == final(self)@.component(k, this_run).dirty_stamp,
    {
        let mut scan = match self.components.get(k) {
            Some(s) => *s,
            None => TypeScan::new(this_run),
        };
        scan.refresh(changed, this_run);
        self.components.insert(k, scan);
        proof {
            assert(self@ =~= old(self)@.after_sweep(k, changed@, this_run));
        }
        scan.dirty_stamp
    }

    /// The stamp of a message type, after the reading that found `unread`.
    pub fn message_stamp(&mut self, k: Key, unread: usize, this_run: u32) -> (r: u32)
        requires
            old(self).wf(),
        ensures
            final(self).wf(),
            final(self)@ == old(self)@.after_messages(k, unread, this_run),
            r == final(self)@.message(k, this_run).dirty_stamp,
    {
        let mut stamp = match self.messages.get(k) {
            Some(s) => *s,
            None => MessageStamp::new(this_run),
        };
        stamp.refresh(unread, this_run);
        self.messages.insert(k, stamp);
        proof {
            assert(self@ =~= old(self)@.after_messages(k, unread, this_run));
        }
        stamp.dirty_stamp
    }

    /// The stamp of one asset, after the reading that found `events`.
    pub fn asset_stamp(&mut self, k: Key, id: Key, events: &Vec<Key>, this_run: u32) -> (r: u32)
        requires
            old(self).wf(),
        ensures
            final(self).wf(),
            final(self)@ == old(self)@.after_events(k, events@, this_run),
            r == final(self)@.asset(k, this_run).stamp_of(id),
    {
        let ghost before = *self;
        let mut stamp = match self.assets.take(k) {
            Some(s) => s,
            None => AssetStamp::new(this_run),
        };
        stamp.refresh(events, this_run);
        let r: u32 = stamp.stamp(id);
        self.assets.insert(k, stamp);
        proof {
            assert(self.assets@ =~= before.assets@.insert(k, stamp));
            assert(self@ =~= before@.after_events(k, events@, this_run));
        }
        r
    }
}

/// A second sweep at one tick changes nothing, whatever it would find: all
/// watchers of a type see the same stamp within a pass.
pub proof fn one_sweep_per_tick(scan: TypeScan, a: Seq<u32>, b: Seq<u32>, this_run: u32)
    ensures
        scan.scanned(a, this_run).scanned(b, this_run) == scan.scanned(a, this_run),
{
}

/// A reading of a message buffer is made once a tick: a burst of any number of
/// messages wakes a watcher once.
pub proof fn one_reading_per_tick(stamp: MessageStamp, a: usize, b: usize, this_run: u32)
    ensures
        stamp.read(a, this_run).read(b, this_run) == stamp.read(a, this_run),
        a > 0 && stamp.scanned_at != Some(this_run) ==> stamp.read(a, this_run)
            == stamp.read(1, this_run),
{
}

/// A sweep that finds nothing written since the last one, and as many
/// components, leaves the stamp as it was; one that finds a written component
/// or another number of them stamps the present tick.
pub proof fn sweeps_stamp_changes_only(scan: TypeScan, changed: Seq<u32>, this_run: u32)
    requires
        scan.scanned_at != Some(this_run),
    ensures
        scan.finds_change(changed, this_run) ==> scan.scanned(changed, this_run).dirty_stamp
            == this_run,
        !scan.finds_change(changed, this_run) ==> scan.scanned(changed, this_run).dirty_stamp
            == crate::tick::clamped(scan.dirty_stamp, this_run),
{
}

/// An event about one asset changes no answer about another, though entries go
/// that are too old to tell anything. (An asset is touched after watching began,
/// so that its entry is never older than that.)
pub proof fn events_touch_their_asset_only(
    stamp: AssetStampView,
    events: Seq<Key>,
    id: Key,
    last_run: u32,
    this_run: u32,
)
    requires
        stamp.scanned_at != Some(this_run),
        stamp.touched.dom().contains(id) ==> crate::tick::age(stamp.touched[id], this_run)
            <= crate::tick::age(stamp.created, this_run),
    ensures
        events.contains(id) ==> stamp.read(events, this_run).stamp_of(id) == this_run,
        !events.contains(id) ==> crate::tick::newer(
            stamp.read(events, this_run).stamp_of(id),
            last_run,
            this_run,
        ) == crate::tick::newer(stamp.stamp_of(id), last_run, this_run),
{
}

} // verus!
