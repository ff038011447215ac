//! The pending-start state machine and the decisions of the event loop.
//!
//! `StateView` is the mathematical state with its transitions; `TaimiState`
//! is the state object that the loop owns, and each of its methods is one
//! of those transitions.

use vstd::prelude::*;
use vstd::hash_map::StringHashMap;
use std::collections::HashMap;
use crate::bhtimer::{evaluate, texts_view, PhaseView, TimerFile, TimerFileView, TimerPhase};
use crate::geometry::GridPoint;
use crate::store::{
    bucket,
    category_index_view,
    category_index_with,
    context_index_view,
    context_index_with,
    extend_indices,
    ids_bound_to,
    lemma_bound_ids,
    lemma_stored_ids,
    lemma_stored_value,
    store_definitions,
    store_view,
    timers_view,
    with_definitions,
};

verus! {

/// What the host reports when the identity of the player changes.
#[derive(Debug)]
pub struct MumbleIdentityUpdate {
    /// The context that the player is in.
    pub map_id: u32,
    /// The identity as the host delivered it.
    pub raw: String,
}

/// The mathematical view of a `MumbleIdentityUpdate`.
pub struct IdentityView {
    pub map_id: u32,
    pub raw: Seq<char>,
}

impl View for MumbleIdentityUpdate {
    type V = IdentityView;

    open spec fn view(&self) -> IdentityView {
        IdentityView { map_id: self.map_id, raw: self.raw@ }
    }
}

impl Clone for MumbleIdentityUpdate {
    fn clone(&self) -> (copy: MumbleIdentityUpdate)
        ensures
            copy@ == self@,
    {
        MumbleIdentityUpdate { map_id: self.map_id, raw: self.raw.clone() }
    }
}

/// The view of an optional identity.
pub open spec fn identity_view(identity: Option<MumbleIdentityUpdate>) -> Option<IdentityView> {
    match identity {
        Some(i) => Some(i@),
        None => None,
    }
}

/// One sample of the position feed.
#[derive(Clone, Copy, Debug, PartialEq, Eq, Structural)]
pub struct LinkSample {
    pub avatar_position: GridPoint,
    pub map_id: u32,
}

/// A command that reaches the loop from outside.
#[derive(Debug)]
pub enum TaimiThreadEvent {
    MumbleIdentityUpdated(MumbleIdentityUpdate),
    Quit,
}

/// The mathematical view of a `TaimiThreadEvent`.
pub enum EventView {
    MumbleIdentityUpdated(IdentityView),
    Quit,
}

impl View for TaimiThreadEvent {
    type V = EventView;

    open spec fn view(&self) -> EventView {
        match self {
            TaimiThreadEvent::MumbleIdentityUpdated(identity) => EventView::MumbleIdentityUpdated(
                identity@,
            ),
            TaimiThreadEvent::Quit => EventView::Quit,
        }
    }
}

impl Clone for TaimiThreadEvent {
    fn clone(&self) -> (copy: TaimiThreadEvent)
        ensures
            copy@ == self@,
    {
        match self {
            TaimiThreadEvent::MumbleIdentityUpdated(identity) => {
                TaimiThreadEvent::MumbleIdentityUpdated(identity.clone())
            },
            TaimiThreadEvent::Quit => TaimiThreadEvent::Quit,
        }
    }
}

/// What one iteration of the loop consumes: the one event source that was
/// ready, with what it delivered.
#[derive(Debug)]
pub enum LoopEvent {
    /// The command channel delivered a command.
    Command(TaimiThreadEvent),
    /// The command channel is closed: no command will ever arrive.
    ChannelClosed,
    /// The fast cadence fired; the feed gave this sample, or nothing.
    MumbleLinkTick(Option<LinkSample>),
    /// The slow cadence fired.
    TaimiTick,
}

/// The mathematical view of a `LoopEvent`.
pub enum LoopEventView {
    Command(EventView),
    ChannelClosed,
    MumbleLinkTick(Option<LinkSample>),
    TaimiTick,
}

impl View for LoopEvent {
    type V = LoopEventView;

    open spec fn view(&self) -> LoopEventView {
        match self {
            LoopEvent::Command(command) => LoopEventView::Command(command@),
            LoopEvent::ChannelClosed => LoopEventView::ChannelClosed,
            LoopEvent::MumbleLinkTick(link) => LoopEventView::MumbleLinkTick(*link),
            LoopEvent::TaimiTick => LoopEventView::TaimiTick,
        }
    }
}

impl Clone for LoopEvent {
    fn clone(&self) -> (copy: LoopEvent)
        ensures
            copy@ == self@,
    {
        match self {
            LoopEvent::Command(command) => LoopEvent::Command(command.clone()),
            LoopEvent::ChannelClosed => LoopEvent::ChannelClosed,
            LoopEvent::MumbleLinkTick(link) => LoopEvent::MumbleLinkTick(*link),
            LoopEvent::TaimiTick => LoopEvent::TaimiTick,
        }
    }
}

/// The views of a list of loop events, in order.
pub open spec fn events_view(events: Seq<LoopEvent>) -> Seq<LoopEventView> {
    events.map_values(|e: LoopEvent| e@)
}

/// The mathematical view of the pending set.
pub open spec fn pending_view(starts: Map<Seq<char>, TimerPhase>) -> Map<Seq<char>, PhaseView> {
    Map::new(|id: Seq<char>| starts.contains_key(id), |id: Seq<char>| starts[id]@)
}

/// The mathematical state of the core.
#[verifier::ext_equal]
pub struct StateView {
    pub addon_dir: Seq<char>,
    pub cached_identity: Option<IdentityView>,
    pub cached_link: Option<LinkSample>,
    /// The primary mapping: each definition under its id.
    pub timers: Map<Seq<char>, TimerFileView>,
    pub map_id_to_timer_ids: Map<u32, Seq<Seq<char>>>,
    pub category_to_timer_ids: Map<Seq<char>, Seq<Seq<char>>>,
    /// The active context, once an identity has arrived.
    pub map_id: Option<u32>,
    pub player_position: Option<GridPoint>,
    /// The ids listed for the active context.
    pub timers_for_map: Seq<Seq<char>>,
    /// The pending set: for each pending id the phase that waits to start.
    pub starts_to_check: Map<Seq<char>, PhaseView>,
}

impl StateView {
    /// The state before anything was loaded.
    pub open spec fn initial(addon_dir: Seq<char>) -> StateView {
        StateView {
            addon_dir,
            cached_identity: None,
            cached_link: None,
            timers: Map::empty(),
            map_id_to_timer_ids: Map::empty(),
            category_to_timer_ids: Map::empty(),
            map_id: None,
            player_position: None,
            timers_for_map: Seq::empty(),
            starts_to_check: Map::empty(),
        }
    }

    /// What the methods of the state object rely on and keep:
    /// every id of the context index is stored, every stored definition can
    /// be started, and every pending entry can be evaluated and is listed
    /// for the active context.
    pub open spec fn wf(self) -> bool {
        &&& forall|map_id: u32, i: int|
            self.map_id_to_timer_ids.contains_key(map_id) && 0 <= i
                < self.map_id_to_timer_ids[map_id].len() ==> self.timers.contains_key(
                #[trigger] self.map_id_to_timer_ids[map_id][i],
            )
        &&& forall|id: Seq<char>| #[trigger]
            self.timers.contains_key(id) ==> self.timers[id].startable()
        &&& forall|id: Seq<char>| #[trigger]
            self.starts_to_check.contains_key(id) ==> self.starts_to_check[id].start.evaluable()
                && self.timers_for_map.contains(id)
    }

    /// The state after `timers` were stored and indexed, in load order.
    pub open spec fn setup_timers(self, timers: Seq<TimerFileView>) -> StateView {
        StateView {
            timers: with_definitions(self.timers, timers),
            map_id_to_timer_ids: context_index_with(self.map_id_to_timer_ids, timers),
            category_to_timer_ids: category_index_with(self.category_to_timer_ids, timers),
            ..self
        }
    }

    /// The pending set of a context that was just entered: one entry for
    /// each id listed for the context, with the first phase of the
    /// definition stored under that id.
    pub open spec fn starts_for(self, map_id: u32) -> Map<Seq<char>, PhaseView> {
        Map::new(
            |id: Seq<char>| bucket(self.map_id_to_timer_ids, map_id).contains(id),
            |id: Seq<char>| self.timers[id].phases[0],
        )
    }

    /// The state after the active context changed to `map_id`: the pending
    /// set is replaced as a whole.
    pub open spec fn enter_map(self, map_id: u32) -> StateView {
        StateView {
            map_id: Some(map_id),
            timers_for_map: bucket(self.map_id_to_timer_ids, map_id),
            starts_to_check: self.starts_for(map_id),
            ..self
        }
    }

    /// The state after an identity update: a new context is entered, the
    /// active one is left as it is; the identity is cached either way.
    pub open spec fn identity_updated(self, identity: IdentityView) -> StateView {
        let moved = if self.map_id == Some(identity.map_id) {
            self
        } else {
            self.enter_map(identity.map_id)
        };
        StateView { cached_identity: Some(identity), ..moved }
    }

    /// The state after a command, and whether the loop goes on.
    pub open spec fn handle_event(self, event: EventView) -> (StateView, bool) {
        match event {
            EventView::MumbleIdentityUpdated(identity) => (self.identity_updated(identity), true),
            EventView::Quit => (self, false),
        }
    }

    /// The pending entry of `id` is satisfied at the cached position.
    pub open spec fn resolves(self, id: Seq<char>) -> bool {
        &&& self.player_position is Some
        &&& self.starts_to_check.contains_key(id)
        &&& self.starts_to_check[id].start.satisfied_by(self.player_position->0)
    }

    /// The state after an evaluation tick: every entry that is satisfied at
    /// the cached position has left the pending set, and no other.
    pub open spec fn tick(self) -> StateView {
        StateView {
            starts_to_check: self.starts_to_check.remove_keys(
                Set::new(|id: Seq<char>| self.resolves(id)),
            ),
            ..self
        }
    }

    /// The state after a sampling tick: the sample is cached, and where
    /// there is one its position replaces the cached position.
    pub open spec fn mumblelink_tick(self, link: Option<LinkSample>) -> StateView {
        StateView {
            cached_link: link,
            player_position: match link {
                Some(sample) => Some(sample.avatar_position),
                None => self.player_position,
            },
            ..self
        }
    }

    /// The state after one iteration of the loop, and whether the loop goes
    /// on.
    pub open spec fn step(self, event: LoopEventView) -> (StateView, bool) {
        match event {
            LoopEventView::Command(command) => self.handle_event(command),
            LoopEventView::ChannelClosed => (self, false),
            LoopEventView::MumbleLinkTick(link) => (self.mumblelink_tick(link), true),
            LoopEventView::TaimiTick => (self.tick(), true),
        }
    }

    /// The state in which the loop ends, or stands once `events` are used
    /// up: one iteration for each event in order, none after the iteration
    /// that ends the loop.
    pub open spec fn run(self, events: Seq<LoopEventView>) -> StateView
        decreases events.len(),
    {
        if events.len() == 0 {
            self
        } else {
            let (next, keep_running) = self.step(events.first());
            if keep_running {
                next.run(events.skip(1))
            } else {
                next
            }
        }
    }

    /// How many of `events` the loop consumes.
    pub open spec fn events_taken(self, events: Seq<LoopEventView>) -> nat
        decreases events.len(),
    {
        if events.len() == 0 {
            0
        } else {
            let (next, keep_running) = self.step(events.first());
            if keep_running {
                1 + next.events_taken(events.skip(1))
            } else {
                1
            }
        }
    }

    /// For each stored definition that is bound to `map_id`, under its id,
    /// its first phase.
    pub open spec fn first_phases_bound_to(self, map_id: u32) -> Map<Seq<char>, PhaseView> {
        Map::new(
            |id: Seq<char>| self.timers.contains_key(id) && self.timers[id].map_id == map_id,
            |id: Seq<char>| self.timers[id].phases[0],
        )
    }

    /// The bucket of `map_id` lists exactly the ids under which a definition
    /// bound to `map_id` is stored.
    pub open spec fn projects(self, map_id: u32) -> bool {
        forall|id: Seq<char>| #[trigger]
            bucket(self.map_id_to_timer_ids, map_id).contains(id) <==> self.timers.contains_key(
                id,
            ) && self.timers[id].map_id == map_id
    }

    /// The context index is a projection of the primary mapping.
    pub open spec fn consistent(self) -> bool {
        forall|map_id: u32| #[trigger] self.projects(map_id)
    }
}

/// The state object of the core. The loop owns it and nothing else writes
/// to it.
pub struct TaimiState {
    pub addon_dir: String,
    pub cached_identity: Option<MumbleIdentityUpdate>,
    pub cached_link: Option<LinkSample>,
    pub timers: StringHashMap<TimerFile>,
    pub map_id_to_timer_ids: HashMap<u32, Vec<String>>,
    pub category_to_timer_ids: StringHashMap<Vec<String>>,
    pub map_id: Option<u32>,
    pub player_position: Option<GridPoint>,
    pub timers_for_map: Vec<String>,
    pub starts_to_check: StringHashMap<TimerPhase>,
}

impl View for TaimiState {
    type V = StateView;

    open spec fn view(&self) -> StateView {
        StateView {
            addon_dir: self.addon_dir@,
            cached_identity: identity_view(self.cached_identity),
            cached_link: self.cached_link,
            timers: store_view(self.timers@),
            map_id_to_timer_ids: context_index_view(self.map_id_to_timer_ids@),
            category_to_timer_ids: category_index_view(self.category_to_timer_ids@),
            map_id: self.map_id,
            player_position: self.player_position,
            timers_for_map: texts_view(self.timers_for_map@),
            starts_to_check: pending_view(self.starts_to_check@),
        }
    }
}

impl TaimiState {
    /// A state with nothing loaded and no context entered.
    pub fn new(addon_dir: String) -> (state: TaimiState)
        ensures
            state@ == StateView::initial(addon_dir@),
            state@.wf(),
    {
        broadcast use vstd::std_specs::hash::group_hash_axioms;

        let state = TaimiState {
            addon_dir,
            cached_identity: None,
            cached_link: None,
            timers: StringHashMap::new(),
            map_id_to_timer_ids: HashMap::new(),
            category_to_timer_ids: StringHashMap::new(),
            map_id: None,
            player_position: None,
            timers_for_map: Vec::new(),
            starts_to_check: StringHashMap::new(),
        };
        assert(state@ =~= StateView::initial(addon_dir@));
        state
    }

    /// Whether the timer of this id waits for its start trigger.
    pub fn is_pending(&self, timer_id: &str) -> (pending: bool)
        ensures
            pending == self@.starts_to_check.contains_key(timer_id@),
    {
        self.starts_to_check.contains_key(timer_id)
    }

    /// How many timers wait for their start trigger.
    pub fn pending_count(&self) -> (count: usize)
        ensures
            count == self@.starts_to_check.len(),
    {
        broadcast use vstd::hash_map::group_hash_map_axioms;

        assert(self@.starts_to_check.dom() =~= self.starts_to_check@.dom());
        self.starts_to_check.len()
    }

    /// The startup step: a fresh state with `timers` stored and indexed.
    pub fn load(addon_dir: String, timers: Vec<TimerFile>) -> (state: TaimiState)
        requires
            forall|i: int| 0 <= i < timers.len() ==> (#[trigger] timers[i])@.startable(),
        ensures
            state@ == StateView::initial(addon_dir@).setup_timers(timers_view(timers@)),
            state@.wf(),
    {
        let mut state: TaimiState = TaimiState::new(addon_dir);
        state.setup_timers(timers);
        state
    }

    /// Stores the definitions under their ids and lists each id under its
    /// context and its category, in load order.
    pub fn setup_timers(&mut self, timers: Vec<TimerFile>)
        requires
            old(self)@.wf(),
            forall|i: int| 0 <= i < timers.len() ==> (#[trigger] timers[i])@.startable(),
        ensures
            final(self)@ == old(self)@.setup_timers(timers_view(timers@)),
            final(self)@.wf(),
    {
        extend_indices(&mut self.map_id_to_timer_ids, &mut self.category_to_timer_ids, &timers);
        store_definitions(&mut self.timers, &timers);
        proof {
            assert forall|i: int| 0 <= i < timers_view(timers@).len() implies (
            #[trigger] timers_view(timers@)[i]).startable() by {
                assert(timers_view(timers@)[i] == timers[i]@);
            }
            lemma_setup_keeps_wf(old(self)@, timers_view(timers@));
        }
    }

    /// Handles one command. Returns whether the loop goes on.
    ///
    /// An identity update that names a new context replaces the pending set
    /// by one entry for each id listed for that context; one that names the
    /// active context leaves the pending set as it is. `Quit` changes
    /// nothing and ends the loop.
    pub fn handle_event(&mut self, event: TaimiThreadEvent) -> (keep_running: bool)
        requires
            old(self)@.wf(),
        ensures
            final(self)@ == old(self)@.handle_event(event@).0,
            keep_running == old(self)@.handle_event(event@).1,
            final(self)@.wf(),
    {
        match event {
            TaimiThreadEvent::MumbleIdentityUpdated(identity) => {
                let same_map: bool = match self.map_id {
                    Some(map_id) => map_id == identity.map_id,
                    None => false,
                };
                if !same_map {
                    self.enter_map(identity.map_id);
                }
                self.cached_identity = Some(identity);
                true
            },
            TaimiThreadEvent::Quit => false,
        }
    }

    /// Replaces the pending set by that of the context `map_id`.
    fn enter_map(&mut self, map_id: u32)
        requires
            old(self)@.wf(),
        ensures
            final(self)@ == old(self)@.enter_map(map_id),
            final(self)@.wf(),
    {
        broadcast use vstd::std_specs::hash::group_hash_axioms;

        let ghost before = self@;
        let ghost listed = bucket(before.map_id_to_timer_ids, map_id);
        let mut starts_to_check: StringHashMap<TimerPhase> = StringHashMap::new();
        let mut timers_for_map: Vec<String> = Vec::new();
        match self.map_id_to_timer_ids.get(&map_id) {
            Some(timer_ids) => {
                assert(texts_view(timer_ids@) == listed);
                let mut i: usize = 0;
                while i < timer_ids.len()
                    invariant
                        i <= timer_ids.len(),
                        self@ == before,
                        before.wf(),
                        before.map_id_to_timer_ids.contains_key(map_id),
                        listed == before.map_id_to_timer_ids[map_id],
                        texts_view(timer_ids@) == listed,
                        texts_view(timers_for_map@) == listed.take(i as int),
                        pending_view(starts_to_check@) == Map::new(
                            |id: Seq<char>| listed.take(i as int).contains(id),
                            |id: Seq<char>| before.timers[id].phases[0],
                        ),
                    decreases timer_ids.len() - i,
                {
                    let timer_id: &String = &timer_ids[i];
                    let ghost id = timer_id@;
                    let ghost starts_before = starts_to_check@;
                    let ghost ids_before = timers_for_map@;
                    assert(listed[i as int] == id);
                    assert(before.timers.contains_key(id));
                    match self.timers.get(timer_id.as_str()) {
                        Some(timer) => {
                            assert(timer@ == before.timers[id]);
                            assert(timer@.startable());
                            let start_phase: TimerPhase = timer.phases[0].clone();
                            assert(start_phase@ == before.timers[id].phases[0]);
                            starts_to_check.insert(timer_id.clone(), start_phase);
                            assert(pending_view(starts_to_check@) =~= pending_view(
                                starts_before,
                            ).insert(id, before.timers[id].phases[0]));
                        },
                        // A listed id is always stored.
                        None => {},
                    }
                    timers_for_map.push(timer_id.clone());
                    proof {
                        lemma_take_next_contains(listed, i as int);
                        assert(listed.take(i + 1) =~= listed.take(i as int).push(id));
                        assert(texts_view(timers_for_map@) =~= texts_view(ids_before).push(id));
                        assert(pending_view(starts_to_check@) =~= Map::new(
                            |id: Seq<char>| listed.take(i + 1).contains(id),
                            |id: Seq<char>| before.timers[id].phases[0],
                        ));
                    }
                    i = i + 1;
                }
                proof {
                    assert(listed.take(timer_ids.len() as int) =~= listed);
                }
            },
            None => {
                assert(listed =~= Seq::empty());
                assert(texts_view(timers_for_map@) =~= listed);
            },
        }
        assert(pending_view(starts_to_check@) =~= before.starts_for(map_id));
        self.map_id = Some(map_id);
        self.starts_to_check = starts_to_check;
        self.timers_for_map = timers_for_map;
        proof {
            assert(self@ =~= before.enter_map(map_id));
            lemma_enter_map_keeps_wf(before, map_id);
        }
    }

    /// The ids of the pending entries that are satisfied at `player`.
    fn started_ids(&self, player: GridPoint) -> (started: Vec<String>)
        requires
            self@.wf(),
            self.player_position == Some(player),
        ensures
            forall|id: Seq<char>| texts_view(started@).contains(id) <==> self@.resolves(id),
    {
        let mut started: Vec<String> = Vec::new();
        let ghost listed = texts_view(self.timers_for_map@);
        let mut i: usize = 0;
        while i < self.timers_for_map.len()
            invariant
                i <= self.timers_for_map.len(),
                self@.wf(),
                self.player_position == Some(player),
                listed == texts_view(self.timers_for_map@),
                forall|id: Seq<char>|
                    texts_view(started@).contains(id) <==> self@.resolves(id) && listed.take(
                        i as int,
                    ).contains(id),
            decreases self.timers_for_map.len() - i,
        {
            let timer_id: &String = &self.timers_for_map[i];
            let ghost started_before = texts_view(started@);
            let mut satisfied: bool = false;
            match self.starts_to_check.get(timer_id.as_str()) {
                Some(start_phase) => {
                    assert(self@.starts_to_check.contains_key(timer_id@));
                    assert(start_phase@ == self@.starts_to_check[timer_id@]);
                    satisfied = evaluate(&start_phase.start, player);
                },
                None => {},
            }
            assert(satisfied == self@.resolves(timer_id@));
            if satisfied {
                started.push(timer_id.clone());
                assert(texts_view(started@) =~= started_before.push(timer_id@));
            }
            proof {
                let started_now = texts_view(started@);
                let seen = listed.take(i as int);
                let seen_now = listed.take(i + 1);
                assert(listed[i as int] == timer_id@);
                lemma_push_contains(started_before, timer_id@);
                lemma_take_next_contains(listed, i as int);
                assert forall|id: Seq<char>|
                    started_now.contains(id) <==> self@.resolves(id) && seen_now.contains(
                        id,
                    ) by {
                    assert(started_before.contains(id) <==> self@.resolves(id) && seen.contains(
                        id,
                    ));
                    assert(seen_now.contains(id) <==> seen.contains(id) || id == timer_id@);
                    if satisfied {
                        assert(started_now.contains(id) <==> started_before.contains(id) || id
                            == timer_id@);
                    }
                }
            }
            i = i + 1;
        }
        proof {
            assert(listed.take(self.timers_for_map.len() as int) =~= listed);
        }
        started
    }

    /// Runs one evaluation tick: every pending entry is evaluated against
    /// the cached position, and those that are satisfied leave the pending
    /// set once all were evaluated.
    pub fn tick(&mut self)
        requires
            old(self)@.wf(),
        ensures
            final(self)@ == old(self)@.tick(),
            final(self)@.wf(),
    {
        let ghost before = self@;
        match self.player_position {
            Some(player) => {
                let started: Vec<String> = self.started_ids(player);
                remove_started(&mut self.starts_to_check, &started);
                proof {
                    assert(Set::new(|id: Seq<char>| texts_view(started@).contains(id))
                        =~= Set::new(|id: Seq<char>| before.resolves(id)));
                }
            },
            None => {
                assert(Set::new(|id: Seq<char>| before.resolves(id)) =~= Set::<
                    Seq<char>,
                >::empty());
            },
        }
        assert(self@.starts_to_check =~= before.tick().starts_to_check);
        assert(self@ =~= before.tick());
    }

    /// Caches the sample of a sampling tick. The last position that was
    /// sampled stays cached while the feed gives nothing.
    pub fn mumblelink_tick(&mut self, link: Option<LinkSample>)
        ensures
            final(self)@ == old(self)@.mumblelink_tick(link),
    {
        self.cached_link = link;
        if let Some(sample) = link {
            self.player_position = Some(sample.avatar_position);
        }
    }

    /// Runs one iteration of the loop on the event that it consumed.
    /// Returns whether the loop goes on: it ends on `Quit` and when the
    /// command channel is closed.
    pub fn step(&mut self, event: LoopEvent) -> (keep_running: bool)
        requires
            old(self)@.wf(),
        ensures
            final(self)@ == old(self)@.step(event@).0,
            keep_running == old(self)@.step(event@).1,
            final(self)@.wf(),
    {
        match event {
            LoopEvent::Command(command) => self.handle_event(command),
            LoopEvent::ChannelClosed => false,
            LoopEvent::MumbleLinkTick(link) => {
                self.mumblelink_tick(link);
                true
            },
            LoopEvent::TaimiTick => {
                self.tick();
                true
            },
        }
    }

    /// Runs the loop on a recorded sequence of events: one iteration for
    /// each event in order, until an iteration ends the loop or the events
    /// are used up. Returns how many events were consumed.
    pub fn run(&mut self, events: &Vec<LoopEvent>) -> (taken: usize)
        requires
            old(self)@.wf(),
        ensures
            final(self)@ == old(self)@.run(events_view(events@)),
            taken == old(self)@.events_taken(events_view(events@)),
            final(self)@.wf(),
    {
        let ghost before = self@;
        let ghost all = events_view(events@);
        let mut i: usize = 0;
        proof {
            assert(all.skip(0) =~= all);
        }
        while i < events.len()
            invariant
                i <= events.len(),
                all == events_view(events@),
                before == old(self)@,
                self@.wf(),
                before.run(all) == self@.run(all.skip(i as int)),
                before.events_taken(all) == i + self@.events_taken(all.skip(i as int)),
            decreases events.len() - i,
        {
            let event: LoopEvent = events[i].clone();
            let ghost reached = self@;
            proof {
                let rest = all.skip(i as int);
                assert(rest.len() > 0);
                assert(rest.first() == event@);
                assert(rest.skip(1) =~= all.skip(i + 1));
                assert(reached.run(rest) == if reached.step(event@).1 {
                    reached.step(event@).0.run(all.skip(i + 1))
                } else {
                    reached.step(event@).0
                });
                assert(reached.events_taken(rest) == if reached.step(event@).1 {
                    1 + reached.step(event@).0.events_taken(all.skip(i + 1))
                } else {
                    1
                });
            }
            let keep_running: bool = self.step(event);
            i = i + 1;
            if !keep_running {
                return i;
            }
        }
        i
    }
}

/// Removes the entries of the given ids from the pending set.
fn remove_started(starts_to_check: &mut StringHashMap<TimerPhase>, started: &Vec<String>)
    ensures
        pending_view(final(starts_to_check)@) == pending_view(old(starts_to_check)@).remove_keys(
            Set::new(|id: Seq<char>| texts_view(started@).contains(id)),
        ),
{
    let ghost before = pending_view(starts_to_check@);
    let ghost ids = texts_view(started@);
    let mut i: usize = 0;
    proof {
        assert(pending_view(starts_to_check@) =~= before.remove_keys(
            Set::new(|id: Seq<char>| ids.take(0).contains(id)),
        ));
    }
    while i < started.len()
        invariant
            i <= started.len(),
            ids == texts_view(started@),
            pending_view(starts_to_check@) == before.remove_keys(
                Set::new(|id: Seq<char>| ids.take(i as int).contains(id)),
            ),
        decreases started.len() - i,
    {
        let started_id: &String = &started[i];
        let ghost left_before = pending_view(starts_to_check@);
        starts_to_check.remove(started_id.as_str());
        proof {
            let gone_before = Set::new(|id: Seq<char>| ids.take(i as int).contains(id));
            let gone = Set::new(|id: Seq<char>| ids.take(i + 1).contains(id));
            assert(ids[i as int] == started_id@);
            lemma_take_next_contains(ids, i as int);
            assert(gone =~= gone_before.insert(ids[i as int]));
            assert(pending_view(starts_to_check@) =~= left_before.remove(ids[i as int]));
            assert(left_before.remove(ids[i as int]) =~= before.remove_keys(gone));
        }
        i = i + 1;
    }
    proof {
        assert(ids.take(started.len() as int) =~= ids);
    }
}

/// The first `i + 1` ids hold what the first `i` hold, and the next one.
proof fn lemma_take_next_contains(ids: Seq<Seq<char>>, i: int)
    requires
        0 <= i < ids.len(),
    ensures
        forall|id: Seq<char>| #[trigger]
            ids.take(i + 1).contains(id) <==> ids.take(i).contains(id) || id == ids[i],
{
    let shorter = ids.take(i);
    let longer = ids.take(i + 1);
    assert forall|id: Seq<char>| #[trigger]
        longer.contains(id) <==> shorter.contains(id) || id == ids[i] by {
        if longer.contains(id) {
            let k = choose|k: int| 0 <= k < longer.len() && longer[k] == id;
            if k < i {
                assert(shorter[k] == id);
            }
        }
        if shorter.contains(id) {
            let k = choose|k: int| 0 <= k < shorter.len() && shorter[k] == id;
            assert(longer[k] == id);
        }
        if id == ids[i] {
            assert(longer[i] == id);
        }
    }
}

/// A list with one more id holds what it held, and that id.
proof fn lemma_push_contains(ids: Seq<Seq<char>>, last: Seq<char>)
    ensures
        forall|id: Seq<char>| #[trigger]
            ids.push(last).contains(id) <==> ids.contains(id) || id == last,
{
    let longer = ids.push(last);
    assert forall|id: Seq<char>| #[trigger]
        longer.contains(id) <==> ids.contains(id) || id == last by {
        if longer.contains(id) {
            let k = choose|k: int| 0 <= k < longer.len() && longer[k] == id;
            if k < ids.len() {
                assert(ids[k] == id);
            }
        }
        if ids.contains(id) {
            let k = choose|k: int| 0 <= k < ids.len() && ids[k] == id;
            assert(longer[k] == id);
        }
        if id == last {
            assert(longer[ids.len() as int] == id);
        }
    }
}

/// Storing and indexing definitions that can be started keeps the state
/// well formed.
pub proof fn lemma_setup_keeps_wf(s: StateView, timers: Seq<TimerFileView>)
    requires
        s.wf(),
        forall|i: int| 0 <= i < timers.len() ==> (#[trigger] timers[i]).startable(),
    ensures
        s.setup_timers(timers).wf(),
{
    let t = s.setup_timers(timers);
    assert forall|map_id: u32, i: int|
        t.map_id_to_timer_ids.contains_key(map_id) && 0 <= i
            < t.map_id_to_timer_ids[map_id].len() implies t.timers.contains_key(
        #[trigger] t.map_id_to_timer_ids[map_id][i],
    ) by {
        let id = t.map_id_to_timer_ids[map_id][i];
        let old_ids = bucket(s.map_id_to_timer_ids, map_id);
        let new_ids = ids_bound_to(timers, map_id);
        lemma_stored_ids(s.timers, timers, id);
        if i < old_ids.len() {
            assert(s.map_id_to_timer_ids[map_id][i] == id);
        } else {
            assert(new_ids[i - old_ids.len()] == id);
            lemma_bound_ids(timers, map_id, id);
        }
    }
    assert forall|id: Seq<char>| #[trigger] t.timers.contains_key(id) implies t.timers[id].startable() by {
        lemma_stored_value(s.timers, timers, id);
    }
}

/// Entering a context keeps the state well formed.
pub proof fn lemma_enter_map_keeps_wf(s: StateView, map_id: u32)
    requires
        s.wf(),
    ensures
        s.enter_map(map_id).wf(),
{
    let t = s.enter_map(map_id);
    assert forall|id: Seq<char>| #[trigger] t.starts_to_check.contains_key(id) implies
        t.starts_to_check[id].start.evaluable() && t.timers_for_map.contains(id) by {
        let listed = bucket(s.map_id_to_timer_ids, map_id);
        let i = choose|i: int| 0 <= i < listed.len() && listed[i] == id;
        assert(s.map_id_to_timer_ids[map_id][i] == id);
        assert(s.timers.contains_key(id));
    }
}

/// A state that was loaded from definitions has a context index that is a
/// projection of its primary mapping, unless two definitions share an id
/// and differ in their context.
pub proof fn lemma_loaded_state_consistent(addon_dir: Seq<char>, timers: Seq<TimerFileView>)
    requires
        forall|i: int, j: int|
            0 <= i < timers.len() && 0 <= j < timers.len() && (#[trigger] timers[i]).id == (
            #[trigger] timers[j]).id ==> timers[i].map_id == timers[j].map_id,
    ensures
        StateView::initial(addon_dir).setup_timers(timers).consistent(),
{
    let s = StateView::initial(addon_dir).setup_timers(timers);
    let empty = Map::<Seq<char>, TimerFileView>::empty();
    assert forall|map_id: u32| #[trigger] s.projects(map_id) by {
        assert forall|id: Seq<char>| #[trigger]
            bucket(s.map_id_to_timer_ids, map_id).contains(id) <==> s.timers.contains_key(id)
                && s.timers[id].map_id == map_id by {
            assert(bucket(s.map_id_to_timer_ids, map_id) =~= ids_bound_to(timers, map_id));
            lemma_bound_ids(timers, map_id, id);
            lemma_stored_ids(empty, timers, id);
            if s.timers.contains_key(id) {
                lemma_stored_value(empty, timers, id);
                let k = choose|k: int|
                    0 <= k < timers.len() && s.timers[id] == #[trigger] timers[k] && timers[k].id
                        == id;
                if bucket(s.map_id_to_timer_ids, map_id).contains(id) {
                    let j = choose|j: int|
                        0 <= j < timers.len() && (#[trigger] timers[j]).id == id
                            && timers[j].map_id == map_id;
                    assert(timers[j].map_id == timers[k].map_id);
                }
            }
        }
    }
}

/// No iteration of the loop changes the primary mapping or an index.
pub proof fn lemma_step_keeps_definitions(s: StateView, event: LoopEventView)
    ensures
        s.step(event).0.timers == s.timers,
        s.step(event).0.map_id_to_timer_ids == s.map_id_to_timer_ids,
        s.step(event).0.category_to_timer_ids == s.category_to_timer_ids,
        s.consistent() ==> s.step(event).0.consistent(),
{
    let t = s.step(event).0;
    if s.consistent() {
        assert forall|map_id: u32| #[trigger] t.projects(map_id) by {
            assert(s.projects(map_id));
        }
    }
}

/// After an identity update that names a new context, the pending set holds
/// exactly the first phases of the definitions bound to that context, each
/// under the id of its definition, provided that the bucket of the context
/// lists those definitions and no others.
pub proof fn lemma_new_context_pending(s: StateView, identity: IdentityView)
    requires
        s.projects(identity.map_id),
        s.map_id != Some(identity.map_id),
    ensures
        s.identity_updated(identity).starts_to_check == s.first_phases_bound_to(identity.map_id),
{
    assert(s.identity_updated(identity).starts_to_check =~= s.first_phases_bound_to(
        identity.map_id,
    )) by {
        assert forall|id: Seq<char>|
            s.starts_for(identity.map_id).contains_key(id) <==> s.first_phases_bound_to(
                identity.map_id,
            ).contains_key(id) by {
            assert(bucket(s.map_id_to_timer_ids, identity.map_id).contains(id)
                <==> s.timers.contains_key(id) && s.timers[id].map_id == identity.map_id);
        }
    }
}

/// An identity update that names the active context leaves the pending set
/// as it is.
pub proof fn lemma_same_context_keeps_pending(s: StateView, identity: IdentityView)
    requires
        s.map_id == Some(identity.map_id),
    ensures
        s.identity_updated(identity).starts_to_check == s.starts_to_check,
        s.identity_updated(identity).timers_for_map == s.timers_for_map,
        s.identity_updated(identity).map_id == s.map_id,
{
}

/// Of two identity updates in a row that name the same context, the second
/// leaves the pending set as the first left it.
pub proof fn lemma_repeated_identity_keeps_pending(
    s: StateView,
    first: IdentityView,
    second: IdentityView,
)
    requires
        first.map_id == second.map_id,
    ensures
        s.identity_updated(first).identity_updated(second).starts_to_check == s.identity_updated(
            first,
        ).starts_to_check,
{
    lemma_same_context_keeps_pending(s.identity_updated(first), second);
}

/// The loop consumes no event after a `Quit`: where the event at `k` is a
/// `Quit` command, the loop ends as it would if the events ended there.
pub proof fn lemma_quit_ends_run(s: StateView, events: Seq<LoopEventView>, k: int)
    requires
        0 <= k < events.len(),
        events[k] == LoopEventView::Command(EventView::Quit),
    ensures
        s.run(events) == s.run(events.take(k + 1)),
        s.events_taken(events) == s.events_taken(events.take(k + 1)),
        s.events_taken(events) <= k + 1,
    decreases k,
{
    let shorter = events.take(k + 1);
    assert(shorter.first() == events.first());
    let (next, keep_running) = s.step(events.first());
    if keep_running {
        assert(k > 0);
        assert(events.skip(1)[k - 1] == events[k]);
        lemma_quit_ends_run(next, events.skip(1), k - 1);
        assert(events.skip(1).take(k) =~= shorter.skip(1));
    }
}

} // verus!
