use taimi::bhtimer::{TimerFile, TimerPhase, TimerTrigger, TimerTriggerType};
use taimi::geometry::GridPoint;
use taimi::taimistate::{
    LinkSample, LoopEvent, MumbleIdentityUpdate, TaimiState, TaimiThreadEvent,
};

fn timer_at(id: &str, map_id: u32, centre: GridPoint, radius: i32) -> TimerFile {
    let mut start = TimerTrigger::new(TimerTriggerType::Location);
    start.position = Some(centre);
    start.radius = Some(radius);
    TimerFile {
        id: String::from(id),
        name: String::from(id),
        category: String::from("raids"),
        description: String::new(),
        author: String::new(),
        icon: String::new(),
        map_id,
        reset: TimerTrigger::new(TimerTriggerType::Key),
        phases: vec![TimerPhase {
            name: format!("phase of {}", id),
            start,
            alerts: Vec::new(),
            actions: Vec::new(),
        }],
    }
}

fn loaded_state() -> TaimiState {
    TaimiState::load(
        String::from("addons/taimi"),
        vec![
            timer_at("near", 10, GridPoint::new(0, 0, 0), 5),
            timer_at("far", 10, GridPoint::new(100, 0, 0), 5),
            timer_at("elsewhere", 20, GridPoint::new(0, 0, 0), 5),
        ],
    )
}

fn identity(map_id: u32) -> TaimiThreadEvent {
    TaimiThreadEvent::MumbleIdentityUpdated(MumbleIdentityUpdate {
        map_id,
        raw: format!("{{\"map_id\":{}}}", map_id),
    })
}

fn sample(x: i32, y: i32, z: i32, map_id: u32) -> Option<LinkSample> {
    Some(LinkSample { avatar_position: GridPoint::new(x, y, z), map_id })
}

#[test]
fn fresh_state_is_empty() {
    let state = TaimiState::new(String::from("dir"));
    assert_eq!(state.addon_dir, "dir");
    assert!(state.cached_identity.is_none());
    assert!(state.cached_link.is_none());
    assert_eq!(state.timers.len(), 0);
    assert!(state.map_id_to_timer_ids.is_empty());
    assert_eq!(state.category_to_timer_ids.len(), 0);
    assert!(state.map_id.is_none());
    assert!(state.player_position.is_none());
    assert!(state.timers_for_map.is_empty());
    assert_eq!(state.pending_count(), 0);
}

#[test]
fn load_stores_and_indexes() {
    let state = loaded_state();
    assert_eq!(state.timers.len(), 3);
    assert_eq!(state.map_id_to_timer_ids.get(&10).unwrap(), &vec!["near", "far"]);
    assert_eq!(state.map_id_to_timer_ids.get(&20).unwrap(), &vec!["elsewhere"]);
    assert_eq!(
        state.category_to_timer_ids.get("raids").unwrap(),
        &vec!["near", "far", "elsewhere"]
    );
    assert_eq!(state.pending_count(), 0);
    assert!(state.map_id.is_none());
}

#[test]
fn new_context_fills_the_pending_set() {
    let mut state = loaded_state();
    assert!(state.handle_event(identity(10)));
    assert_eq!(state.map_id, Some(10));
    assert_eq!(state.pending_count(), 2);
    assert!(state.is_pending("near"));
    assert!(state.is_pending("far"));
    assert!(!state.is_pending("elsewhere"));
    assert_eq!(state.starts_to_check.get("near").unwrap().name, "phase of near");
    assert_eq!(state.starts_to_check.get("far").unwrap().name, "phase of far");
    assert_eq!(state.timers_for_map, vec!["near", "far"]);
    assert_eq!(state.cached_identity.as_ref().unwrap().map_id, 10);
    assert_eq!(state.cached_identity.as_ref().unwrap().raw, "{\"map_id\":10}");
}

#[test]
fn changing_context_replaces_the_pending_set() {
    let mut state = loaded_state();
    state.handle_event(identity(10));
    state.handle_event(identity(20));
    assert_eq!(state.map_id, Some(20));
    assert_eq!(state.pending_count(), 1);
    assert!(state.is_pending("elsewhere"));
    assert!(!state.is_pending("near"));
    assert_eq!(state.timers_for_map, vec!["elsewhere"]);
}

#[test]
fn context_without_timers_empties_the_pending_set() {
    let mut state = loaded_state();
    state.handle_event(identity(10));
    assert!(state.handle_event(identity(999)));
    assert_eq!(state.map_id, Some(999));
    assert_eq!(state.pending_count(), 0);
    assert!(state.timers_for_map.is_empty());
}

#[test]
fn same_context_twice_keeps_the_pending_set() {
    let mut state = loaded_state();
    state.handle_event(identity(10));
    state.mumblelink_tick(sample(1, 1, 1, 10));
    state.tick();
    assert_eq!(state.pending_count(), 1);
    assert!(state.is_pending("far"));
    // the same context again: no reset, the progress stays
    assert!(state.handle_event(identity(10)));
    assert!(state.handle_event(identity(10)));
    assert_eq!(state.pending_count(), 1);
    assert!(state.is_pending("far"));
    assert!(!state.is_pending("near"));
    assert_eq!(state.timers_for_map, vec!["near", "far"]);
}

#[test]
fn leaving_and_returning_admits_a_timer_again() {
    let mut state = loaded_state();
    state.handle_event(identity(10));
    state.mumblelink_tick(sample(0, 0, 0, 10));
    state.tick();
    assert!(!state.is_pending("near"));
    state.handle_event(identity(20));
    state.handle_event(identity(10));
    assert!(state.is_pending("near"));
    assert!(state.is_pending("far"));
}

#[test]
fn tick_resolves_what_is_satisfied_and_nothing_else() {
    let mut state = loaded_state();
    state.handle_event(identity(10));
    state.mumblelink_tick(sample(3, 0, 0, 10));
    state.tick();
    assert!(!state.is_pending("near"));
    assert!(state.is_pending("far"));
    // resolved entries do not come back on a later tick
    state.mumblelink_tick(sample(50, 0, 0, 10));
    state.tick();
    assert!(!state.is_pending("near"));
    assert!(state.is_pending("far"));
    state.mumblelink_tick(sample(98, 0, 0, 10));
    state.tick();
    assert_eq!(state.pending_count(), 0);
}

#[test]
fn tick_resolves_all_satisfied_entries_at_once() {
    let mut state = TaimiState::load(
        String::from("dir"),
        vec![
            timer_at("a", 1, GridPoint::new(0, 0, 0), 10),
            timer_at("b", 1, GridPoint::new(2, 0, 0), 10),
            timer_at("c", 1, GridPoint::new(500, 0, 0), 10),
        ],
    );
    state.handle_event(identity(1));
    state.mumblelink_tick(sample(1, 0, 0, 1));
    state.tick();
    assert_eq!(state.pending_count(), 1);
    assert!(state.is_pending("c"));
}

#[test]
fn tick_without_a_position_changes_nothing() {
    let mut state = loaded_state();
    state.handle_event(identity(10));
    state.tick();
    assert_eq!(state.pending_count(), 2);
}

#[test]
fn key_triggers_stay_pending() {
    let mut timer = timer_at("keyed", 5, GridPoint::new(0, 0, 0), 5);
    timer.phases[0].start.kind = TimerTriggerType::Key;
    let mut state = TaimiState::load(String::from("dir"), vec![timer]);
    state.handle_event(identity(5));
    state.mumblelink_tick(sample(0, 0, 0, 5));
    state.tick();
    assert!(state.is_pending("keyed"));
}

#[test]
fn sampling_overwrites_the_cached_position() {
    let mut state = loaded_state();
    state.mumblelink_tick(sample(1, 2, 3, 10));
    assert_eq!(state.player_position, Some(GridPoint::new(1, 2, 3)));
    assert_eq!(state.cached_link, sample(1, 2, 3, 10));
    state.mumblelink_tick(sample(4, 5, 6, 10));
    assert_eq!(state.player_position, Some(GridPoint::new(4, 5, 6)));
    // the feed gives nothing: the last position stays
    state.mumblelink_tick(None);
    assert_eq!(state.player_position, Some(GridPoint::new(4, 5, 6)));
    assert!(state.cached_link.is_none());
}

#[test]
fn sampling_does_not_change_the_context() {
    let mut state = loaded_state();
    state.handle_event(identity(10));
    state.mumblelink_tick(sample(0, 0, 0, 20));
    assert_eq!(state.map_id, Some(10));
    assert_eq!(state.pending_count(), 2);
}

#[test]
fn quit_ends_the_loop_and_changes_nothing() {
    let mut state = loaded_state();
    state.handle_event(identity(10));
    assert!(!state.handle_event(TaimiThreadEvent::Quit));
    assert_eq!(state.map_id, Some(10));
    assert_eq!(state.pending_count(), 2);
    assert!(!state.step(LoopEvent::Command(TaimiThreadEvent::Quit)));
}

#[test]
fn closed_channel_ends_the_loop() {
    let mut state = loaded_state();
    assert!(!state.step(LoopEvent::ChannelClosed));
    assert!(state.step(LoopEvent::TaimiTick));
    assert!(state.step(LoopEvent::MumbleLinkTick(None)));
    assert!(state.step(LoopEvent::Command(identity(10))));
}

#[test]
fn no_event_is_consumed_after_quit() {
    let mut state = loaded_state();
    let events = vec![
        LoopEvent::Command(identity(10)),
        LoopEvent::MumbleLinkTick(sample(200, 0, 0, 10)),
        LoopEvent::TaimiTick,
        LoopEvent::Command(TaimiThreadEvent::Quit),
        LoopEvent::MumbleLinkTick(sample(0, 0, 0, 10)),
        LoopEvent::TaimiTick,
        LoopEvent::Command(identity(20)),
    ];
    let taken: usize = state.run(&events);
    assert_eq!(taken, 4);
    // what came after the quit had no effect
    assert_eq!(state.player_position, Some(GridPoint::new(200, 0, 0)));
    assert_eq!(state.map_id, Some(10));
    assert_eq!(state.pending_count(), 2);
    assert!(state.is_pending("near"));
}

#[test]
fn run_uses_up_the_events_where_nothing_ends_the_loop() {
    let mut state = loaded_state();
    let events = vec![
        LoopEvent::Command(identity(10)),
        LoopEvent::MumbleLinkTick(sample(0, 0, 0, 10)),
        LoopEvent::TaimiTick,
    ];
    assert_eq!(state.run(&events), 3);
    assert!(!state.is_pending("near"));
    assert!(state.is_pending("far"));
    assert_eq!(state.run(&Vec::new()), 0);
}

#[test]
fn run_ends_on_a_closed_channel() {
    let mut state = loaded_state();
    let events = vec![LoopEvent::ChannelClosed, LoopEvent::Command(identity(10))];
    assert_eq!(state.run(&events), 1);
    assert!(state.map_id.is_none());
}

#[test]
fn setup_appends_to_what_is_loaded() {
    let mut state = loaded_state();
    state.setup_timers(vec![timer_at("late", 10, GridPoint::new(0, 0, 0), 1)]);
    assert_eq!(state.timers.len(), 4);
    assert_eq!(state.map_id_to_timer_ids.get(&10).unwrap(), &vec!["near", "far", "late"]);
    state.handle_event(identity(10));
    assert_eq!(state.pending_count(), 3);
}
