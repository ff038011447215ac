use taimi::bhtimer::{
    evaluate, TimerAction, TimerActionType, TimerAlert, TimerFile, TimerPhase, TimerTrigger,
    TimerTriggerType, XNAColour,
};
use taimi::geometry::GridPoint;

fn sphere_trigger(centre: GridPoint, radius: i32) -> TimerTrigger {
    let mut trigger = TimerTrigger::new(TimerTriggerType::Location);
    trigger.position = Some(centre);
    trigger.radius = Some(radius);
    trigger
}

fn box_trigger(position: GridPoint, antipode: GridPoint) -> TimerTrigger {
    let mut trigger = TimerTrigger::new(TimerTriggerType::Location);
    trigger.position = Some(position);
    trigger.antipode = Some(antipode);
    trigger
}

#[test]
fn sphere_trigger_inside_and_outside() {
    let trigger = sphere_trigger(GridPoint::new(0, 0, 0), 5);
    assert!(evaluate(&trigger, GridPoint::new(3, 0, 0)));
    assert!(!evaluate(&trigger, GridPoint::new(10, 0, 0)));
}

#[test]
fn sphere_trigger_on_the_surface_is_outside() {
    let trigger = sphere_trigger(GridPoint::new(0, 0, 0), 5);
    assert!(!evaluate(&trigger, GridPoint::new(5, 0, 0)));
    assert!(!evaluate(&trigger, GridPoint::new(0, -5, 0)));
}

#[test]
fn box_trigger_with_inclusive_bounds() {
    let trigger = box_trigger(GridPoint::new(0, 0, 0), GridPoint::new(10, 10, 10));
    assert!(evaluate(&trigger, GridPoint::new(5, 5, 5)));
    assert!(evaluate(&trigger, GridPoint::new(0, 0, 0)));
    assert!(evaluate(&trigger, GridPoint::new(10, 10, 10)));
    assert!(!evaluate(&trigger, GridPoint::new(-1, 5, 5)));
}

#[test]
fn either_test_is_enough() {
    let mut trigger = box_trigger(GridPoint::new(0, 0, 0), GridPoint::new(10, 10, 10));
    trigger.radius = Some(3);
    // in the sphere and in the box
    assert!(evaluate(&trigger, GridPoint::new(1, 1, 1)));
    // in the sphere only
    assert!(evaluate(&trigger, GridPoint::new(-2, 0, 0)));
    // in the box only
    assert!(evaluate(&trigger, GridPoint::new(9, 9, 9)));
    // in neither
    assert!(!evaluate(&trigger, GridPoint::new(-5, 0, 0)));
}

#[test]
fn location_trigger_without_region_is_never_satisfied() {
    let mut trigger = TimerTrigger::new(TimerTriggerType::Location);
    trigger.position = Some(GridPoint::new(1, 2, 3));
    assert!(!evaluate(&trigger, GridPoint::new(1, 2, 3)));
}

#[test]
fn key_trigger_is_never_satisfied() {
    let mut trigger = sphere_trigger(GridPoint::new(0, 0, 0), 5);
    trigger.kind = TimerTriggerType::Key;
    trigger.key_bind = Some(String::from("ALT+T"));
    assert!(!evaluate(&trigger, GridPoint::new(0, 0, 0)));
    let bare = TimerTrigger::new(TimerTriggerType::Key);
    assert!(!evaluate(&bare, GridPoint::new(0, 0, 0)));
}

#[test]
fn kinds_default_to_location_and_skip_time() {
    assert_eq!(TimerTriggerType::default(), TimerTriggerType::Location);
    assert_eq!(TimerActionType::default(), TimerActionType::SkipTime);
}

#[test]
fn new_trigger_has_nothing_set() {
    let trigger = TimerTrigger::new(TimerTriggerType::Location);
    assert_eq!(trigger.kind, TimerTriggerType::Location);
    assert!(trigger.key_bind.is_none());
    assert!(trigger.position().is_none());
    assert!(trigger.antipode().is_none());
    assert!(trigger.radius.is_none());
    assert!(!trigger.require_combat);
    assert!(!trigger.require_out_of_combat);
    assert!(!trigger.require_entry);
    assert!(!trigger.require_departure);
}

#[test]
fn evaluable_triggers() {
    assert!(!TimerTrigger::new(TimerTriggerType::Location).is_evaluable());
    assert!(TimerTrigger::new(TimerTriggerType::Key).is_evaluable());
    assert!(sphere_trigger(GridPoint::new(0, 0, 0), 1).is_evaluable());
}

fn sample_phase() -> TimerPhase {
    let mut action_trigger = TimerTrigger::new(TimerTriggerType::Key);
    action_trigger.key_bind = Some(String::from("F1"));
    TimerPhase {
        name: String::from("first"),
        start: box_trigger(GridPoint::new(0, 0, 0), GridPoint::new(4, 4, 4)),
        alerts: vec![TimerAlert {
            warning_duration: Some(5000),
            alert_duration: None,
            warning: Some(String::from("soon")),
            warning_color: Some(XNAColour { r: 255, g: 0, b: 16, a: 255 }),
            alert: None,
            alert_color: None,
            icon: Some(String::from("skull.png")),
            fill_color: None,
        }],
        actions: vec![TimerAction {
            name: String::from("skip"),
            kind: TimerActionType::SkipTime,
            sets: Some(vec![String::from("a"), String::from("b")]),
            trigger: action_trigger,
        }],
    }
}

#[test]
fn clone_keeps_every_field() {
    let timer = TimerFile {
        id: String::from("t1"),
        name: String::from("Timer"),
        category: String::from("Raids"),
        description: String::from("text"),
        author: String::from("someone"),
        icon: String::from("icon.png"),
        map_id: 1062,
        reset: sphere_trigger(GridPoint::new(9, 9, 9), 2),
        phases: vec![sample_phase()],
    };
    let copy = timer.clone();
    assert_eq!(copy.id, "t1");
    assert_eq!(copy.name, "Timer");
    assert_eq!(copy.category, "Raids");
    assert_eq!(copy.description, "text");
    assert_eq!(copy.author, "someone");
    assert_eq!(copy.icon, "icon.png");
    assert_eq!(copy.map_id, 1062);
    assert_eq!(copy.reset.position, Some(GridPoint::new(9, 9, 9)));
    assert_eq!(copy.reset.radius, Some(2));
    assert_eq!(copy.phases.len(), 1);
    let phase = &copy.phases[0];
    assert_eq!(phase.name, "first");
    assert_eq!(phase.start.antipode, Some(GridPoint::new(4, 4, 4)));
    assert_eq!(phase.alerts.len(), 1);
    assert_eq!(phase.alerts[0].warning_duration, Some(5000));
    assert_eq!(phase.alerts[0].warning.as_deref(), Some("soon"));
    assert_eq!(phase.alerts[0].warning_color, Some(XNAColour { r: 255, g: 0, b: 16, a: 255 }));
    assert_eq!(phase.alerts[0].icon.as_deref(), Some("skull.png"));
    assert_eq!(phase.actions.len(), 1);
    assert_eq!(phase.actions[0].name, "skip");
    assert_eq!(phase.actions[0].kind, TimerActionType::SkipTime);
    assert_eq!(phase.actions[0].sets, Some(vec![String::from("a"), String::from("b")]));
    assert_eq!(phase.actions[0].trigger.kind, TimerTriggerType::Key);
    assert_eq!(phase.actions[0].trigger.key_bind.as_deref(), Some("F1"));
}

#[test]
fn startable_definitions() {
    let mut timer = TimerFile {
        id: String::from("t1"),
        name: String::new(),
        category: String::new(),
        description: String::new(),
        author: String::new(),
        icon: String::new(),
        map_id: 1,
        reset: TimerTrigger::new(TimerTriggerType::Location),
        phases: Vec::new(),
    };
    // no phase at all
    assert!(!timer.is_startable());
    timer.phases.push(sample_phase());
    assert!(timer.is_startable());
    // a location trigger without a position cannot be evaluated
    timer.phases[0].start.position = None;
    assert!(!timer.is_startable());
    // a key trigger needs none
    timer.phases[0].start.kind = TimerTriggerType::Key;
    assert!(timer.is_startable());
}
