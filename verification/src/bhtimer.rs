//! The timer definitions: what one definition file declares, the
//! mathematical view of each part, and the trigger evaluator.
//!
//! Lengths are whole grid steps (see `geometry`), durations whole
//! milliseconds, colour channels whole numbers from 0 to 255. Nothing here
//! rescales a value it was given.

use vstd::prelude::*;
use crate::geometry::{GridPoint, within_box, within_radius};

verus! {

/// The view of an optional text.
pub open spec fn text_view(text: Option<String>) -> Option<Seq<char>> {
    match text {
        Some(t) => Some(t@),
        None => None,
    }
}

/// The view of a list of texts.
pub open spec fn texts_view(texts: Seq<String>) -> Seq<Seq<char>> {
    texts.map_values(|t: String| t@)
}

/// What kind of condition a trigger waits for.
#[derive(Clone, Copy, Debug, PartialEq, Eq, Structural)]
pub enum TimerTriggerType {
    /// The player enters a region of the map.
    Location,
    /// The player presses a bound key.
    Key,
}

impl Default for TimerTriggerType {
    fn default() -> (kind: TimerTriggerType)
        ensures
            kind == TimerTriggerType::Location,
    {
        TimerTriggerType::Location
    }
}

/// What a declared action does.
#[derive(Clone, Copy, Debug, PartialEq, Eq, Structural)]
pub enum TimerActionType {
    SkipTime,
}

impl Default for TimerActionType {
    fn default() -> (kind: TimerActionType)
        ensures
            kind == TimerActionType::SkipTime,
    {
        TimerActionType::SkipTime
    }
}

/// A colour with four channels, each from 0 to 255.
#[derive(Clone, Copy, Debug, PartialEq, Eq, Structural)]
pub struct XNAColour {
    pub r: u8,
    pub g: u8,
    pub b: u8,
    pub a: u8,
}

/// The condition that starts a phase, resets a timer or fires an action.
#[derive(Debug)]
pub struct TimerTrigger {
    pub kind: TimerTriggerType,
    pub key_bind: Option<String>,
    /// Centre of the sphere and first corner of the box.
    pub position: Option<GridPoint>,
    /// The corner of the box opposite to `position`.
    pub antipode: Option<GridPoint>,
    pub radius: Option<i32>,
    pub require_combat: bool,
    pub require_out_of_combat: bool,
    pub require_entry: bool,
    pub require_departure: bool,
}

/// The mathematical view of a `TimerTrigger`.
pub struct TriggerView {
    pub kind: TimerTriggerType,
    pub key_bind: Option<Seq<char>>,
    pub position: Option<GridPoint>,
    pub antipode: Option<GridPoint>,
    pub radius: Option<i32>,
    pub require_combat: bool,
    pub require_out_of_combat: bool,
    pub require_entry: bool,
    pub require_departure: bool,
}

impl View for TimerTrigger {
    type V = TriggerView;

    open spec fn view(&self) -> TriggerView {
        TriggerView {
            kind: self.kind,
            key_bind: text_view(self.key_bind),
            position: self.position,
            antipode: self.antipode,
            radius: self.radius,
            require_combat: self.require_combat,
            require_out_of_combat: self.require_out_of_combat,
            require_entry: self.require_entry,
            require_departure: self.require_departure,
        }
    }
}

impl TriggerView {
    /// A location trigger can only be evaluated where it carries a position.
    pub open spec fn evaluable(self) -> bool {
        self.kind is Location ==> self.position is Some
    }

    /// The sphere test applies and the player is strictly inside the sphere.
    pub open spec fn sphere_hit(self, player: GridPoint) -> bool {
        &&& self.position is Some
        &&& self.radius is Some
        &&& within_radius(self.position->0, self.radius->0, player)
    }

    /// The box test applies and the player is inside the box, bounds
    /// included.
    pub open spec fn box_hit(self, player: GridPoint) -> bool {
        &&& self.position is Some
        &&& self.antipode is Some
        &&& within_box(self.position->0, self.antipode->0, player)
    }

    /// The trigger is satisfied by a player at `player`: a location trigger
    /// by either of its two tests, a key trigger never.
    pub open spec fn satisfied_by(self, player: GridPoint) -> bool {
        self.kind is Location && (self.sphere_hit(player) || self.box_hit(player))
    }
}

impl Clone for TimerTrigger {
    fn clone(&self) -> (copy: TimerTrigger)
        ensures
            copy@ == self@,
    {
        TimerTrigger {
            kind: self.kind,
            key_bind: self.key_bind.clone(),
            position: self.position,
            antipode: self.antipode,
            radius: self.radius,
            require_combat: self.require_combat,
            require_out_of_combat: self.require_out_of_combat,
            require_entry: self.require_entry,
            require_departure: self.require_departure,
        }
    }
}

impl TimerTrigger {
    /// A location trigger that has neither region nor qualifier set yet.
    pub fn new(kind: TimerTriggerType) -> (trigger: TimerTrigger)
        ensures
            trigger@ == (TriggerView {
                kind,
                key_bind: None,
                position: None,
                antipode: None,
                radius: None,
                require_combat: false,
                require_out_of_combat: false,
                require_entry: false,
                require_departure: false,
            }),
    {
        TimerTrigger {
            kind,
            key_bind: None,
            position: None,
            antipode: None,
            radius: None,
            require_combat: false,
            require_out_of_combat: false,
            require_entry: false,
            require_departure: false,
        }
    }

    pub fn position(&self) -> (p: Option<GridPoint>)
        ensures
            p == self@.position,
    {
        self.position
    }

    pub fn antipode(&self) -> (p: Option<GridPoint>)
        ensures
            p == self@.antipode,
    {
        self.antipode
    }

    /// Whether `evaluate` accepts this trigger.
    pub fn is_evaluable(&self) -> (ok: bool)
        ensures
            ok == self@.evaluable(),
    {
        match self.kind {
            TimerTriggerType::Location => self.position.is_some(),
            TimerTriggerType::Key => true,
        }
    }
}

/// Evaluates one trigger against one position sample.
///
/// A location trigger reports `true` if the player is strictly inside its
/// sphere or inside its box; one test is enough. A key trigger always
/// reports `false`.
pub fn evaluate(trigger: &TimerTrigger, player_position: GridPoint) -> (satisfied: bool)
    requires
        trigger@.evaluable(),
    ensures
        satisfied == trigger@.satisfied_by(player_position),
{
    match trigger.kind {
        TimerTriggerType::Location => {
            let p1: GridPoint = trigger.position.unwrap();
            let mut satisfied: bool = false;
            if let Some(radius) = trigger.radius {
                if player_position.is_within_radius(p1, radius) {
                    satisfied = true;
                }
            }
            if let Some(p2) = trigger.antipode {
                if player_position.is_within_box(p1, p2) {
                    satisfied = true;
                }
            }
            satisfied
        },
        TimerTriggerType::Key => false,
    }
}

/// A timed cue of a phase. The core carries it and never reads it.
#[derive(Debug)]
pub struct TimerAlert {
    /// How long the warning shows, in milliseconds.
    pub warning_duration: Option<u32>,
    /// How long the alert shows, in milliseconds.
    pub alert_duration: Option<u32>,
    pub warning: Option<String>,
    pub warning_color: Option<XNAColour>,
    pub alert: Option<String>,
    pub alert_color: Option<XNAColour>,
    pub icon: Option<String>,
    pub fill_color: Option<XNAColour>,
}

/// The mathematical view of a `TimerAlert`.
pub struct AlertView {
    pub warning_duration: Option<u32>,
    pub alert_duration: Option<u32>,
    pub warning: Option<Seq<char>>,
    pub warning_color: Option<XNAColour>,
    pub alert: Option<Seq<char>>,
    pub alert_color: Option<XNAColour>,
    pub icon: Option<Seq<char>>,
    pub fill_color: Option<XNAColour>,
}

impl View for TimerAlert {
    type V = AlertView;

    open spec fn view(&self) -> AlertView {
        AlertView {
            warning_duration: self.warning_duration,
            alert_duration: self.alert_duration,
            warning: text_view(self.warning),
            warning_color: self.warning_color,
            alert: text_view(self.alert),
            alert_color: self.alert_color,
            icon: text_view(self.icon),
            fill_color: self.fill_color,
        }
    }
}

impl Clone for TimerAlert {
    fn clone(&self) -> (copy: TimerAlert)
        ensures
            copy@ == self@,
    {
        TimerAlert {
            warning_duration: self.warning_duration,
            alert_duration: self.alert_duration,
            warning: self.warning.clone(),
            warning_color: self.warning_color,
            alert: self.alert.clone(),
            alert_color: self.alert_color,
            icon: self.icon.clone(),
            fill_color: self.fill_color,
        }
    }
}

/// A declared side effect of a phase. The core carries it and never runs it.
#[derive(Debug)]
pub struct TimerAction {
    pub name: String,
    pub kind: TimerActionType,
    /// The phase sets that the action aims at.
    pub sets: Option<Vec<String>>,
    pub trigger: TimerTrigger,
}

/// The mathematical view of a `TimerAction`.
pub struct ActionView {
    pub name: Seq<char>,
    pub kind: TimerActionType,
    pub sets: Option<Seq<Seq<char>>>,
    pub trigger: TriggerView,
}

impl View for TimerAction {
    type V = ActionView;

    open spec fn view(&self) -> ActionView {
        ActionView {
            name: self.name@,
            kind: self.kind,
            sets: match self.sets {
                Some(sets) => Some(texts_view(sets@)),
                None => None,
            },
            trigger: self.trigger@,
        }
    }
}

impl Clone for TimerAction {
    fn clone(&self) -> (copy: TimerAction)
        ensures
            copy@ == self@,
    {
        let sets: Option<Vec<String>> = match &self.sets {
            Some(sets) => {
                let copied: Vec<String> = sets.clone();
                assert(texts_view(copied@) =~= texts_view(sets@));
                Some(copied)
            },
            None => None,
        };
        TimerAction {
            name: self.name.clone(),
            kind: self.kind,
            sets,
            trigger: self.trigger.clone(),
        }
    }
}

/// The views of a list of alerts, in order.
pub open spec fn alerts_view(alerts: Seq<TimerAlert>) -> Seq<AlertView> {
    alerts.map_values(|a: TimerAlert| a@)
}

/// The views of a list of actions, in order.
pub open spec fn actions_view(actions: Seq<TimerAction>) -> Seq<ActionView> {
    actions.map_values(|a: TimerAction| a@)
}

/// A named subdivision of a timer, with the trigger that starts it.
#[derive(Debug)]
pub struct TimerPhase {
    pub name: String,
    pub start: TimerTrigger,
    pub alerts: Vec<TimerAlert>,
    pub actions: Vec<TimerAction>,
}

/// The mathematical view of a `TimerPhase`.
pub struct PhaseView {
    pub name: Seq<char>,
    pub start: TriggerView,
    pub alerts: Seq<AlertView>,
    pub actions: Seq<ActionView>,
}

impl View for TimerPhase {
    type V = PhaseView;

    open spec fn view(&self) -> PhaseView {
        PhaseView {
            name: self.name@,
            start: self.start@,
            alerts: alerts_view(self.alerts@),
            actions: actions_view(self.actions@),
        }
    }
}

impl Clone for TimerPhase {
    fn clone(&self) -> (copy: TimerPhase)
        ensures
            copy@ == self@,
    {
        let alerts: Vec<TimerAlert> = self.alerts.clone();
        let actions: Vec<TimerAction> = self.actions.clone();
        assert(alerts_view(alerts@) =~= alerts_view(self.alerts@));
        assert(actions_view(actions@) =~= actions_view(self.actions@));
        TimerPhase { name: self.name.clone(), start: self.start.clone(), alerts, actions }
    }
}

/// The views of a list of phases, in order.
pub open spec fn phases_view(phases: Seq<TimerPhase>) -> Seq<PhaseView> {
    phases.map_values(|p: TimerPhase| p@)
}

/// One timer definition, as one definition file declares it.
#[derive(Debug)]
pub struct TimerFile {
    pub id: String,
    pub name: String,
    pub category: String,
    pub description: String,
    pub author: String,
    pub icon: String,
    /// The context in which the timer runs.
    pub map_id: u32,
    pub reset: TimerTrigger,
    pub phases: Vec<TimerPhase>,
}

/// The mathematical view of a `TimerFile`.
pub struct TimerFileView {
    pub id: Seq<char>,
    pub name: Seq<char>,
    pub category: Seq<char>,
    pub description: Seq<char>,
    pub author: Seq<char>,
    pub icon: Seq<char>,
    pub map_id: u32,
    pub reset: TriggerView,
    pub phases: Seq<PhaseView>,
}

impl View for TimerFile {
    type V = TimerFileView;

    open spec fn view(&self) -> TimerFileView {
        TimerFileView {
            id: self.id@,
            name: self.name@,
            category: self.category@,
            description: self.description@,
            author: self.author@,
            icon: self.icon@,
            map_id: self.map_id,
            reset: self.reset@,
            phases: phases_view(self.phases@),
        }
    }
}

impl TimerFileView {
    /// The state machine can start this timer: it has a first phase, and the
    /// start trigger of that phase can be evaluated.
    pub open spec fn startable(self) -> bool {
        self.phases.len() > 0 && self.phases[0].start.evaluable()
    }
}

impl Clone for TimerFile {
    fn clone(&self) -> (copy: TimerFile)
        ensures
            copy@ == self@,
    {
        let phases: Vec<TimerPhase> = self.phases.clone();
        assert(phases_view(phases@) =~= phases_view(self.phases@));
        TimerFile {
            id: self.id.clone(),
            name: self.name.clone(),
            category: self.category.clone(),
            description: self.description.clone(),
            author: self.author.clone(),
            icon: self.icon.clone(),
            map_id: self.map_id,
            reset: self.reset.clone(),
            phases,
        }
    }
}

impl TimerFile {
    /// Whether the state machine can start this timer.
    pub fn is_startable(&self) -> (ok: bool)
        ensures
            ok == self@.startable(),
    {
        self.phases.len() > 0 && self.phases[0].start.is_evaluable()
    }
}

} // verus!
