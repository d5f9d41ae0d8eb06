//! Actions that a vehicle carries out at once.

use crate::properties::{copy_text, text_view, Properties, PropertyView};
use crate::views::views;
use vstd::prelude::*;

verus! {

/// What may go on beside an action.
#[derive(Debug, Clone, Copy, PartialEq, Eq, Structural)]
pub enum ActionBlockingType {
    NonBlocking,
    Soft,
    Hard,
}

impl Default for ActionBlockingType {
    fn default() -> (d: Self)
        ensures
            d == ActionBlockingType::NonBlocking,
    {
        Self::NonBlocking
    }
}

/// An action that a vehicle carries out at once.
#[derive(Debug)]
pub struct InstantAction {
    pub action_id: String,
    pub action_type: String,
    pub blocking_type: ActionBlockingType,
    pub description: Option<String>,
    pub parameters: Properties,
}

/// What a [`InstantAction`] stands for.
pub struct InstantActionView {
    pub action_id: Seq<char>,
    pub action_type: Seq<char>,
    pub blocking_type: ActionBlockingType,
    pub description: Option<Seq<char>>,
    pub parameters: Seq<PropertyView>,
}

impl View for InstantAction {
    type V = InstantActionView;

    open spec fn view(&self) -> InstantActionView {
        InstantActionView {
            action_id: self.action_id@,
            action_type: self.action_type@,
            blocking_type: self.blocking_type,
            description: text_view(self.description),
            parameters: self.parameters@,
        }
    }
}

impl Clone for InstantAction {
    fn clone(&self) -> (r: Self)
        ensures
            r@ == self@,
    {
        let r = InstantAction {
            action_id: self.action_id.clone(),
            action_type: self.action_type.clone(),
            blocking_type: self.blocking_type,
            description: copy_text(&self.description),
            parameters: self.parameters.clone(),
        };
        r
    }
}

/// A [`InstantAction`] that states nothing.
pub open spec fn blank_instant_action() -> InstantActionView {
    InstantActionView {
        action_id: Seq::empty(),
        action_type: Seq::empty(),
        blocking_type: ActionBlockingType::NonBlocking,
        description: None,
        parameters: Seq::empty(),
    }
}

impl Default for InstantAction {
    fn default() -> (d: Self)
        ensures
            d@ == blank_instant_action(),
    {
        let d = InstantAction {
            action_id: String::new(),
            action_type: String::new(),
            blocking_type: ActionBlockingType::NonBlocking,
            description: None,
            parameters: Properties::new(),
        };
        d
    }
}

/// A message of actions.
#[derive(Debug)]
pub struct InstantActions {
    pub header_id: String,
    pub header_version: u32,
    pub actions: Vec<InstantAction>,
}

/// What a [`InstantActions`] stands for.
pub struct InstantActionsView {
    pub header_id: Seq<char>,
    pub header_version: u32,
    pub actions: Seq<InstantActionView>,
}

impl View for InstantActions {
    type V = InstantActionsView;

    open spec fn view(&self) -> InstantActionsView {
        InstantActionsView {
            header_id: self.header_id@,
            header_version: self.header_version,
            actions: views(self.actions@),
        }
    }
}

impl Clone for InstantActions {
    fn clone(&self) -> (r: Self)
        ensures
            r@ == self@,
    {
        let r = InstantActions {
            header_id: self.header_id.clone(),
            header_version: self.header_version,
            actions: self.actions.clone(),
        };
        assert(r@.actions =~= self@.actions);
        r
    }
}

/// A [`InstantActions`] that states nothing.
pub open spec fn blank_instant_actions() -> InstantActionsView {
    InstantActionsView {
        header_id: Seq::empty(),
        header_version: 0,
        actions: Seq::empty(),
    }
}

impl Default for InstantActions {
    fn default() -> (d: Self)
        ensures
            d@ == blank_instant_actions(),
    {
        let d = InstantActions {
            header_id: String::new(),
            header_version: 0,
            actions: Vec::new(),
        };
        assert(d@.actions =~= Seq::empty());
        d
    }
}

} // verus!
