//! Answers to actions.

use crate::properties::{copy_text, text_view};
use vstd::prelude::*;

verus! {

/// How far an action has come.
#[derive(Debug, Clone, Copy, PartialEq, Eq, Structural)]
pub enum ActionStatus {
    Accepted,
    Rejected,
    Running,
    Finished,
    Failed,
}

impl Default for ActionStatus {
    fn default() -> (d: Self)
        ensures
            d == ActionStatus::Rejected,
    {
        Self::Rejected
    }
}

/// The answer to an action.
#[derive(Debug, PartialEq, Eq)]
pub struct Response {
    pub action_id: String,
    pub status: ActionStatus,
    pub description: Option<String>,
    pub result_code: Option<String>,
}

/// What a [`Response`] stands for.
pub struct ResponseView {
    pub action_id: Seq<char>,
    pub status: ActionStatus,
    pub description: Option<Seq<char>>,
    pub result_code: Option<Seq<char>>,
}

impl View for Response {
    type V = ResponseView;

    open spec fn view(&self) -> ResponseView {
        ResponseView {
            action_id: self.action_id@,
            status: self.status,
            description: text_view(self.description),
            result_code: text_view(self.result_code),
        }
    }
}

impl Clone for Response {
    fn clone(&self) -> (r: Self)
        ensures
            r == *self,
    {
        let r = Response {
            action_id: self.action_id.clone(),
            status: self.status,
            description: copy_text(&self.description),
            result_code: copy_text(&self.result_code),
        };
        r
    }
}

/// A [`Response`] that states nothing.
pub open spec fn blank_response() -> ResponseView {
    ResponseView {
        action_id: Seq::empty(),
        status: ActionStatus::Rejected,
        description: None,
        result_code: None,
    }
}

impl Default for Response {
    fn default() -> (d: Self)
        ensures
            d@ == blank_response(),
    {
        let d = Response {
            action_id: String::new(),
            status: ActionStatus::Rejected,
            description: None,
            result_code: None,
        };
        d
    }
}

} // verus!
