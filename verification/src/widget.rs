//! Minimal widget primitives shared by the bar and notifications.

use vstd::prelude::*;

use crate::geom::Color;

verus! {

#[derive(Clone, PartialEq, Debug)]
pub enum Action {
    NotificationClose(u32),
    NotificationAction { id: u32, key: String },
}

/// An exact copy of an action.
pub fn copy_action(a: &Action) -> (b: Action)
    ensures
        b == *a,
{
    match a {
        Action::NotificationClose(id) => Action::NotificationClose(*id),
        Action::NotificationAction { id, key } => Action::NotificationAction { id: *id, key: key.clone() },
    }
}

/// A run of text with optional colours and an optional click action.
#[derive(Clone, PartialEq, Debug)]
pub struct Span {
    pub text: String,
    pub color: Option<Color>,
    pub bg: Option<Color>,
    pub action: Option<Action>,
}

impl Span {
    pub fn text(text: &str) -> (s: Span)
        ensures
            s.text@ == text@,
            s.color is None,
            s.bg is None,
            s.action is None,
    {
        Span { text: text.to_owned(), color: None, bg: None, action: None }
    }

    pub fn with_color(self, c: Color) -> (s: Span)
        ensures
            s == (Span { color: Some(c), ..self }),
    {
        Span { color: Some(c), ..self }
    }

    pub fn with_action(self, a: Action) -> (s: Span)
        ensures
            s == (Span { action: Some(a), ..self }),
    {
        Span { action: Some(a), ..self }
    }
}

#[derive(Clone, Debug)]
pub enum Event {
    /// Timer wakeup (clock tick, animation step)
    Wake,
    /// One line of output from the `id`-th exec module child
    Line { id: usize, text: String },
}

pub trait Module {
    /// Returns whether a redraw is needed.
    fn update(&mut self, ev: &Event) -> bool;

    fn spans(&self) -> Vec<Span>;
}

} // verus!
