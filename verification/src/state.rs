//! Which context is active, and which one was active before it.

use vstd::prelude::*;
use crate::text::same_text;

verus! {

/// The names of the active context and of the one that was active before it.
pub struct State {
    pub current: Option<String>,
    pub previous: Option<String>,
}

/// What a [`State`] holds, with each name as a sequence of characters.
pub struct StateView {
    pub current: Option<Seq<char>>,
    pub previous: Option<Seq<char>>,
}

/// The characters of an optional name.
pub open spec fn name_view(name: Option<String>) -> Option<Seq<char>> {
    match name {
        Some(s) => Some(s@),
        None => None,
    }
}

impl View for State {
    type V = StateView;

    open spec fn view(&self) -> StateView {
        StateView { current: name_view(self.current), previous: name_view(self.previous) }
    }
}

impl Default for State {
    fn default() -> (state: State)
        ensures
            state@.current is None,
            state@.previous is None,
    {
        State { current: None, previous: None }
    }
}

impl State {
    /// Makes `context` the active context. The context that was active until
    /// now becomes the previous one, unless it is `context` itself.
    pub fn set_current(&mut self, context: String)
        ensures
            final(self)@.current == Some(context@),
            final(self)@.previous == match old(self)@.current {
                Some(active) if active != context@ => Some(active),
                _ => old(self)@.previous,
            },
    {
        let replaced: Option<String> = match &self.current {
            Some(active) => {
                if *active != context {
                    Some(active.clone())
                } else {
                    None
                }
            },
            None => None,
        };
        if replaced.is_some() {
            self.previous = replaced;
        }
        self.current = Some(context);
    }

    /// Leaves no context active and returns the one that was. It becomes the
    /// previous context; with none active, the previous context stays.
    pub fn unset_current(&mut self) -> (active: Option<String>)
        ensures
            name_view(active) == old(self)@.current,
            final(self)@.current is None,
            final(self)@.previous == match old(self)@.current {
                Some(name) => Some(name),
                None => old(self)@.previous,
            },
    {
        let active: Option<String> = self.current.take();
        if let Some(name) = &active {
            self.previous = Some(name.clone());
        }
        active
    }

    /// Whether `name` is the active context.
    pub fn is_current(&self, name: &str) -> (active: bool)
        ensures
            active == (self@.current == Some(name@)),
    {
        match &self.current {
            Some(current) => same_text(current.as_str(), name),
            None => false,
        }
    }

    /// Follows a context that was renamed: where `old_name` was the active
    /// or the previous context, `new_name` is it now. Says whether the state
    /// changed.
    pub fn rename(&mut self, old_name: &str, new_name: &str) -> (updated: bool)
        ensures
            final(self)@.current == if old(self)@.current == Some(old_name@) {
                Some(new_name@)
            } else {
                old(self)@.current
            },
            final(self)@.previous == if old(self)@.previous == Some(old_name@) {
                Some(new_name@)
            } else {
                old(self)@.previous
            },
            updated == (old(self)@.current == Some(old_name@) || old(self)@.previous == Some(
                old_name@,
            )),
    {
        let was_current = self.is_current(old_name);
        let was_previous = match &self.previous {
            Some(previous) => same_text(previous.as_str(), old_name),
            None => false,
        };
        if was_current {
            self.current = Some(new_name.to_owned());
        }
        if was_previous {
            self.previous = Some(new_name.to_owned());
        }
        was_current || was_previous
    }

    /// Forgets the previous context where it is `name`, which was deleted.
    /// Says whether the state changed.
    pub fn forget_previous(&mut self, name: &str) -> (updated: bool)
        ensures
            updated == (old(self)@.previous == Some(name@)),
            final(self)@.current == old(self)@.current,
            final(self)@.previous == if updated {
                None
            } else {
                old(self)@.previous
            },
    {
        let was_previous = match &self.previous {
            Some(previous) => same_text(previous.as_str(), name),
            None => false,
        };
        if was_previous {
            self.previous = None;
        }
        was_previous
    }
}

} // verus!
