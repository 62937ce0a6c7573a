//! Whole sessions: what comes of a series of events.
use crate::application::{event_actions, Action, Event};
use crate::document::Mode;
use vstd::prelude::*;

verus! {

/// A program around the editor, with states of type `S`: what the loop asks of a state, and what a
/// state becomes.
#[verifier::reject_recursive_types(S)]
pub struct Program<S> {
    /// A prompt is open.
    pub prompt_open: spec_fn(S) -> bool,
    /// The mode of the document that is seen.
    pub mode: spec_fn(S) -> Option<Mode>,
    /// The editor was told to close.
    pub closing: spec_fn(S) -> bool,
    /// The screen has got another size.
    pub resized: spec_fn(S, u16, u16) -> S,
    /// An action is performed that an event calls for.
    pub performed: spec_fn(S, Event, Action) -> S,
}

impl<S> Program<S> {
    /// The state after the given actions.
    pub open spec fn after_actions(self, state: S, event: Event, actions: Seq<Action>) -> S
        decreases actions.len(),
    {
        if actions.len() == 0 {
            state
        } else {
            (self.performed)(
                self.after_actions(state, event, actions.drop_last()),
                event,
                actions.last(),
            )
        }
    }

    /// What is to be done about an event.
    pub open spec fn actions(self, state: S, event: Event) -> Seq<Action> {
        event_actions((self.prompt_open)(state), (self.mode)(state), event)
    }

    /// The state after an event was handled.
    pub open spec fn after_event(self, state: S, event: Event) -> S {
        let sized = match event {
            Event::Resize(width, height) => (self.resized)(state, width, height),
            _ => state,
        };
        self.after_actions(sized, event, self.actions(state, event))
    }

    /// The number of events that the loop reads: it goes on until the editor was told to close, or
    /// the end has come.
    pub open spec fn events_read(self, state: S, events: Seq<Event>) -> nat
        decreases events.len(),
    {
        if (self.closing)(state) || events.len() == 0 {
            0
        } else if events.first() == Event::End {
            1
        } else {
            1 + self.events_read(self.after_event(state, events.first()), events.drop_first())
        }
    }

    /// The state that the loop leaves behind.
    pub open spec fn after_loop(self, state: S, events: Seq<Event>) -> S
        decreases events.len(),
    {
        if (self.closing)(state) || events.len() == 0 {
            state
        } else if events.first() == Event::End {
            self.after_event(state, Event::End)
        } else {
            self.after_loop(self.after_event(state, events.first()), events.drop_first())
        }
    }

    /// The actions that the loop calls for, from the first event to the last one that it reads.
    pub open spec fn loop_actions(self, state: S, events: Seq<Event>) -> Seq<Action>
        decreases events.len(),
    {
        if (self.closing)(state) || events.len() == 0 {
            Seq::empty()
        } else if events.first() == Event::End {
            self.actions(state, Event::End)
        } else {
            self.actions(state, events.first()) + self.loop_actions(
                self.after_event(state, events.first()),
                events.drop_first(),
            )
        }
    }

    /// Whenever a key is read there is a prompt or a document to take it.
    pub open spec fn takes_keys(self, state: S, events: Seq<Event>) -> bool
        decreases events.len(),
    {
        if (self.closing)(state) || events.len() == 0 {
            true
        } else {
            &&& events.first() is Key ==> (self.prompt_open)(state) || (self.mode)(state) is Some
            &&& self.takes_keys(self.after_event(state, events.first()), events.drop_first())
        }
    }

    /// Mouse events are as if they had not come: nothing is done about them, and the loop leaves
    /// the same state behind as without them.
    pub proof fn lemma_mouse_changes_nothing(self, state: S, events: Seq<Event>)
        ensures
            self.loop_actions(state, events) == self.loop_actions(state, without_mouse(events)),
            self.after_loop(state, events) == self.after_loop(state, without_mouse(events)),
        decreases events.len(),
    {
        if events.len() > 0 {
            let rest = events.drop_first();
            let kept = without_mouse(events);
            if events.first() == Event::Mouse {
                self.lemma_mouse_changes_nothing(state, rest);
                assert(self.actions(state, Event::Mouse) + self.loop_actions(state, rest)
                    == self.loop_actions(state, rest));
            } else {
                assert(kept.first() == events.first());
                assert(kept.drop_first() == without_mouse(rest));
                self.lemma_mouse_changes_nothing(
                    self.after_event(state, events.first()),
                    rest,
                );
            }
        }
    }

    /// Two series of events that differ only in mouse events lead to the same actions and the same
    /// state.
    pub proof fn lemma_mouse_makes_no_difference(
        self,
        state: S,
        events: Seq<Event>,
        others: Seq<Event>,
    )
        requires
            without_mouse(events) == without_mouse(others),
        ensures
            self.loop_actions(state, events) == self.loop_actions(state, others),
            self.after_loop(state, events) == self.after_loop(state, others),
    {
        self.lemma_mouse_changes_nothing(state, events);
        self.lemma_mouse_changes_nothing(state, others);
    }

    /// The loop draws a frame for each key and each change of size that it reads, and no other. With
    /// the one that is drawn before it starts, there is one frame more than that.
    pub proof fn lemma_frames_are_counted(self, state: S, events: Seq<Event>)
        requires
            self.takes_keys(state, events),
        ensures
            frames(self.loop_actions(state, events)) == changes(
                events.take(self.events_read(state, events) as int),
            ),
        decreases events.len(),
    {
        self.lemma_loop_ends(state, events);
        let read = events.take(self.events_read(state, events) as int);
        if !(self.closing)(state) && events.len() > 0 {
            let actions = self.actions(state, events.first());
            let after = self.after_event(state, events.first());
            let rest = events.drop_first();
            lemma_frames_of_event((self.prompt_open)(state), (self.mode)(state), events.first());
            assert(read.first() == events.first());
            if events.first() == Event::End {
                assert(changes(read.drop_first()) == 0);
            } else {
                self.lemma_frames_are_counted(after, rest);
                lemma_frames_add_up(actions, self.loop_actions(after, rest));
                self.lemma_loop_ends(after, rest);
                assert(read.drop_first() == rest.take(self.events_read(after, rest) as int));
            }
        }
    }

    /// The loop goes on exactly until the editor was told to close or the end has come: neither is
    /// so before an event that is read, and one of the two is so afterwards, or there are no more
    /// events.
    pub proof fn lemma_loop_ends(self, state: S, events: Seq<Event>)
        ensures
            self.events_read(state, events) <= events.len(),
            forall|k: int|
                0 <= k < self.events_read(state, events) ==> !(self.closing)(
                    self.after_loop(state, #[trigger] events.take(k)),
                ),
            forall|k: int|
                0 <= k < self.events_read(state, events) - 1 ==> #[trigger] events[k]
                    != Event::End,
            ({
                let n = self.events_read(state, events) as int;
                ||| n == events.len()
                ||| n > 0 && events[n - 1] == Event::End
                ||| (self.closing)(self.after_loop(state, events))
            }),
        decreases events.len(),
    {
        if !(self.closing)(state) && events.len() > 0 {
            let n = self.events_read(state, events);
            let rest = events.drop_first();
            let after = self.after_event(state, events.first());
            if events.first() != Event::End {
                self.lemma_loop_ends(after, rest);
                assert forall|k: int| 0 <= k < n - 1 implies #[trigger] events[k]
                    != Event::End by {
                    if k > 0 {
                        assert(rest[k - 1] == events[k]);
                    }
                }
                if n > 1 {
                    assert(rest[n - 2] == events[n - 1]);
                }
            }
            assert forall|k: int| 0 <= k < n implies !(self.closing)(
                self.after_loop(state, #[trigger] events.take(k)),
            ) by {
                if k > 0 {
                    assert(events.take(k).first() == events.first());
                    assert(events.take(k).drop_first() == rest.take(k - 1));
                }
            }
        }
    }
}

/// The events but for those of the mouse.
pub open spec fn without_mouse(events: Seq<Event>) -> Seq<Event>
    decreases events.len(),
{
    if events.len() == 0 {
        Seq::empty()
    } else if events.first() == Event::Mouse {
        without_mouse(events.drop_first())
    } else {
        seq![events.first()] + without_mouse(events.drop_first())
    }
}

/// The number of frames that are drawn.
pub open spec fn frames(actions: Seq<Action>) -> nat
    decreases actions.len(),
{
    if actions.len() == 0 {
        0
    } else if actions.first() == Action::Render {
        1 + frames(actions.drop_first())
    } else {
        frames(actions.drop_first())
    }
}

/// The number of keys and of changes of size.
pub open spec fn changes(events: Seq<Event>) -> nat
    decreases events.len(),
{
    if events.len() == 0 {
        0
    } else if events.first() is Key || events.first() is Resize {
        1 + changes(events.drop_first())
    } else {
        changes(events.drop_first())
    }
}

/// The frames of two lists of actions add up.
proof fn lemma_frames_add_up(first: Seq<Action>, second: Seq<Action>)
    ensures
        frames(first + second) == frames(first) + frames(second),
    decreases first.len(),
{
    if first.len() == 0 {
        assert(first + second == second);
    } else {
        assert((first + second).drop_first() == first.drop_first() + second);
        lemma_frames_add_up(first.drop_first(), second);
    }
}

/// An event that somebody takes leads to one frame if it is a key or a change of size, and otherwise
/// to none.
pub proof fn lemma_frames_of_event(prompt_open: bool, mode: Option<Mode>, event: Event)
    requires
        event is Key ==> prompt_open || mode is Some,
    ensures
        frames(event_actions(prompt_open, mode, event)) == if event is Key || event is Resize {
            1nat
        } else {
            0nat
        },
{
    reveal_with_fuel(frames, 4);
}

} // verus!
