//! Terminal events: how key presses edit and submit the console's line.
use vstd::prelude::*;

use crate::app::{apply, handle_input_at, rules_wf, spec_handle_input, App, AppModel};
use crate::text::{chars_of, string_clear, string_pop, string_push};
use crate::util::{is_hms, local_time_hms};

verus! {

/// The keys the console reacts to.
#[derive(Clone, Copy, Debug, PartialEq, Eq, Structural)]
pub enum KeyCode {
    Char(char),
    Backspace,
    Enter,
    Esc,
    Other,
}

/// A terminal event: a key press, or anything else.
#[derive(Clone, Copy, Debug, PartialEq, Eq, Structural)]
pub enum Event {
    Key(KeyCode),
    Other,
}

/// What an event does to the console: a character is typed, backspace
/// deletes the last one, enter runs the line (if there is one) and empties
/// it, escape asks to leave.
pub open spec fn spec_handle_event(m: AppModel, event: Event, stamp: Seq<char>) -> AppModel {
    match event {
        Event::Key(KeyCode::Char(c)) => AppModel { input: m.input.push(c), ..m },
        Event::Key(KeyCode::Backspace) => AppModel {
            input: if m.input.len() > 0 {
                m.input.drop_last()
            } else {
                m.input
            },
            ..m
        },
        Event::Key(KeyCode::Enter) => {
            let m1 = if m.input.len() > 0 {
                apply(m, spec_handle_input(m.rules, m.input), stamp)
            } else {
                m
            };
            AppModel { input: Seq::empty(), ..m1 }
        },
        Event::Key(KeyCode::Esc) => AppModel { should_exit: true, ..m },
        _ => m,
    }
}

/// Handles one terminal event, with `stamp` as the time of any reply line.
pub fn handle_event_at(app: &mut App, event: Event, stamp: &Vec<char>)
    requires
        rules_wf(old(app)@.rules),
    ensures
        rules_wf(final(app)@.rules),
        final(app)@ == spec_handle_event(old(app)@, event, stamp@),
{
    match event {
        Event::Key(KeyCode::Char(c)) => {
            string_push(&mut app.input, c);
        },
        Event::Key(KeyCode::Backspace) => {
            string_pop(&mut app.input);
        },
        Event::Key(KeyCode::Enter) => {
            let input = app.input.clone();
            if !input.as_str().is_empty() {
                handle_input_at(app, input.as_str(), stamp);
            }
            string_clear(&mut app.input);
        },
        Event::Key(KeyCode::Esc) => {
            app.should_exit = true;
        },
        _ => {},
    }
    assert(app@ =~= spec_handle_event(old(app)@, event, stamp@));
}

/// Handles one terminal event; a reply line carries the current local time.
pub fn handle_event(app: &mut App, event: Event)
    requires
        rules_wf(old(app)@.rules),
    ensures
        rules_wf(final(app)@.rules),
        exists|stamp: Seq<char>|
            is_hms(stamp) && final(app)@ == spec_handle_event(old(app)@, event, stamp),
{
    let now = local_time_hms();
    let stamp = chars_of(now.as_str());
    handle_event_at(app, event, &stamp);
}

} // verus!
