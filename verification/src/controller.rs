//! The terminal client's decision logic: how one key event changes the model
//! and what, if anything, must be sent to the server.
//!
//! The surrounding input loop owns the terminal and the socket; it converts a
//! raw key press to a [`Key`], calls [`control_step`], and then performs the
//! returned action: send the composed line, or leave the loop.

use vstd::prelude::*;
use vstd::string::StringExecFns;

use crate::model::Model;
use crate::text::str_eq;

verus! {

/// An input event: a key press, or the periodic tick that redraws the screen.
pub enum Event<I> {
    Input(I),
    Tick,
}

/// The key presses the client reacts to.
pub enum Key {
    Esc,
    Enter,
    Char(char),
    Backspace,
    Up,
    Down,
    Other,
}

/// What the input loop must do after a step.
pub enum ControlAction {
    /// Leave the loop and restore the terminal.
    Exit,
    /// Publish this line to the server over a fresh connection.
    Send(String),
    /// Nothing to perform; redraw and keep listening.
    Idle,
}

/// The line that submitting the composer sends: on an existing channel the
/// composed text is filed under it; on the `+` entry the composed text names
/// a new channel.
pub open spec fn spec_compose(selected: Seq<char>, composed: Seq<char>) -> Seq<char> {
    if selected == "+"@ {
        "PUBLISH "@ + composed + ": Created the channel\n"@
    } else {
        "PUBLISH "@ + selected + ": "@ + composed + "\n"@
    }
}

/// One step of the client: apply one event to the model.
///
/// Escape asks the loop to exit; enter submits the composed email (creating
/// the channel first when `+` is selected) and clears the composer;
/// characters and backspace edit the composer; up and down move the channel
/// selection.  Everything else, the tick included, changes nothing.
pub fn control_step(model: &mut Model, event: Event<Key>) -> (a: ControlAction)
    ensures
        ({
            let m0 = *old(model);
            let m1 = *final(model);
            match event {
                Event::Input(Key::Esc) => m1 == m0 && a matches ControlAction::Exit,
                Event::Input(Key::Enter) => (a matches ControlAction::Send(line) && line@
                    == spec_compose(m0.selected_channel_name@, m0.composed_email_content@))
                    && m1.composed_email_content@ == Seq::<char>::empty() && m1.emails == m0.emails
                    && m1.selected_channel_name@ == (if m0.selected_channel_name@ == "+"@ {
                    m0.composed_email_content@
                } else {
                    m0.selected_channel_name@
                }),
                Event::Input(Key::Char(c)) => m1.composed_email_content@
                    == m0.composed_email_content@.push(c) && m1.selected_channel_name
                    == m0.selected_channel_name && m1.emails == m0.emails && a
                    matches ControlAction::Idle,
                Event::Input(Key::Backspace) => (m0.composed_email_content@.len() > 0
                    ==> m1.composed_email_content@ == m0.composed_email_content@.drop_last()) && (
                m0.composed_email_content@.len() == 0 ==> m1.composed_email_content
                    == m0.composed_email_content) && m1.selected_channel_name
                    == m0.selected_channel_name && m1.emails == m0.emails && a
                    matches ControlAction::Idle,
                Event::Input(Key::Up) => m1.composed_email_content == m0.composed_email_content
                    && m1.emails == m0.emails && m1.selected_channel_name@
                    == crate::model::spec_channels(m0)[if crate::model::spec_selected_idx(m0) > 0 {
                    crate::model::spec_selected_idx(m0) - 1
                } else {
                    0
                }] && a matches ControlAction::Idle,
                Event::Input(Key::Down) => m1.composed_email_content == m0.composed_email_content
                    && m1.emails == m0.emails && m1.selected_channel_name@
                    == crate::model::spec_channels(m0)[if crate::model::spec_selected_idx(m0) + 1
                    < crate::model::spec_channels(m0).len() {
                    crate::model::spec_selected_idx(m0) + 1
                } else {
                    crate::model::spec_channels(m0).len() - 1
                }] && a matches ControlAction::Idle,
                Event::Input(Key::Other) => m1 == m0 && a matches ControlAction::Idle,
                Event::Tick => m1 == m0 && a matches ControlAction::Idle,
            }
        }),
{
    match event {
        Event::Input(Key::Esc) => ControlAction::Exit,
        Event::Input(Key::Enter) => ControlAction::Send(on_enter(model)),
        Event::Input(Key::Char(c)) => {
            model.composed_push(c);
            ControlAction::Idle
        },
        Event::Input(Key::Backspace) => {
            model.composed_backspace();
            ControlAction::Idle
        },
        Event::Input(Key::Up) => {
            model.dec_channel();
            ControlAction::Idle
        },
        Event::Input(Key::Down) => {
            model.inc_channel();
            ControlAction::Idle
        },
        Event::Input(Key::Other) => ControlAction::Idle,
        Event::Tick => ControlAction::Idle,
    }
}

/// Submit the composed email: build the line to publish, select the freshly
/// created channel when `+` was selected, and clear the composer.
fn on_enter(model: &mut Model) -> (line: String)
    ensures
        line@ == spec_compose(
            old(model).selected_channel_name@,
            old(model).composed_email_content@,
        ),
        final(model).composed_email_content@ == Seq::<char>::empty(),
        final(model).emails == old(model).emails,
        final(model).selected_channel_name@ == (if old(model).selected_channel_name@ == "+"@ {
            old(model).composed_email_content@
        } else {
            old(model).selected_channel_name@
        }),
{
    let composed = model.composed();
    let selected = model.selected_channel_name();
    let line = if str_eq(selected.as_str(), "+") {
        let mut s = String::from_str("PUBLISH ");
        s.append(composed.as_str());
        s.append(": Created the channel\n");
        s
    } else {
        let mut s = String::from_str("PUBLISH ");
        s.append(selected.as_str());
        s.append(": ");
        s.append(composed.as_str());
        s.append("\n");
        s
    };
    if str_eq(selected.as_str(), "+") {
        model.select_channel(composed.as_str());
    }
    model.composed_clear();
    line
}

} // verus!
