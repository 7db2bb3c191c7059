//! Text-entry widgets of the terminal client: what a key press does to the
//! text being typed. Drawing them is left to the caller.

use vstd::prelude::*;

use crate::layout::Config;

verus! {

/// A key press, as the widgets see it.
#[derive(Clone, Copy, PartialEq, Eq, Structural, Debug)]
pub enum Key {
    Char(char),
    Backspace,
    Enter,
    /// Any other key, or an event that is no key press.
    Other,
}

/// Relies on String::push: appends `c` to the text.
#[verifier::external_body]
fn push_char(s: &mut String, c: char)
    ensures
        final(s)@ == old(s)@.push(c),
{
    s.push(c)
}

/// Relies on String::pop: takes the last character off, if there is one.
#[verifier::external_body]
fn pop_char(s: &mut String) -> (r: Option<char>)
    ensures
        old(s)@.len() == 0 ==> r is None && final(s)@ == old(s)@,
        old(s)@.len() > 0 ==> r == Some(old(s)@.last()) && final(s)@ == old(s)@.drop_last(),
{
    s.pop()
}

/// The text after `key` is pressed on `text`.
pub open spec fn typed(text: Seq<char>, key: Key) -> Seq<char> {
    match key {
        Key::Char(c) => text.push(c),
        Key::Backspace => if text.len() == 0 {
            text
        } else {
            text.drop_last()
        },
        _ => text,
    }
}

/// Types `key` into `value`: a character is appended, Backspace takes the
/// last one off; both ask for a redraw (`Some(false)`). Enter submits
/// (`Some(true)`); anything else is ignored (`None`).
fn type_key(value: &mut String, key: Key) -> (r: Option<bool>)
    ensures
        final(value)@ == typed(old(value)@, key),
        r == match key {
            Key::Char(_) => Some(false),
            Key::Backspace => Some(false),
            Key::Enter => Some(true),
            Key::Other => None::<bool>,
        },
{
    match key {
        Key::Char(c) => {
            push_char(value, c);
            Some(false)
        },
        Key::Backspace => {
            let _ = pop_char(value);
            Some(false)
        },
        Key::Enter => Some(true),
        Key::Other => None,
    }
}

/// What an [`InputWidget`] asks of its caller after a key press.
#[derive(Clone, Copy, PartialEq, Eq, Structural, Debug)]
pub enum InputHandled {
    Redraw,
    Enter,
}

/// A labelled line of text entry, with a placeholder shown while empty.
#[derive(Debug)]
pub struct InputWidget {
    pub config: Config,
    pub x: u16,
    pub y: u16,
    pub label: String,
    pub placeholder: String,
    pub value: String,
}

impl InputWidget {
    pub fn new(label: String, placeholder: String, value: String, x: u16, y: u16, config: Config) -> (r:
        Self)
        ensures
            r.label == label,
            r.placeholder == placeholder,
            r.value == value,
            r.x == x,
            r.y == y,
            r.config == config,
    {
        InputWidget { config, x, y, label, placeholder, value }
    }

    /// Applies a key press (see [`typed`]).
    pub fn handle(&mut self, key: Key) -> (r: Option<InputHandled>)
        ensures
            final(self).value@ == typed(old(self).value@, key),
            final(self).label == old(self).label,
            final(self).placeholder == old(self).placeholder,
            final(self).config == old(self).config,
            final(self).x == old(self).x,
            final(self).y == old(self).y,
            r == match key {
                Key::Char(_) => Some(InputHandled::Redraw),
                Key::Backspace => Some(InputHandled::Redraw),
                Key::Enter => Some(InputHandled::Enter),
                Key::Other => None::<InputHandled>,
            },
    {
        match type_key(&mut self.value, key) {
            Some(true) => Some(InputHandled::Enter),
            Some(false) => Some(InputHandled::Redraw),
            None => None,
        }
    }
}

/// What a [`UserNameView`] asks of its caller after a key press.
#[derive(Clone, Copy, PartialEq, Eq, Structural, Debug)]
pub enum UserNameHandled {
    Redraw,
    Enter,
}

/// The view where a user types its name.
#[derive(Debug)]
pub struct UserNameView {
    pub config: Config,
    pub label: String,
    pub placeholder: String,
    pub value: String,
}

impl UserNameView {
    /// Applies a key press (see [`typed`]).
    pub fn handle(&mut self, key: Key) -> (r: Option<UserNameHandled>)
        ensures
            final(self).value@ == typed(old(self).value@, key),
            final(self).label == old(self).label,
            final(self).placeholder == old(self).placeholder,
            final(self).config == old(self).config,
            r == match key {
                Key::Char(_) => Some(UserNameHandled::Redraw),
                Key::Backspace => Some(UserNameHandled::Redraw),
                Key::Enter => Some(UserNameHandled::Enter),
                Key::Other => None::<UserNameHandled>,
            },
    {
        match type_key(&mut self.value, key) {
            Some(true) => Some(UserNameHandled::Enter),
            Some(false) => Some(UserNameHandled::Redraw),
            None => None,
        }
    }
}

/// What the welcome view asks of its caller after a key press.
#[derive(Clone, Copy, PartialEq, Eq, Structural, Debug)]
pub enum Flow {
    Redraw,
    Enter,
}

/// The first view: asks for a name.
#[derive(Debug)]
pub struct Welcome {
    pub config: Config,
    pub input: InputWidget,
}

impl Welcome {
    /// The name prompt, empty, at the top left.
    pub fn new(config: Config) -> (r: Self)
        ensures
            r.config == config,
            r.input.label@ == "Name: "@,
            r.input.placeholder@ == "<anon>"@,
            r.input.value@ == Seq::<char>::empty(),
            r.input.x == 1 && r.input.y == 1,
    {
        let input = InputWidget::new(
            String::from_str("Name: "),
            String::from_str("<anon>"),
            String::new(),
            1,
            1,
            config,
        );
        Welcome { config, input }
    }

    /// Passes a key press to the name prompt.
    pub fn handle(&mut self, key: Key) -> (r: Option<Flow>)
        ensures
            final(self).input.value@ == typed(old(self).input.value@, key),
            final(self).input.label == old(self).input.label,
            final(self).input.placeholder == old(self).input.placeholder,
            final(self).input.config == old(self).input.config,
            final(self).input.x == old(self).input.x,
            final(self).input.y == old(self).input.y,
            final(self).config == old(self).config,
            r == match key {
                Key::Char(_) => Some(Flow::Redraw),
                Key::Backspace => Some(Flow::Redraw),
                Key::Enter => Some(Flow::Enter),
                Key::Other => None::<Flow>,
            },
    {
        match self.input.handle(key) {
            Some(InputHandled::Redraw) => Some(Flow::Redraw),
            Some(InputHandled::Enter) => Some(Flow::Enter),
            None => None,
        }
    }
}

} // verus!
