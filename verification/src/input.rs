//! Input events of the client, as far as authentication tells them apart.
use vstd::prelude::*;
use vstd::utf8::encode_utf8;

verus! {

#[derive(Clone, Copy, Debug, PartialEq, Eq, Structural)]
pub enum KeyCode {
    Esc,
    Other,
}

#[derive(Clone, Copy, Debug, PartialEq, Eq, Structural)]
pub enum KeyEventKind {
    Press,
    Repeat,
    Release,
}

/// A key, with the bytes that a terminal of the legacy keyboard protocol gets for it.
#[derive(Debug, PartialEq, Eq)]
pub struct KeyInput {
    pub code: KeyCode,
    pub kind: KeyEventKind,
    pub legacy: Vec<u8>,
}

#[derive(Clone, Copy, Debug, PartialEq, Eq, Structural)]
pub enum MouseButton {
    Left,
    Right,
    Middle,
}

#[derive(Clone, Copy, Debug, PartialEq, Eq, Structural)]
pub enum MouseEventKind {
    Down(MouseButton),
    Up(MouseButton),
    Drag(MouseButton),
    Moved,
    Scroll,
}

#[derive(Clone, Copy, Debug, PartialEq, Eq, Structural)]
pub struct MouseInput {
    pub kind: MouseEventKind,
    pub column: u16,
    pub row: u16,
}

#[derive(Debug, PartialEq, Eq)]
pub enum RawInputEvent {
    Key(KeyInput),
    Mouse(MouseInput),
    Text(String),
    Paste(String),
    Other,
}

impl RawInputEvent {
    /// What the event sends to a terminal that takes keys, text and pastes.
    pub open spec fn typed(&self) -> Seq<u8> {
        match self {
            RawInputEvent::Key(key) => key.legacy@,
            RawInputEvent::Text(text) => encode_utf8(text@),
            RawInputEvent::Paste(text) => encode_utf8(text@),
            RawInputEvent::Mouse(_) | RawInputEvent::Other => seq![],
        }
    }

    /// Appends what the event sends to a terminal.
    pub fn type_into(&self, bytes: &mut Vec<u8>)
        ensures
            final(bytes)@ == old(bytes)@ + self.typed(),
    {
        match self {
            RawInputEvent::Key(key) => {
                let mut sent = key.legacy.clone();
                assert(sent@ =~= key.legacy@);
                bytes.append(&mut sent);
            },
            RawInputEvent::Text(text) => {
                let mut sent = text.as_str().as_bytes_vec();
                bytes.append(&mut sent);
            },
            RawInputEvent::Paste(text) => {
                let mut sent = text.as_str().as_bytes_vec();
                bytes.append(&mut sent);
            },
            RawInputEvent::Mouse(_) | RawInputEvent::Other => {
                assert(bytes@ + seq![] =~= bytes@);
            },
        }
    }
}

/// What all the events send to a terminal, one after the other.
pub open spec fn all_typed(events: Seq<RawInputEvent>) -> Seq<u8>
    decreases events.len(),
{
    if events.len() == 0 {
        seq![]
    } else {
        all_typed(events.drop_last()) + events.last().typed()
    }
}

} // verus!
