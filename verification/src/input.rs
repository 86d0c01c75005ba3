use vstd::prelude::*;

verus! {

/// Whether a key went down, repeats while held, or came up.
#[derive(Clone, Copy, Debug, PartialEq, Eq, Structural)]
pub enum KeyKind {
    Press,
    Repeat,
    Release,
}

/// The keys the simulator tells apart; every other key is `Other`.
#[derive(Clone, Copy, Debug, PartialEq, Eq, Structural)]
pub enum Key {
    Esc,
    Char(char),
    Up,
    Down,
    Left,
    Right,
    Other,
}

/// The modifier keys held with a key.
#[derive(Clone, Copy, Debug, PartialEq, Eq, Structural)]
pub struct Modifiers {
    pub shift: bool,
    pub control: bool,
    pub alt: bool,
    pub super_key: bool,
    pub hyper: bool,
    pub meta: bool,
}

/// One key event as the simulator reads it.
#[derive(Clone, Copy, Debug, PartialEq, Eq, Structural)]
pub struct KeyInput {
    pub kind: KeyKind,
    pub code: Key,
    pub modifiers: Modifiers,
}

/// What the driver asks of the robot.
#[derive(Clone, Copy, Debug, PartialEq, Eq, Structural)]
pub enum Intent {
    /// Drive forward at the move speed.
    Forward,
    /// Drive backward at the move speed.
    Backward,
    /// Turn clockwise at the turn speed.
    TurnClockwise,
    /// Turn counter-clockwise at the turn speed.
    TurnCounterClockwise,
    /// Stand still.
    Stop,
    /// End the simulation.
    Quit,
}

/// Control held alone, with no other modifier.
pub open spec fn control_only(m: Modifiers) -> bool {
    m.control && !m.shift && !m.alt && !m.super_key && !m.hyper && !m.meta
}

/// The intent a key event asks for, if any.
///
/// Esc always quits, and so does Ctrl+C (a `c` or `C` with control and no
/// other modifier); another `c` or `C` asks for nothing.  Releasing an
/// arrow stops; pressing or holding Up, Down, Right, Left drives forward,
/// backward, clockwise and counter-clockwise.  Any other key stops.
pub open spec fn key_intent(key: KeyInput) -> Option<Intent> {
    match key.code {
        Key::Esc => Some(Intent::Quit),
        Key::Char(c) if c == 'c' || c == 'C' => if control_only(key.modifiers) {
            Some(Intent::Quit)
        } else {
            None
        },
        _ => if key.kind is Release {
            Some(Intent::Stop)
        } else {
            match key.code {
                Key::Up => Some(Intent::Forward),
                Key::Down => Some(Intent::Backward),
                Key::Right => Some(Intent::TurnClockwise),
                Key::Left => Some(Intent::TurnCounterClockwise),
                _ => Some(Intent::Stop),
            }
        },
    }
}

/// Whether a key event ends the simulation: Esc with any modifiers, or a
/// `c` or `C` held with control and no other modifier.
pub open spec fn quits(key: KeyInput) -> bool {
    ||| key.code is Esc
    ||| {
        &&& key.code matches Key::Char(c) && (c == 'c' || c == 'C')
        &&& key.modifiers.control
        &&& !key.modifiers.shift
        &&& !key.modifiers.alt
        &&& !key.modifiers.super_key
        &&& !key.modifiers.hyper
        &&& !key.modifiers.meta
    }
}

/// Whether a key event drives the robot with `intent`: Up, Down, Right
/// and Left pressed or held drive forward, backward, clockwise and
/// counter-clockwise.
pub open spec fn moves(key: KeyInput, intent: Intent) -> bool {
    &&& !(key.kind is Release)
    &&& match intent {
        Intent::Forward => key.code is Up,
        Intent::Backward => key.code is Down,
        Intent::TurnClockwise => key.code is Right,
        Intent::TurnCounterClockwise => key.code is Left,
        _ => false,
    }
}

/// What a key event asks for, case by case: it quits exactly on Esc and on
/// Ctrl+C; a `c` or `C` without control alone asks for nothing; an arrow
/// pressed or held drives; every other key, and every released key other
/// than Esc and Ctrl+C, stops the robot.
pub proof fn lemma_key_intent(key: KeyInput)
    ensures
        quits(key) <==> key_intent(key) == Some(Intent::Quit),
        key_intent(key) is None <==> (key.code matches Key::Char(c) && (c == 'c' || c == 'C')
            && !quits(key)),
        forall|i: Intent| #[trigger] moves(key, i) ==> key_intent(key) == Some(i),
        !quits(key) && !(key.code matches Key::Char(c) && (c == 'c' || c == 'C')) && !(exists|
            i: Intent,
        | #[trigger] moves(key, i)) ==> key_intent(key) == Some(Intent::Stop),
{
    if !quits(key) && !(key.code matches Key::Char(c) && (c == 'c' || c == 'C')) && key_intent(key)
        != Some(Intent::Stop) {
        let i = key_intent(key)->0;
        assert(moves(key, i));
    }
}

impl Modifiers {
    /// Whether control is held alone.
    pub fn is_control_only(&self) -> (r: bool)
        ensures
            r == control_only(*self),
    {
        self.control && !self.shift && !self.alt && !self.super_key && !self.hyper && !self.meta
    }
}

impl KeyInput {
    /// The intent this key event asks for; `None` where it asks for none.
    pub fn intent(&self) -> (r: Option<Intent>)
        ensures
            r == key_intent(*self),
            self.code is Esc ==> r == Some(Intent::Quit),
            r is None <==> (self.code matches Key::Char(c) && (c == 'c' || c == 'C') && !control_only(
                self.modifiers,
            )),
            quits(*self) <==> r == Some(Intent::Quit),
            forall|i: Intent| #[trigger] moves(*self, i) ==> r == Some(i),
            !quits(*self) && !(self.code matches Key::Char(c) && (c == 'c' || c == 'C')) && !(exists|
                i: Intent,
            | #[trigger] moves(*self, i)) ==> r == Some(Intent::Stop),
    {
        proof {
            lemma_key_intent(*self);
        }
        match self.code {
            Key::Esc => Some(Intent::Quit),
            Key::Char(c) if c == 'c' || c == 'C' => {
                if self.modifiers.is_control_only() {
                    Some(Intent::Quit)
                } else {
                    None
                }
            },
            _ => match (self.kind, self.code) {
                (KeyKind::Release, Key::Up)
                | (KeyKind::Release, Key::Down)
                | (KeyKind::Release, Key::Right)
                | (KeyKind::Release, Key::Left) => Some(Intent::Stop),
                (KeyKind::Press, Key::Up) | (KeyKind::Repeat, Key::Up) => Some(Intent::Forward),
                (KeyKind::Press, Key::Down) | (KeyKind::Repeat, Key::Down) => Some(
                    Intent::Backward,
                ),
                (KeyKind::Press, Key::Right) | (KeyKind::Repeat, Key::Right) => Some(
                    Intent::TurnClockwise,
                ),
                (KeyKind::Press, Key::Left) | (KeyKind::Repeat, Key::Left) => Some(
                    Intent::TurnCounterClockwise,
                ),
                _ => Some(Intent::Stop),
            },
        }
    }
}

} // verus!
