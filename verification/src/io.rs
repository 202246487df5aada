use vstd::prelude::*;
use crate::geom::{Vec2, LIT_MAX};

verus! {

/// A key of the frame's input snapshot.
#[derive(Clone, Copy, PartialEq, Eq, Structural, Debug)]
pub enum Key {
    A,
    B,
    C,
    D,
    E,
    F,
    G,
    H,
    I,
    J,
    K,
    L,
    M,
    N,
    O,
    P,
    Q,
    R,
    S,
    T,
    U,
    V,
    W,
    X,
    Y,
    Z,
    Num0,
    Num1,
    Num2,
    Num3,
    Num4,
    Num5,
    Num6,
    Num7,
    Num8,
    Num9,
    F1,
    F2,
    F3,
    F4,
    F5,
    F6,
    F7,
    F8,
    F9,
    F10,
    F11,
    F12,
    Shift,
    Control,
    Alt,
    Meta,
    CapsLock,
    NumLock,
    ScrollLock,
    Home,
    End,
    PageUp,
    PageDown,
    Insert,
    Delete,
    LeftArrow,
    RightArrow,
    UpArrow,
    DownArrow,
    Escape,
    Space,
    Enter,
    Backspace,
    Tab,
    Pause,
    PrintScreen,
    Menu,
    Power,
    Sleep,
    Wake,
    Null,
}

/// A mouse button of the frame's input snapshot.
#[derive(Clone, Copy, PartialEq, Eq, Structural, Debug)]
pub enum Mouse {
    Left,
    Right,
    Middle,
    Null,
}

/// The device a press or release came from.
#[derive(Clone, Copy, PartialEq, Eq, Structural, Debug)]
pub enum Dev {
    Key(Key),
    Mouse(Mouse),
}

/// A window-level happening.
#[derive(Clone, Copy, PartialEq, Eq, Structural, Debug)]
pub enum Win {
    Resize,
}

/// One discretized input event of the frame.
#[derive(Clone, Copy, PartialEq, Eq, Structural, Debug)]
pub enum On {
    Press(Dev),
    Release(Dev),
    Window(Win),
}

/// A message a listener addresses to the hosting application.
#[derive(Clone, Copy, PartialEq, Eq, Structural, Debug)]
pub enum Message {
    Num(i64),
    Tup(i64, i64),
    Nil,
}

/// The per-frame environment snapshot: viewport size, pooled input events,
/// scroll delta and the frame-scoped outbound signal queue.
pub struct Io {
    pub window_size: Vec2,
    pub input: Vec<On>,
    pub scroll: i64,
    pub queue: Vec<(u64, Message)>,
}

impl Io {
    pub open spec fn wf(self) -> bool {
        &&& 0 <= self.window_size.x <= LIT_MAX
        &&& 0 <= self.window_size.y <= LIT_MAX
    }

    pub fn new() -> (r: Io)
        ensures
            r.window_size == (Vec2 { x: 0, y: 0 }),
            r.input@ == Seq::<On>::empty(),
            r.scroll == 0,
            r.queue@ == Seq::<(u64, Message)>::empty(),
            r.wf(),
    {
        Io { window_size: Vec2 { x: 0, y: 0 }, input: Vec::new(), scroll: 0, queue: Vec::new() }
    }

    /// Pools one event into the frame's input snapshot.
    pub fn pool(&mut self, event: On)
        ensures
            final(self).input@ == old(self).input@.push(event),
            final(self).window_size == old(self).window_size,
            final(self).scroll == old(self).scroll,
            final(self).queue@ == old(self).queue@,
    {
        self.input.push(event);
    }

    /// Clears the pooled events and the scroll delta at the end of a frame.
    pub fn clean(&mut self)
        ensures
            final(self).input@ == Seq::<On>::empty(),
            final(self).scroll == 0,
            final(self).window_size == old(self).window_size,
            final(self).queue@ == old(self).queue@,
    {
        self.input.clear();
        self.scroll = 0;
    }

    /// True when `event` was pooled this frame.
    pub fn saw(&self, event: On) -> (r: bool)
        ensures
            r == self.input@.contains(event),
    {
        let n = self.input.len();
        let mut i: usize = 0;
        while i < n
            invariant
                i <= n,
                n == self.input@.len(),
                forall|j: int| 0 <= j < i ==> self.input@[j] != event,
            decreases n - i,
        {
            if self.input[i] == event {
                assert(self.input@[i as int] == event);
                return true;
            }
            i += 1;
        }
        false
    }
}

} // verus!
