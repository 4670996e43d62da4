use vstd::prelude::*;

verus! {

/// A keyboard key, as far as the game reads it: the four arrow keys, and
/// every other key folded into `Other`.
#[derive(Clone, Copy, Debug, PartialEq, Eq, Structural)]
pub enum Key {
    Up,
    Down,
    Left,
    Right,
    Other,
}

/// A mouse button, as far as the game reads it.
#[derive(Clone, Copy, Debug, PartialEq, Eq, Structural)]
pub enum MouseButton {
    Left,
    Right,
    Middle,
    Other,
}

/// A button event: a keyboard key, a mouse button, or a button of
/// another device (a game controller).
#[derive(Clone, Copy, Debug, PartialEq, Eq, Structural)]
pub enum Button {
    Keyboard(Key),
    Mouse(MouseButton),
    Other,
}

/// The arrow keys are the only keys the game reacts to.
pub open spec fn is_arrow(k: Key) -> bool {
    k != Key::Other
}

/// The keys held after `k` is pressed.
pub open spec fn pressed(held: Set<Key>, k: Key) -> Set<Key> {
    if is_arrow(k) { held.insert(k) } else { held }
}

/// The keys held after `k` is released.
pub open spec fn released(held: Set<Key>, k: Key) -> Set<Key> {
    held.remove(k)
}

/// The held arrow keys in the order in which a frame applies them:
/// up, down, left, right.
pub open spec fn moves_of(held: Set<Key>) -> Seq<Key> {
    (if held.contains(Key::Up) { seq![Key::Up] } else { Seq::empty() })
    + (if held.contains(Key::Down) { seq![Key::Down] } else { Seq::empty() })
    + (if held.contains(Key::Left) { seq![Key::Left] } else { Seq::empty() })
    + (if held.contains(Key::Right) { seq![Key::Right] } else { Seq::empty() })
}

/// Which arrow keys are held down. Each frame moves the player's tank by
/// the keys held; a key stays held from its press to its release.
pub struct Controls {
    up_d: bool,
    down_d: bool,
    left_d: bool,
    right_d: bool,
}

impl View for Controls {
    type V = Set<Key>;

    /// The set of arrow keys held down.
    closed spec fn view(&self) -> Set<Key> {
        Set::new(
            |k: Key|
                (k == Key::Up && self.up_d) || (k == Key::Down && self.down_d) || (k == Key::Left
                    && self.left_d) || (k == Key::Right && self.right_d),
        )
    }
}

impl Controls {
    /// No key held.
    pub fn new() -> (c: Controls)
        ensures
            c@ == Set::<Key>::empty(),
    {
        let c = Controls { up_d: false, down_d: false, left_d: false, right_d: false };
        assert(c@ =~= Set::<Key>::empty());
        c
    }

    /// Whether `k` is held down.
    pub fn is_held(&self, k: Key) -> (b: bool)
        ensures
            b == self@.contains(k),
    {
        match k {
            Key::Up => self.up_d,
            Key::Down => self.down_d,
            Key::Left => self.left_d,
            Key::Right => self.right_d,
            Key::Other => false,
        }
    }

    /// A key goes down: an arrow key becomes held, any other key is ignored.
    pub fn on_press(&mut self, key: Key)
        ensures
            final(self)@ == pressed(old(self)@, key),
    {
        match key {
            Key::Up => self.up_d = true,
            Key::Down => self.down_d = true,
            Key::Left => self.left_d = true,
            Key::Right => self.right_d = true,
            Key::Other => {},
        }
        assert(self@ =~= pressed(old(self)@, key));
    }

    /// A key goes up: it is no longer held.
    pub fn on_release(&mut self, key: Key)
        ensures
            final(self)@ == released(old(self)@, key),
    {
        match key {
            Key::Up => self.up_d = false,
            Key::Down => self.down_d = false,
            Key::Left => self.left_d = false,
            Key::Right => self.right_d = false,
            Key::Other => {},
        }
        assert(self@ =~= released(old(self)@, key));
    }

    /// A button goes down: a keyboard key is pressed; mouse and other
    /// buttons change nothing.
    pub fn on_button_press(&mut self, button: Button)
        ensures
            final(self)@ == (match button {
                Button::Keyboard(k) => pressed(old(self)@, k),
                _ => old(self)@,
            }),
    {
        match button {
            Button::Keyboard(k) => self.on_press(k),
            _ => {},
        }
    }

    /// A button goes up: a keyboard key is released; releasing the left
    /// mouse button fires a shot, which the result reports.
    pub fn on_button_release(&mut self, button: Button) -> (fire: bool)
        ensures
            final(self)@ == (match button {
                Button::Keyboard(k) => released(old(self)@, k),
                _ => old(self)@,
            }),
            fire == (button == Button::Mouse(MouseButton::Left)),
    {
        match button {
            Button::Keyboard(k) => {
                self.on_release(k);
                false
            },
            Button::Mouse(MouseButton::Left) => true,
            _ => false,
        }
    }

    /// The moves a frame applies, one per held arrow key, in the order
    /// up, down, left, right.
    pub fn moves(&self) -> (m: Vec<Key>)
        ensures
            m@ == moves_of(self@),
    {
        let mut m: Vec<Key> = Vec::new();
        if self.up_d {
            m.push(Key::Up);
        }
        if self.down_d {
            m.push(Key::Down);
        }
        if self.left_d {
            m.push(Key::Left);
        }
        if self.right_d {
            m.push(Key::Right);
        }
        assert(self@.contains(Key::Up) == self.up_d);
        assert(self@.contains(Key::Down) == self.down_d);
        assert(self@.contains(Key::Left) == self.left_d);
        assert(self@.contains(Key::Right) == self.right_d);
        assert(m@ =~= moves_of(self@));
        m
    }
}

/// Every state of the controls holds arrow keys only, and finitely many.
pub proof fn lemma_only_arrows_held(c: Controls)
    ensures
        forall|k: Key| #[trigger] c@.contains(k) ==> is_arrow(k),
        c@.finite(),
        c@.len() <= 4,
{
    let all = set![Key::Up, Key::Down, Key::Left, Key::Right];
    assert(c@.subset_of(all));
    vstd::set_lib::lemma_len_subset(c@, all);
    assert(all.len() == 4) by {
        assert(set![Key::Up].len() == 1);
        assert(set![Key::Up, Key::Down].len() == 2);
        assert(set![Key::Up, Key::Down, Key::Left].len() == 3);
    }
}

/// Releasing a key just after pressing it leaves the keys as releasing it
/// alone would: the press leaves no trace.
pub proof fn lemma_press_then_release(held: Set<Key>, k: Key)
    ensures
        released(pressed(held, k), k) == released(held, k),
{
    assert(released(pressed(held, k), k) =~= released(held, k));
}

/// Pressing a key just after releasing it leaves the keys as pressing it
/// alone would.
pub proof fn lemma_release_then_press(held: Set<Key>, k: Key)
    requires
        !held.contains(Key::Other),
    ensures
        pressed(released(held, k), k) == pressed(held, k),
{
    assert(pressed(released(held, k), k) =~= pressed(held, k));
}

/// Pressing a key that is already held changes nothing.
pub proof fn lemma_press_idempotent(held: Set<Key>, k: Key)
    ensures
        pressed(pressed(held, k), k) == pressed(held, k),
{
    assert(pressed(pressed(held, k), k) =~= pressed(held, k));
}

/// Events on two different keys may come in either order.
pub proof fn lemma_distinct_keys_commute(held: Set<Key>, a: Key, b: Key)
    requires
        a != b,
    ensures
        pressed(pressed(held, a), b) == pressed(pressed(held, b), a),
        released(released(held, a), b) == released(released(held, b), a),
        released(pressed(held, a), b) == pressed(released(held, b), a),
{
    assert(pressed(pressed(held, a), b) =~= pressed(pressed(held, b), a));
    assert(released(released(held, a), b) =~= released(released(held, b), a));
    assert(released(pressed(held, a), b) =~= pressed(released(held, b), a));
}

/// A frame applies each held arrow key exactly once, and no other key.
pub proof fn lemma_moves_are_the_held_keys(held: Set<Key>)
    requires
        !held.contains(Key::Other),
    ensures
        forall|k: Key| #[trigger] moves_of(held).contains(k) <==> held.contains(k),
        moves_of(held).no_duplicates(),
{
    let m = moves_of(held);
    assert forall|k: Key| #[trigger] m.contains(k) <==> held.contains(k) by {
        if held.contains(k) {
            match k {
                Key::Up => assert(m[0] == k),
                Key::Down => {
                    let i: int = if held.contains(Key::Up) { 1 } else { 0 };
                    assert(m[i] == k);
                },
                Key::Left => {
                    let i: int = (if held.contains(Key::Up) { 1int } else { 0int }) + (if held.contains(
                        Key::Down,
                    ) { 1int } else { 0int });
                    assert(m[i] == k);
                },
                Key::Right => {
                    let i: int = (if held.contains(Key::Up) { 1int } else { 0int }) + (if held.contains(
                        Key::Down,
                    ) { 1int } else { 0int }) + (if held.contains(Key::Left) { 1int } else { 0int });
                    assert(m[i] == k);
                },
                Key::Other => {},
            }
        }
    }
}

} // verus!
