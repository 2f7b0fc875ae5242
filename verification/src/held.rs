//! Held-key / held-button / modifier tracking across screen crossings.
//!
//! On a crossing the coordinator releases everything on the old active
//! screen (no stuck keys) and re-presses the held modifiers on the new
//! one, so `Shift+A` typed across the border still gives a capital `A`.
//! Non-modifier keys and mouse buttons are released on the old side and
//! never re-pressed on the new side.

use vstd::prelude::*;

use crate::common::{mask_contains, ButtonId, KeyId, ModifierMask};
use crate::platform::InputEvent;
use crate::protocol::{lemma_msg_views_push, msg_views, Message, MessageView};
use crate::sorted::{sorted_insert, sorted_remove, strictly_sorted};

verus! {

/// The eight modifier flags in their fixed release/replay order:
/// Shift, Ctrl, Alt, Meta, Caps Lock, Num Lock, Scroll Lock, AltGr.
pub open spec fn modifier_flag(i: int) -> u32 {
    if i == 0 {
        0x0001
    } else if i == 1 {
        0x0002
    } else if i == 2 {
        0x0004
    } else if i == 3 {
        0x0008
    } else if i == 4 {
        0x1000
    } else if i == 5 {
        0x2000
    } else if i == 6 {
        0x4000
    } else {
        0x0020
    }
}

/// The keysym re-pressed for modifier `i`: always the left-side key.
pub open spec fn modifier_key(i: int) -> u32 {
    if i == 0 {
        0xffe1
    } else if i == 1 {
        0xffe3
    } else if i == 2 {
        0xffe9
    } else if i == 3 {
        0xffe7
    } else if i == 4 {
        0xffe5
    } else if i == 5 {
        0xff7f
    } else if i == 6 {
        0xff14
    } else {
        0xfe03
    }
}

/// Keysyms of the modifiers among the first `n` flags that `mods` holds,
/// in flag order.
pub open spec fn held_modifier_keys(mods: u32, n: nat) -> Seq<u32>
    decreases n,
{
    if n == 0 {
        Seq::empty()
    } else {
        let prev = held_modifier_keys(mods, (n - 1) as nat);
        if mask_contains(mods, modifier_flag(n - 1)) {
            prev.push(modifier_key(n - 1))
        } else {
            prev
        }
    }
}

/// Is this keysym one of the modifier keys?
pub open spec fn is_modifier_sym(k: u32) -> bool {
    k == 0xffe1 || k == 0xffe2 || k == 0xffe3 || k == 0xffe4 || k == 0xffe9 || k == 0xffea || k
        == 0xffe7 || k == 0xffe8 || k == 0xffeb || k == 0xffec || k == 0xffe5 || k == 0xff7f || k
        == 0xff14 || k == 0xfe03
}

/// Key-up messages with an empty mask for each keysym.
pub open spec fn key_up_msgs(keys: Seq<u32>) -> Seq<MessageView> {
    keys.map_values(|k: u32| MessageView::KeyUp { key: KeyId(k), mods: ModifierMask(0) })
}

/// Key-down messages carrying `mods` for each keysym.
pub open spec fn key_down_msgs(keys: Seq<u32>, mods: ModifierMask) -> Seq<MessageView> {
    keys.map_values(|k: u32| MessageView::KeyDown { key: KeyId(k), mods })
}

/// Button-release messages for each button.
pub open spec fn button_up_msgs(buttons: Seq<u32>) -> Seq<MessageView> {
    buttons.map_values(|b: u32| MessageView::MouseButton { button: ButtonId(b as u8), down: false })
}

/// Is this keysym a modifier key? Modifiers live in the mask, not in the
/// held-key set.
pub fn is_modifier_keysym(keysym: u32) -> (r: bool)
    ensures
        r == is_modifier_sym(keysym),
{
    keysym == 0xffe1 || keysym == 0xffe2 || keysym == 0xffe3 || keysym == 0xffe4 || keysym
        == 0xffe9 || keysym == 0xffea || keysym == 0xffe7 || keysym == 0xffe8 || keysym == 0xffeb
        || keysym == 0xffec || keysym == 0xffe5 || keysym == 0xff7f || keysym == 0xff14 || keysym
        == 0xfe03
}

fn flag_at(i: usize) -> (f: u32)
    requires
        i < 8,
    ensures
        f == modifier_flag(i as int),
{
    if i == 0 {
        0x0001
    } else if i == 1 {
        0x0002
    } else if i == 2 {
        0x0004
    } else if i == 3 {
        0x0008
    } else if i == 4 {
        0x1000
    } else if i == 5 {
        0x2000
    } else if i == 6 {
        0x4000
    } else {
        0x0020
    }
}

fn key_at(i: usize) -> (k: u32)
    requires
        i < 8,
    ensures
        k == modifier_key(i as int),
{
    if i == 0 {
        0xffe1
    } else if i == 1 {
        0xffe3
    } else if i == 2 {
        0xffe9
    } else if i == 3 {
        0xffe7
    } else if i == 4 {
        0xffe5
    } else if i == 5 {
        0xff7f
    } else if i == 6 {
        0xff14
    } else {
        0xfe03
    }
}

/// Tracked input state on the active screen.
#[derive(Debug, PartialEq, Eq)]
pub struct HeldState {
    /// Non-modifier keysyms currently pressed, ascending.
    keys: Vec<u32>,
    /// Mouse buttons currently pressed, ascending.
    buttons: Vec<u32>,
    /// Modifier mask after the last observed key event.
    mods: ModifierMask,
}

/// Mathematical value of a [`HeldState`].
#[verifier::ext_equal]
pub struct HeldView {
    /// Held non-modifier keysyms, ascending.
    pub keys: Seq<u32>,
    /// Held mouse buttons, ascending.
    pub buttons: Seq<u32>,
    /// The modifier mask after the last key event.
    pub mods: ModifierMask,
}

impl View for HeldState {
    type V = HeldView;

    closed spec fn view(&self) -> HeldView {
        HeldView { keys: self.keys@, buttons: self.buttons@, mods: self.mods }
    }
}

/// Both held sets are in ascending order.
pub open spec fn held_ordered(h: HeldView) -> bool {
    strictly_sorted(h.keys) && strictly_sorted(h.buttons)
}

/// `g` is what applying `event` to `h` gives: key-downs add non-modifier
/// keys to the held set and key-ups remove them, both taking the event's
/// mask; button presses and releases add and remove buttons; moves and
/// wheel scrolls change nothing.
pub open spec fn held_apply(h: HeldView, event: InputEvent, g: HeldView) -> bool {
    &&& held_ordered(g)
    &&& match event {
        InputEvent::KeyDown { key, mods } => {
            &&& g.keys.to_set() == (if is_modifier_sym(key.0) {
                h.keys.to_set()
            } else {
                h.keys.to_set().insert(key.0)
            })
            &&& g.buttons == h.buttons
            &&& g.mods == mods
        },
        InputEvent::KeyUp { key, mods } => {
            &&& g.keys.to_set() == h.keys.to_set().remove(key.0)
            &&& g.buttons == h.buttons
            &&& g.mods == mods
        },
        InputEvent::MouseButton { button, down } => {
            &&& g.keys == h.keys
            &&& g.buttons.to_set() == (if down {
                h.buttons.to_set().insert(button.0 as u32)
            } else {
                h.buttons.to_set().remove(button.0 as u32)
            })
            &&& g.mods == h.mods
        },
        _ => g == h,
    }
}

/// Release messages for everything held: non-modifier keys up
/// (ascending), buttons up (ascending), then modifiers up in flag order.
pub open spec fn leave_msgs(h: HeldView) -> Seq<MessageView> {
    key_up_msgs(h.keys) + button_up_msgs(h.buttons) + key_up_msgs(held_modifier_keys(h.mods.0, 8))
}

/// What stays held after leaving a screen: the keys and buttons were
/// released there and are forgotten; the modifier mask is kept, to be
/// re-pressed on the screen entered.
pub open spec fn held_after_leaving(h: HeldView) -> HeldView {
    HeldView { keys: Seq::empty(), buttons: Seq::empty(), mods: h.mods }
}

/// Re-press messages for the held modifiers, in flag order.
pub open spec fn enter_msgs(h: HeldView) -> Seq<MessageView> {
    key_down_msgs(held_modifier_keys(h.mods.0, 8), h.mods)
}

impl HeldState {
    #[verifier::type_invariant]
    closed spec fn ordered(self) -> bool {
        &&& strictly_sorted(self.keys@)
        &&& strictly_sorted(self.buttons@)
        &&& forall|i: int| 0 <= i < self.buttons@.len() ==> self.buttons@[i] < 256
    }

    /// Nothing held.
    pub fn new() -> (h: HeldState)
        ensures
            h@.keys.len() == 0,
            h@.buttons.len() == 0,
            h@.mods == ModifierMask(0),
    {
        HeldState { keys: Vec::new(), buttons: Vec::new(), mods: ModifierMask(0) }
    }

    /// Apply one observed event (see [`held_apply`]).
    pub fn apply(&mut self, event: &InputEvent)
        ensures
            held_apply(old(self)@, *event, final(self)@),
    {
        proof {
            use_type_invariant(&*self);
        }
        match *event {
            InputEvent::KeyDown { key, mods } => {
                let mut keys: Vec<u32> = Vec::new();
                std::mem::swap(&mut keys, &mut self.keys);
                if !is_modifier_keysym(key.0) {
                    sorted_insert(&mut keys, key.0);
                }
                self.keys = keys;
                self.mods = mods;
            },
            InputEvent::KeyUp { key, mods } => {
                let mut keys: Vec<u32> = Vec::new();
                std::mem::swap(&mut keys, &mut self.keys);
                sorted_remove(&mut keys, key.0);
                self.keys = keys;
                self.mods = mods;
            },
            InputEvent::MouseButton { button, down } => {
                let mut buttons: Vec<u32> = Vec::new();
                std::mem::swap(&mut buttons, &mut self.buttons);
                let ghost before = buttons@;
                if down {
                    sorted_insert(&mut buttons, button.0 as u32);
                } else {
                    sorted_remove(&mut buttons, button.0 as u32);
                }
                assert forall|i: int| 0 <= i < buttons@.len() implies buttons@[i] < 256 by {
                    assert(buttons@.to_set().contains(buttons@[i]));
                    assert(before.contains(buttons@[i]) || buttons@[i] == button.0 as u32);
                }
                self.buttons = buttons;
            },
            _ => {},
        }
    }

    /// Messages that release everything on the old active screen before
    /// leaving it: held non-modifier keys up (ascending), held buttons up
    /// (ascending), then the held modifiers up in flag order. Every key-up
    /// carries an empty mask.
    pub fn leave_messages(&self) -> (out: Vec<Message>)
        ensures
            msg_views(out@) == leave_msgs(self@),
            held_ordered(self@),
    {
        proof {
            use_type_invariant(self);
        }
        let mut out: Vec<Message> = Vec::new();
        let nk = self.keys.len();
        let mut i: usize = 0;
        while i < nk
            invariant
                nk == self.keys@.len(),
                i <= nk,
                msg_views(out@) == key_up_msgs(self.keys@.subrange(0, i as int)),
            decreases nk - i,
        {
            let m = Message::KeyUp { key: KeyId(self.keys[i]), mods: ModifierMask(0) };
            proof {
                lemma_msg_views_push(out@, m);
                assert(self.keys@.subrange(0, i + 1) =~= self.keys@.subrange(0, i as int).push(
                    self.keys@[i as int],
                ));
                assert(key_up_msgs(self.keys@.subrange(0, i + 1)) =~= key_up_msgs(
                    self.keys@.subrange(0, i as int),
                ).push(m@));
            }
            out.push(m);
            i = i + 1;
        }
        assert(self.keys@.subrange(0, nk as int) =~= self.keys@);
        let ghost base = msg_views(out@);
        let nb = self.buttons.len();
        let mut j: usize = 0;
        while j < nb
            invariant
                nb == self.buttons@.len(),
                j <= nb,
                forall|t: int| 0 <= t < self.buttons@.len() ==> self.buttons@[t] < 256,
                msg_views(out@) == base + button_up_msgs(
                    self.buttons@.subrange(0, j as int),
                ),
            decreases nb - j,
        {
            let m = Message::MouseButton { button: ButtonId(self.buttons[j] as u8), down: false };
            proof {
                lemma_msg_views_push(out@, m);
                assert(self.buttons@.subrange(0, j + 1) =~= self.buttons@.subrange(0, j as int).push(
                    self.buttons@[j as int],
                ));
                assert(button_up_msgs(self.buttons@.subrange(0, j + 1)) =~= button_up_msgs(
                    self.buttons@.subrange(0, j as int),
                ).push(m@));
            }
            out.push(m);
            j = j + 1;
        }
        assert(self.buttons@.subrange(0, nb as int) =~= self.buttons@);
        let ghost base2 = msg_views(out@);
        let mut f: usize = 0;
        while f < 8
            invariant
                f <= 8,
                msg_views(out@) == base2 + key_up_msgs(
                    held_modifier_keys(self.mods.0, f as nat),
                ),
            decreases 8 - f,
        {
            let ghost prev = held_modifier_keys(self.mods.0, f as nat);
            if self.mods.contains(ModifierMask(flag_at(f))) {
                let m = Message::KeyUp { key: KeyId(key_at(f)), mods: ModifierMask(0) };
                proof {
                    lemma_msg_views_push(out@, m);
                    assert(key_up_msgs(prev.push(modifier_key(f as int))) =~= key_up_msgs(prev).push(
                        m@,
                    ));
                }
                out.push(m);
            }
            f = f + 1;
        }
        out
    }

    /// Messages that restore the held modifiers on the new active screen:
    /// one key-down per held modifier in flag order, each carrying the
    /// current mask. Non-modifier keys and buttons are not re-pressed.
    pub fn enter_messages(&self) -> (out: Vec<Message>)
        ensures
            msg_views(out@) == enter_msgs(self@),
    {
        let mut out: Vec<Message> = Vec::new();
        let mut f: usize = 0;
        while f < 8
            invariant
                f <= 8,
                msg_views(out@) == key_down_msgs(
                    held_modifier_keys(self.mods.0, f as nat),
                    self.mods,
                ),
            decreases 8 - f,
        {
            let ghost prev = held_modifier_keys(self.mods.0, f as nat);
            if self.mods.contains(ModifierMask(flag_at(f))) {
                let m = Message::KeyDown { key: KeyId(key_at(f)), mods: self.mods };
                proof {
                    lemma_msg_views_push(out@, m);
                    assert(key_down_msgs(prev.push(modifier_key(f as int)), self.mods)
                        =~= key_down_msgs(prev, self.mods).push(m@));
                }
                out.push(m);
            }
            f = f + 1;
        }
        out
    }

    /// Is at least one mouse button held down right now?
    pub fn any_button_held(&self) -> (r: bool)
        ensures
            r == (self@.buttons.len() > 0),
    {
        self.buttons.len() > 0
    }

    /// Current modifier mask.
    pub fn mods(&self) -> (m: ModifierMask)
        ensures
            m == self@.mods,
    {
        self.mods
    }

    /// Forget the held keys and buttons once they were released on the
    /// screen being left (see [`held_after_leaving`]).
    pub fn forget_released(&mut self)
        ensures
            final(self)@ == held_after_leaving(old(self)@),
    {
        let mods = self.mods;
        *self = HeldState { keys: Vec::new(), buttons: Vec::new(), mods };
        assert(self@ =~= held_after_leaving(old(self)@));
    }
}

impl Default for HeldState {
    fn default() -> (h: HeldState)
        ensures
            h@.keys.len() == 0,
            h@.buttons.len() == 0,
            h@.mods == ModifierMask(0),
    {
        HeldState::new()
    }
}

/// No stuck keys: leaving a screen releases every held key and button
/// there, and every held modifier.
pub proof fn lemma_leave_releases_everything(h: HeldView)
    ensures
        forall|k: u32|
            h.keys.contains(k) ==> leave_msgs(h).contains(
                MessageView::KeyUp { key: KeyId(k), mods: ModifierMask(0) },
            ),
        forall|b: u32|
            h.buttons.contains(b) ==> leave_msgs(h).contains(
                MessageView::MouseButton { button: ButtonId(b as u8), down: false },
            ),
        forall|k: u32|
            held_modifier_keys(h.mods.0, 8).contains(k) ==> leave_msgs(h).contains(
                MessageView::KeyUp { key: KeyId(k), mods: ModifierMask(0) },
            ),
{
    let a = key_up_msgs(h.keys);
    let b = button_up_msgs(h.buttons);
    let c = key_up_msgs(held_modifier_keys(h.mods.0, 8));
    assert(leave_msgs(h) == a + b + c);
    assert forall|k: u32| h.keys.contains(k) implies leave_msgs(h).contains(
        MessageView::KeyUp { key: KeyId(k), mods: ModifierMask(0) },
    ) by {
        let i = choose|i: int| 0 <= i < h.keys.len() && h.keys[i] == k;
        assert((a + b + c)[i] == a[i]);
    }
    assert forall|x: u32| h.buttons.contains(x) implies leave_msgs(h).contains(
        MessageView::MouseButton { button: ButtonId(x as u8), down: false },
    ) by {
        let i = choose|i: int| 0 <= i < h.buttons.len() && h.buttons[i] == x;
        assert((a + b + c)[a.len() + i] == b[i]);
    }
    assert forall|k: u32| held_modifier_keys(h.mods.0, 8).contains(k) implies leave_msgs(h).contains(
        MessageView::KeyUp { key: KeyId(k), mods: ModifierMask(0) },
    ) by {
        let m = held_modifier_keys(h.mods.0, 8);
        let i = choose|i: int| 0 <= i < m.len() && m[i] == k;
        assert((a + b + c)[a.len() + b.len() + i] == c[i]);
    }
}

/// The modifiers a crossing re-presses are modifier keys only.
proof fn lemma_held_modifier_keys_are_modifiers(mods: u32, n: nat)
    requires
        n <= 8,
    ensures
        forall|i: int|
            0 <= i < held_modifier_keys(mods, n).len() ==> is_modifier_sym(
                #[trigger] held_modifier_keys(mods, n)[i],
            ),
    decreases n,
{
    if n > 0 {
        lemma_held_modifier_keys_are_modifiers(mods, (n - 1) as nat);
        let prev = held_modifier_keys(mods, (n - 1) as nat);
        assert(is_modifier_sym(modifier_key(n - 1)));
        assert forall|i: int| 0 <= i < held_modifier_keys(mods, n).len() implies is_modifier_sym(
            #[trigger] held_modifier_keys(mods, n)[i],
        ) by {
            if i < prev.len() {
                assert(held_modifier_keys(mods, n)[i] == prev[i]);
            }
        }
    }
}

/// Entering a screen re-presses held modifiers only: plain keys and
/// mouse buttons held on the old side are never pressed on the new one.
pub proof fn lemma_enter_replays_only_modifiers(h: HeldView)
    ensures
        forall|i: int|
            0 <= i < enter_msgs(h).len() ==> (#[trigger] enter_msgs(h)[i] matches MessageView::KeyDown {
                key,
                mods,
            } && is_modifier_sym(key.0) && mods == h.mods),
{
    lemma_held_modifier_keys_are_modifiers(h.mods.0, 8);
}

/// A keysym is among the held modifier keys of the first `n` flags
/// exactly when some flag below `n` is held and has it as its key.
proof fn lemma_held_modifier_keys_contains(mods: u32, n: nat, k: u32)
    requires
        n <= 8,
    ensures
        held_modifier_keys(mods, n).contains(k) <==> exists|i: int|
            0 <= i < n && mask_contains(mods, modifier_flag(i)) && #[trigger] modifier_key(i) == k,
    decreases n,
{
    if n > 0 {
        lemma_held_modifier_keys_contains(mods, (n - 1) as nat, k);
        let prev = held_modifier_keys(mods, (n - 1) as nat);
        if mask_contains(mods, modifier_flag(n - 1)) {
            let cur = prev.push(modifier_key(n - 1));
            if cur.contains(k) {
                let j = choose|j: int| 0 <= j < cur.len() && cur[j] == k;
                if j < prev.len() {
                    assert(prev[j] == k);
                    assert(prev.contains(k));
                }
            }
            if prev.contains(k) {
                let j = choose|j: int| 0 <= j < prev.len() && prev[j] == k;
                assert(cur[j] == k);
            }
            assert(cur[prev.len() as int] == modifier_key(n - 1));
        }
    }
}

/// Each modifier held in the mask is released, with its left-hand key,
/// on the screen being left, and pressed again, with the held mask, on
/// the screen entered; a modifier not held is not pressed again, and is
/// not released either unless its key is itself in the held-key set.
/// The flags and keys are: Shift `0x1` and Shift_L `0xffe1`, Ctrl `0x2`
/// and Control_L `0xffe3`, Alt `0x4` and Alt_L `0xffe9`, Meta `0x8` and
/// Meta_L `0xffe7`, Caps Lock `0x1000` and `0xffe5`, Num Lock `0x2000`
/// and `0xff7f`, Scroll Lock `0x4000` and `0xff14`, AltGr `0x20` and
/// ISO_Level3_Shift `0xfe03`.
pub proof fn lemma_modifiers_follow_mask(h: HeldView, flag: u32, key: u32)
    requires
        (flag == 0x0001 && key == 0xffe1) || (flag == 0x0002 && key == 0xffe3) || (flag == 0x0004
            && key == 0xffe9) || (flag == 0x0008 && key == 0xffe7) || (flag == 0x1000 && key
            == 0xffe5) || (flag == 0x2000 && key == 0xff7f) || (flag == 0x4000 && key == 0xff14)
            || (flag == 0x0020 && key == 0xfe03),
    ensures
        enter_msgs(h).contains(MessageView::KeyDown { key: KeyId(key), mods: h.mods }) <==> h.mods.0
            & flag == flag,
        h.mods.0 & flag == flag ==> leave_msgs(h).contains(
            MessageView::KeyUp { key: KeyId(key), mods: ModifierMask(0) },
        ),
        !h.keys.contains(key) ==> (leave_msgs(h).contains(
            MessageView::KeyUp { key: KeyId(key), mods: ModifierMask(0) },
        ) <==> h.mods.0 & flag == flag),
{
    let mk = held_modifier_keys(h.mods.0, 8);
    lemma_held_modifier_keys_contains(h.mods.0, 8, key);
    let idx: int = if key == 0xffe1 {
        0
    } else if key == 0xffe3 {
        1
    } else if key == 0xffe9 {
        2
    } else if key == 0xffe7 {
        3
    } else if key == 0xffe5 {
        4
    } else if key == 0xff7f {
        5
    } else if key == 0xff14 {
        6
    } else {
        7
    };
    assert(modifier_key(idx) == key && modifier_flag(idx) == flag);
    assert(mk.contains(key) <==> h.mods.0 & flag == flag) by {
        if mk.contains(key) {
            let i = choose|i: int|
                0 <= i < 8 && mask_contains(h.mods.0, modifier_flag(i)) && #[trigger] modifier_key(i) == key;
            assert(i == idx);
        }
        if h.mods.0 & flag == flag {
            assert(mask_contains(h.mods.0, modifier_flag(idx)) && modifier_key(idx) == key);
        }
    }
    let down = MessageView::KeyDown { key: KeyId(key), mods: h.mods };
    let em = enter_msgs(h);
    assert(em == key_down_msgs(mk, h.mods));
    if em.contains(down) {
        let j = choose|j: int| 0 <= j < em.len() && em[j] == down;
        assert(mk[j] == key);
    }
    if mk.contains(key) {
        let j = choose|j: int| 0 <= j < mk.len() && mk[j] == key;
        assert(em[j] == down);
    }
    let up = MessageView::KeyUp { key: KeyId(key), mods: ModifierMask(0) };
    let a = key_up_msgs(h.keys);
    let b = button_up_msgs(h.buttons);
    let c = key_up_msgs(mk);
    let lm = leave_msgs(h);
    assert(lm == a + b + c);
    if mk.contains(key) {
        let j = choose|j: int| 0 <= j < mk.len() && mk[j] == key;
        assert(lm[a.len() + b.len() + j] == c[j]);
    }
    if !h.keys.contains(key) && lm.contains(up) {
        let j = choose|j: int| 0 <= j < lm.len() && lm[j] == up;
        if j < a.len() {
            assert(lm[j] == a[j]);
            assert(h.keys[j] == key);
            assert(false);
        } else if j < a.len() + b.len() {
            assert(lm[j] == b[j - a.len()]);
        } else {
            assert(lm[j] == c[j - a.len() - b.len()]);
            assert(mk[j - a.len() - b.len()] == key);
        }
    }
}

} // verus!
