//! Input synthesis for the X11 backend.
//!
//! The server's keyboard mapping lists, for each keycode from the lowest
//! one upwards, a fixed number of keysyms (unshifted first). A
//! [`KeyMap`] sends each keysym to the lowest keycode whose first
//! non-zero keysym it is, so injection presses the unshifted key; the
//! caller supplies Shift explicitly. Every injection becomes one or more
//! XTEST fake-input requests described by [`FakeInput`].

use std::collections::HashMap;

use vstd::prelude::*;

use crate::common::{ButtonId, KeyId};

verus! {

broadcast use vstd::std_specs::hash::group_hash_axioms;

/// XTEST event type of a key press.
pub const KEY_PRESS: u8 = 2;
/// XTEST event type of a key release.
pub const KEY_RELEASE: u8 = 3;
/// XTEST event type of a button press.
pub const BUTTON_PRESS: u8 = 4;
/// XTEST event type of a button release.
pub const BUTTON_RELEASE: u8 = 5;
/// XTEST event type of a pointer motion.
pub const MOTION_NOTIFY: u8 = 6;

/// Wheel up, as a core-protocol button.
pub const BUTTON_WHEEL_UP: u8 = 4;
/// Wheel down, as a core-protocol button.
pub const BUTTON_WHEEL_DOWN: u8 = 5;
/// Wheel left, as a core-protocol button.
pub const BUTTON_WHEEL_LEFT: u8 = 6;
/// Wheel right, as a core-protocol button.
pub const BUTTON_WHEEL_RIGHT: u8 = 7;

/// Wheel delta of one click (deltas come in 120ths, as on Windows).
pub const WHEEL_TICK: i32 = 120;

/// The first non-zero keysym of a keycode's list.
pub open spec fn first_nonzero(c: Seq<u32>) -> Option<u32>
    decreases c.len(),
{
    if c.len() == 0 {
        None
    } else if c[0] != 0 {
        Some(c[0])
    } else {
        first_nonzero(c.drop_first())
    }
}

/// The map after the keycodes listed in `syms` (`per` keysyms each, the
/// last list possibly shorter), the first of them being `code`, added to
/// `m`: each keycode contributes its first non-zero keysym, unless an
/// earlier keycode already did.
pub open spec fn keymap_fold(syms: Seq<u32>, per: nat, code: int, m: Map<u32, u8>) -> Map<u32, u8>
    decreases syms.len(),
{
    if syms.len() == 0 || per == 0 {
        m
    } else {
        let n = if syms.len() < per {
            syms.len()
        } else {
            per
        };
        let m2 = match first_nonzero(syms.take(n as int)) {
            Some(k) => if m.contains_key(k) {
                m
            } else {
                m.insert(k, code as u8)
            },
            None => m,
        };
        keymap_fold(syms.skip(n as int), per, code + 1, m2)
    }
}

/// The keysym lists of consecutive keycodes: `syms` cut into pieces of
/// `per` (the last possibly shorter).
pub open spec fn key_chunks(syms: Seq<u32>, per: nat) -> Seq<Seq<u32>>
    decreases syms.len(),
{
    if syms.len() == 0 || per == 0 {
        Seq::empty()
    } else {
        let n = if syms.len() < per {
            syms.len()
        } else {
            per
        };
        seq![syms.take(n as int)] + key_chunks(syms.skip(n as int), per)
    }
}

/// Keycode number `j` (counting from the lowest) is the first whose
/// first non-zero keysym is `k`.
pub open spec fn first_keycode_of(cs: Seq<Seq<u32>>, k: u32, j: int) -> bool {
    &&& 0 <= j < cs.len()
    &&& first_nonzero(cs[j]) == Some(k)
    &&& forall|i: int| 0 <= i < j ==> first_nonzero(#[trigger] cs[i]) != Some(k)
}

proof fn lemma_keymap_fold_shape(syms: Seq<u32>, per: nat, code: int, m: Map<u32, u8>, k: u32)
    ensures
        keymap_fold(syms, per, code, m).contains_key(k) <==> (m.contains_key(k) || exists|j: int|
            0 <= j < key_chunks(syms, per).len() && first_nonzero(
                #[trigger] key_chunks(syms, per)[j],
            ) == Some(k)),
        m.contains_key(k) ==> keymap_fold(syms, per, code, m)[k] == m[k],
        !m.contains_key(k) ==> forall|j: int|
            first_keycode_of(key_chunks(syms, per), k, j) ==> keymap_fold(syms, per, code, m)[k] == (
            code + j) as u8,
    decreases syms.len(),
{
    if syms.len() > 0 && per > 0 {
        let n = if syms.len() < per {
            syms.len()
        } else {
            per
        };
        let c0 = syms.take(n as int);
        let rest = syms.skip(n as int);
        let rcs = key_chunks(rest, per);
        let cs = key_chunks(syms, per);
        assert(cs == seq![c0] + rcs);
        assert(cs[0] == c0);
        assert forall|j: int| 0 < j < cs.len() implies #[trigger] cs[j] == rcs[j - 1] by {}
        let m2 = match first_nonzero(c0) {
            Some(k0) => if m.contains_key(k0) {
                m
            } else {
                m.insert(k0, code as u8)
            },
            None => m,
        };
        lemma_keymap_fold_shape(rest, per, code + 1, m2, k);
        if m.contains_key(k) {
            assert(m2.contains_key(k) && m2[k] == m[k]);
        } else if first_nonzero(c0) == Some(k) {
            assert(m2.contains_key(k) && m2[k] == code as u8);
            assert(keymap_fold(syms, per, code, m).contains_key(k));
            assert(first_nonzero(cs[0]) == Some(k));
            assert forall|j: int| first_keycode_of(cs, k, j) implies keymap_fold(
                syms,
                per,
                code,
                m,
            )[k] == (code + j) as u8 by {
                if j > 0 {
                    assert(first_nonzero(cs[0]) != Some(k));
                }
            }
        } else {
            assert(!m2.contains_key(k));
            if exists|j: int| 0 <= j < rcs.len() && first_nonzero(#[trigger] rcs[j]) == Some(k) {
                let j = choose|j: int| 0 <= j < rcs.len() && first_nonzero(#[trigger] rcs[j]) == Some(k);
                assert(cs[j + 1] == rcs[j]);
            }
            if exists|j: int| 0 <= j < cs.len() && first_nonzero(#[trigger] cs[j]) == Some(k) {
                let j = choose|j: int| 0 <= j < cs.len() && first_nonzero(#[trigger] cs[j]) == Some(k);
                assert(j > 0);
                assert(rcs[j - 1] == cs[j]);
            }
            assert forall|j: int| first_keycode_of(cs, k, j) implies keymap_fold(
                syms,
                per,
                code,
                m,
            )[k] == (code + j) as u8 by {
                assert(j > 0);
                assert forall|i: int| 0 <= i < j - 1 implies first_nonzero(#[trigger] rcs[i]) != Some(
                    k,
                ) by {
                    assert(cs[i + 1] == rcs[i]);
                }
                assert(rcs[j - 1] == cs[j]);
                assert(first_keycode_of(rcs, k, j - 1));
            }
        }
    }
}

/// The first non-zero keysym of a list is never zero.
proof fn lemma_first_nonzero_not_zero(c: Seq<u32>)
    ensures
        first_nonzero(c) != Some(0u32),
    decreases c.len(),
{
    if c.len() > 0 && c[0] == 0 {
        lemma_first_nonzero_not_zero(c.drop_first());
    }
}

/// Each keysym goes to the lowest keycode whose first non-zero keysym
/// it is; a keysym that is no keycode's first non-zero keysym (a shifted
/// symbol, say, or the empty keysym 0) has no keycode.
pub proof fn lemma_keymap_lowest_keycode_wins(syms: Seq<u32>, per: nat, min_keycode: u8, k: u32)
    ensures
        !keymap_fold(syms, per, min_keycode as int, Map::<u32, u8>::empty()).contains_key(0u32),
        keymap_fold(syms, per, min_keycode as int, Map::<u32, u8>::empty()).contains_key(k) <==> exists|j: int|
            0 <= j < key_chunks(syms, per).len() && first_nonzero(#[trigger] key_chunks(syms, per)[j])
                == Some(k),
        forall|j: int|
            first_keycode_of(key_chunks(syms, per), k, j) ==> keymap_fold(
                syms,
                per,
                min_keycode as int,
                Map::<u32, u8>::empty(),
            )[k] == (min_keycode + j) as u8,
{
    lemma_keymap_fold_shape(syms, per, min_keycode as int, Map::<u32, u8>::empty(), k);
    lemma_keymap_fold_shape(syms, per, min_keycode as int, Map::<u32, u8>::empty(), 0u32);
    assert forall|j: int| 0 <= j < key_chunks(syms, per).len() implies first_nonzero(
        #[trigger] key_chunks(syms, per)[j],
    ) != Some(0u32) by {
        lemma_first_nonzero_not_zero(key_chunks(syms, per)[j]);
    }
}

/// Keysym to keycode lookup built from the server's keyboard mapping.
#[derive(Debug)]
pub struct KeyMap {
    keysym_to_keycode: HashMap<u32, u8>,
}

impl View for KeyMap {
    type V = Map<u32, u8>;

    closed spec fn view(&self) -> Map<u32, u8> {
        self.keysym_to_keycode@
    }
}

fn first_nonzero_in(s: &[u32], start: usize, end: usize) -> (r: Option<u32>)
    requires
        start <= end <= s@.len(),
    ensures
        r == first_nonzero(s@.subrange(start as int, end as int)),
{
    let mut j = start;
    while j < end
        invariant
            start <= j <= end <= s@.len(),
            first_nonzero(s@.subrange(start as int, end as int)) == first_nonzero(
                s@.subrange(j as int, end as int),
            ),
        decreases end - j,
    {
        let ghost sub = s@.subrange(j as int, end as int);
        assert(sub[0] == s@[j as int]);
        if s[j] != 0 {
            return Some(s[j]);
        }
        assert(sub.drop_first() =~= s@.subrange(j + 1, end as int));
        j = j + 1;
    }
    assert(s@.subrange(j as int, end as int).len() == 0);
    None
}

impl KeyMap {
    /// Build the map from a keyboard-mapping reply: keycodes from
    /// `min_keycode` upwards, `keysyms_per_keycode` keysyms each.
    pub fn from_mapping(min_keycode: u8, keysyms_per_keycode: u8, keysyms: &[u32]) -> (k: KeyMap)
        requires
            keysyms_per_keycode > 0,
            keysyms@.len() <= (256 - min_keycode) * keysyms_per_keycode,
        ensures
            k@ == keymap_fold(
                keysyms@,
                keysyms_per_keycode as nat,
                min_keycode as int,
                Map::<u32, u8>::empty(),
            ),
    {
        let ghost all = keysyms@;
        let ghost per = keysyms_per_keycode as nat;
        let per_u = keysyms_per_keycode as usize;
        let len = keysyms.len();
        let mut m: HashMap<u32, u8> = HashMap::new();
        let mut offset: usize = 0;
        let mut code: usize = min_keycode as usize;
        assert(all.skip(0) =~= all);
        while offset < len
            invariant
                all == keysyms@,
                len == all.len(),
                per == per_u,
                per_u > 0,
                offset <= len,
                code <= 256,
                len - offset <= (256 - code) * per,
                keymap_fold(all.skip(offset as int), per, code as int, m@) == keymap_fold(
                    all,
                    per,
                    min_keycode as int,
                    Map::<u32, u8>::empty(),
                ),
            decreases len - offset,
        {
            let rest_len = len - offset;
            let n = if rest_len < per_u {
                rest_len
            } else {
                per_u
            };
            assert(code < 256) by (nonlinear_arith)
                requires
                    0 < rest_len <= (256 - code) * per,
                    code <= 256,
            ;
            let ghost rest = all.skip(offset as int);
            assert(rest.take(n as int) =~= all.subrange(offset as int, (offset + n) as int));
            assert(rest.skip(n as int) =~= all.skip((offset + n) as int));
            let first = first_nonzero_in(keysyms, offset, offset + n);
            let ghost m_old = m@;
            let ghost m2 = match first_nonzero(rest.take(n as int)) {
                Some(k) => if m_old.contains_key(k) {
                    m_old
                } else {
                    m_old.insert(k, code as u8)
                },
                None => m_old,
            };
            assert(keymap_fold(rest, per, code as int, m_old) == keymap_fold(
                rest.skip(n as int),
                per,
                code + 1,
                m2,
            ));
            match first {
                Some(k) => {
                    if !m.contains_key(&k) {
                        m.insert(k, code as u8);
                    }
                },
                None => {},
            }
            assert(m@ == m2);
            assert((256 - code) * per == (255 - code) * per + per) by (nonlinear_arith);
            offset = offset + n;
            code = code + 1;
        }
        assert(all.skip(len as int).len() == 0);
        KeyMap { keysym_to_keycode: m }
    }

    /// The keycode that types `keysym`, or `None` when the current
    /// layout has none.
    pub fn keycode(&self, keysym: u32) -> (r: Option<u8>)
        ensures
            r == (if self@.contains_key(keysym) {
                Some(self@[keysym])
            } else {
                None
            }),
    {
        match self.keysym_to_keycode.get(&keysym) {
            Some(c) => Some(*c),
            None => None,
        }
    }
}

/// One XTEST fake-input request.
#[derive(Debug, Clone, Copy, PartialEq, Eq, Structural)]
pub struct FakeInput {
    /// Event type (`KEY_PRESS`, `BUTTON_RELEASE`, ...).
    pub event_type: u8,
    /// Keycode or button number (0 for motion).
    pub detail: u8,
    /// Root-window X (motion only).
    pub root_x: i16,
    /// Root-window Y (motion only).
    pub root_y: i16,
}

/// A root-window coordinate: the value itself when it fits 16 bits,
/// `i16::MAX` otherwise (in either direction).
pub open spec fn root_coord(v: i32) -> i16 {
    if i16::MIN <= v <= i16::MAX {
        v as i16
    } else {
        i16::MAX
    }
}

/// The request for a key press or release, or `None` when no keycode
/// types the key (the injection is then silently skipped).
pub fn key_input(map: &KeyMap, key: KeyId, down: bool) -> (r: Option<FakeInput>)
    ensures
        r == (if map@.contains_key(key.0) {
            Some(
                FakeInput {
                    event_type: if down {
                        KEY_PRESS
                    } else {
                        KEY_RELEASE
                    },
                    detail: map@[key.0],
                    root_x: 0,
                    root_y: 0,
                },
            )
        } else {
            None
        }),
{
    match map.keycode(key.get()) {
        Some(code) => Some(
            FakeInput {
                event_type: if down {
                    KEY_PRESS
                } else {
                    KEY_RELEASE
                },
                detail: code,
                root_x: 0,
                root_y: 0,
            },
        ),
        None => None,
    }
}

/// The request for a mouse-button press or release.
pub fn button_input(button: ButtonId, down: bool) -> (r: FakeInput)
    ensures
        r == (FakeInput {
            event_type: if down {
                BUTTON_PRESS
            } else {
                BUTTON_RELEASE
            },
            detail: button.0,
            root_x: 0,
            root_y: 0,
        }),
{
    FakeInput {
        event_type: if down {
            BUTTON_PRESS
        } else {
            BUTTON_RELEASE
        },
        detail: button.get(),
        root_x: 0,
        root_y: 0,
    }
}

fn to_root_coord(v: i32) -> (r: i16)
    ensures
        r == root_coord(v),
{
    if -32768 <= v && v <= 32767 {
        v as i16
    } else {
        32767
    }
}

/// The request for an absolute pointer move.
pub fn motion_input(x: i32, y: i32) -> (r: FakeInput)
    ensures
        r == (FakeInput {
            event_type: MOTION_NOTIFY,
            detail: 0,
            root_x: root_coord(x),
            root_y: root_coord(y),
        }),
{
    FakeInput { event_type: MOTION_NOTIFY, detail: 0, root_x: to_root_coord(x), root_y: to_root_coord(y) }
}

/// Clicks of one wheel button: press and release, `count` times.
#[derive(Debug, Clone, Copy, PartialEq, Eq, Structural)]
pub struct WheelClicks {
    /// The wheel button.
    pub button: u8,
    /// How many clicks (at least one).
    pub count: u32,
}

/// The clicks for a wheel delta on one axis: none for 0; otherwise one
/// click per whole tick of the delta's size, at least one, on
/// `pos_button` for a positive delta and `neg_button` for a negative one.
pub open spec fn axis_clicks(delta: i32, pos_button: u8, neg_button: u8) -> Seq<WheelClicks> {
    if delta == 0 {
        Seq::empty()
    } else {
        let mag = if delta > 0 {
            delta as int
        } else {
            -delta
        };
        let ticks = mag / (WHEEL_TICK as int);
        seq![
            WheelClicks {
                button: if delta > 0 {
                    pos_button
                } else {
                    neg_button
                },
                count: if ticks < 1 {
                    1
                } else {
                    ticks as u32
                },
            },
        ]
    }
}

/// A wheel delta turns into clicks by whole ticks of 120: none for a zero
/// delta; otherwise one entry, on `pos_button` for a positive delta and
/// `neg_button` for a negative one, whose count is the number of whole
/// ticks in the delta's size (`count * 120 <= |delta| < (count + 1) *
/// 120`), or 1 when the delta is less than one tick. No count is capped.
pub proof fn lemma_wheel_clicks_count_ticks(delta: i32, pos_button: u8, neg_button: u8)
    ensures
        delta == 0 ==> axis_clicks(delta, pos_button, neg_button).len() == 0,
        delta != 0 ==> ({
            let r = axis_clicks(delta, pos_button, neg_button);
            let mag: int = if delta > 0 { delta as int } else { -(delta as int) };
            &&& r.len() == 1
            &&& r[0].button == (if delta > 0 { pos_button } else { neg_button })
            &&& r[0].count >= 1
            &&& mag < 120 ==> r[0].count == 1
            &&& mag >= 120 ==> r[0].count * 120 <= mag < (r[0].count + 1) * 120
        }),
{
    if delta != 0 {
        let mag: int = if delta > 0 { delta as int } else { -(delta as int) };
        let t = mag / 120;
        assert(t * 120 <= mag < (t + 1) * 120) by (nonlinear_arith)
            requires
                t == mag / 120,
                mag > 0,
        ;
        assert(t <= u32::MAX) by (nonlinear_arith)
            requires
                t == mag / 120,
                0 < mag <= 0x8000_0000,
        ;
    }
}

fn clicks_for(delta: i32, pos_button: u8, neg_button: u8, out: &mut Vec<WheelClicks>)
    requires
        delta != i32::MIN,
    ensures
        final(out)@ == old(out)@ + axis_clicks(delta, pos_button, neg_button),
{
    if delta != 0 {
        let (button, mag) = if delta > 0 {
            (pos_button, delta)
        } else {
            (neg_button, -delta)
        };
        let ticks = mag / WHEEL_TICK;
        let count: u32 = if ticks < 1 {
            1
        } else {
            ticks as u32
        };
        out.push(WheelClicks { button, count });
        assert(out@ =~= old(out)@ + axis_clicks(delta, pos_button, neg_button));
    } else {
        assert(out@ =~= old(out)@ + axis_clicks(delta, pos_button, neg_button));
    }
}

/// The wheel clicks for a scroll of `(dx, dy)`: the vertical axis first
/// (down for positive, up for negative), then the horizontal one (right
/// for positive, left for negative). Sub-tick remainders are dropped,
/// not carried over.
pub fn wheel_plan(dx: i32, dy: i32) -> (r: Vec<WheelClicks>)
    requires
        dx != i32::MIN,
        dy != i32::MIN,
    ensures
        r@ == axis_clicks(dy, BUTTON_WHEEL_DOWN, BUTTON_WHEEL_UP) + axis_clicks(
            dx,
            BUTTON_WHEEL_RIGHT,
            BUTTON_WHEEL_LEFT,
        ),
{
    let mut r: Vec<WheelClicks> = Vec::new();
    clicks_for(dy, BUTTON_WHEEL_DOWN, BUTTON_WHEEL_UP, &mut r);
    clicks_for(dx, BUTTON_WHEEL_RIGHT, BUTTON_WHEEL_LEFT, &mut r);
    assert(r@ =~= axis_clicks(dy, BUTTON_WHEEL_DOWN, BUTTON_WHEEL_UP) + axis_clicks(
        dx,
        BUTTON_WHEEL_RIGHT,
        BUTTON_WHEEL_LEFT,
    ));
    r
}

} // verus!
