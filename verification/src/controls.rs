//! The decisions taken by the controls of the viewer: which field colours
//! the points, how the cursor is held, which view is shown.

use vstd::prelude::*;

verus! {

/// The field whose colours are shown after the user asks for the next
/// field (`forward`) or the previous one, cycling through `fields_number`
/// fields.
pub open spec fn cycled_field(current: nat, fields_number: nat, forward: bool) -> nat {
    if forward {
        (current + 1) % fields_number
    } else if current == 0 {
        (fields_number - 1) as nat
    } else {
        (current - 1) as nat
    }
}

/// The field whose colours are shown after the user asks for the next field
/// (`forward`) or the previous one; see `cycled_field`.
pub fn next_color_field(current: usize, fields_number: usize, forward: bool) -> (next: usize)
    requires
        fields_number > 0,
    ensures
        next == cycled_field(current as nat, fields_number as nat, forward),
{
    if forward {
        let r = current % fields_number;
        proof {
            lemma_mod_succ(current as int, fields_number as int);
        }
        (r + 1) % fields_number
    } else if current == 0 {
        fields_number - 1
    } else {
        current - 1
    }
}

/// `(c % n + 1) % n == (c + 1) % n`.
proof fn lemma_mod_succ(c: int, n: int)
    requires
        c >= 0,
        n > 0,
    ensures
        (c % n + 1) % n == (c + 1) % n,
{
    vstd::arithmetic::div_mod::lemma_add_mod_noop_right(1, c, n);
}

/// Going to the next field and back, or back and then to the next field,
/// shows the field shown before.
pub proof fn lemma_color_field_round_trip(current: nat, fields_number: nat)
    requires
        current < fields_number,
    ensures
        cycled_field(cycled_field(current, fields_number, true), fields_number, false) == current,
        cycled_field(cycled_field(current, fields_number, false), fields_number, true) == current,
{
    if current + 1 < fields_number {
        vstd::arithmetic::div_mod::lemma_small_mod((current + 1) as nat, fields_number);
    } else {
        vstd::arithmetic::div_mod::lemma_mod_self_0(fields_number as int);
    }
    if current == 0 {
        vstd::arithmetic::div_mod::lemma_mod_self_0(fields_number as int);
    } else {
        vstd::arithmetic::div_mod::lemma_small_mod(current, fields_number);
    }
}

/// The next field after `current` is `current + 1`, or the first field after
/// the last one; the previous field is `current - 1`, or the last field before
/// the first one.
pub proof fn lemma_color_field_steps(current: nat, fields_number: nat)
    requires
        current < fields_number,
    ensures
        current + 1 < fields_number ==> cycled_field(current, fields_number, true) == current + 1,
        current + 1 == fields_number ==> cycled_field(current, fields_number, true) == 0,
        current > 0 ==> cycled_field(current, fields_number, false) == current - 1,
        current == 0 ==> cycled_field(current, fields_number, false) == fields_number - 1,
{
    if current + 1 < fields_number {
        vstd::arithmetic::div_mod::lemma_small_mod((current + 1) as nat, fields_number);
    } else {
        vstd::arithmetic::div_mod::lemma_mod_self_0(fields_number as int);
    }
}

/// The field shown stays among the fields of the cloud.
pub proof fn lemma_color_field_in_range(current: nat, fields_number: nat, forward: bool)
    requires
        current < fields_number,
    ensures
        cycled_field(current, fields_number, forward) < fields_number,
{
}

/// How the cursor is held by the window.
#[derive(Clone, Copy, Debug, PartialEq, Eq, Structural)]
pub enum GrabMode {
    /// The cursor moves freely.
    Free,
    /// The cursor is kept inside the window.
    Confined,
    /// The cursor is locked in place.
    Locked,
}

/// The grab mode of the cursor and whether it is visible, after the user
/// asks to grab or release it: a free cursor is confined and hidden, any
/// other is set free and shown.
pub fn toggle_cursor_grab(mode: GrabMode) -> (res: (GrabMode, bool))
    ensures
        mode == GrabMode::Free ==> res == (GrabMode::Confined, false),
        mode != GrabMode::Free ==> res == (GrabMode::Free, true),
{
    match mode {
        GrabMode::Free => (GrabMode::Confined, false),
        _ => (GrabMode::Free, true),
    }
}

/// Which views are active after the user switches between the 3D view and
/// the image view: both flip, and the cursor is released (set free and
/// shown) when the image view becomes active. Returns the new activity of
/// the 3D view, that of the image view, and whether to release the cursor.
pub fn toggle_image_view(fly_active: bool, image_active: bool) -> (res: (bool, bool, bool))
    ensures
        res.0 == !fly_active,
        res.1 == !image_active,
        res.2 == !image_active,
{
    (!fly_active, !image_active, !image_active)
}

} // verus!
