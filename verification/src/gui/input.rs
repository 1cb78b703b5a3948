use vstd::prelude::*;

verus! {

/// PS/2 controller ports.
pub const PS2_DATA: u16 = 0x60;
pub const PS2_STATUS: u16 = 0x64;

/// What the keyboard and mouse have reported so far.
pub struct InputState {
    pub mouse_x: i32,
    pub mouse_y: i32,
    pub mouse_buttons: u8,
    pub key_state: [bool; 256],
    pub shift_pressed: bool,
    pub alt_pressed: bool,
    pub ctrl_pressed: bool,
}

/// The mouse sends three-byte packets; this holds the bytes of the packet
/// being received and how many have come.
pub struct MouseDecoder {
    pub cycle: u8,
    pub bytes: [u8; 3],
}

impl InputState {
    /// Nothing pressed, pointer at the origin.
    pub fn new() -> (s: Self)
        ensures
            s.mouse_x == 0 && s.mouse_y == 0 && s.mouse_buttons == 0,
            pointer_on_screen(s),
            s.key_state@ == Seq::new(256, |i: int| false),
            !s.shift_pressed && !s.alt_pressed && !s.ctrl_pressed,
    {
        let key_state = [false; 256];
        proof {
            assert(key_state@ =~= Seq::new(256, |i: int| false));
        }
        InputState {
            mouse_x: 0,
            mouse_y: 0,
            mouse_buttons: 0,
            key_state,
            shift_pressed: false,
            alt_pressed: false,
            ctrl_pressed: false,
        }
    }
}

impl MouseDecoder {
    pub fn new() -> (m: Self)
        ensures
            m.cycle == 0,
            m.bytes@ == seq![0u8, 0u8, 0u8],
            m.wf(),
    {
        let bytes = crate::util::zero_bytes::<3>();
        proof {
            assert(bytes@ =~= seq![0u8, 0u8, 0u8]);
        }
        MouseDecoder { cycle: 0, bytes }
    }

    pub open spec fn wf(&self) -> bool {
        self.cycle < 3
    }
}

/// Scancodes of the modifier keys.
pub const LEFT_SHIFT: u8 = 0x2A;
pub const RIGHT_SHIFT: u8 = 0x36;
pub const ALT: u8 = 0x38;
pub const CTRL: u8 = 0x1D;

/// `b` is `a` after the scancode is recorded: bit 7 marks a release; the
/// low seven bits name the key, whose state (and that of shift, alt or
/// ctrl when it is one of them) becomes pressed or released.
pub open spec fn key_recorded(a: InputState, b: InputState, scancode: u8) -> bool {
    let released = scancode & 0x80 != 0;
    let key = scancode & 0x7F;
    &&& b.key_state@ == a.key_state@.update(key as int, !released)
    &&& b.shift_pressed == (if key == LEFT_SHIFT || key == RIGHT_SHIFT { !released } else { a.shift_pressed })
    &&& b.alt_pressed == (if key == ALT { !released } else { a.alt_pressed })
    &&& b.ctrl_pressed == (if key == CTRL { !released } else { a.ctrl_pressed })
    &&& b.mouse_x == a.mouse_x
    &&& b.mouse_y == a.mouse_y
    &&& b.mouse_buttons == a.mouse_buttons
}

/// Records a keyboard scancode (see `key_recorded`).
pub fn handle_keyboard_data(input: &mut InputState, scancode: u8)
    ensures
        key_recorded(*old(input), *final(input), scancode),
{
    let released = (scancode & 0x80) != 0;
    let key = scancode & 0x7F;
    assert(key < 128) by (bit_vector)
        requires
            key == scancode & 0x7F,
    ;
    input.key_state[key as usize] = !released;
    if key == LEFT_SHIFT || key == RIGHT_SHIFT {
        input.shift_pressed = !released;
    } else if key == ALT {
        input.alt_pressed = !released;
    } else if key == CTRL {
        input.ctrl_pressed = !released;
    }
}

/// Pressing a key and then releasing it leaves that key released, its
/// modifier (when it is shift, alt or ctrl) released, and every other key,
/// every other modifier and the pointer as they were before the press.
pub proof fn lemma_press_then_release(a: InputState, b: InputState, c: InputState, key: u8)
    requires
        key < 0x80,
        key_recorded(a, b, key),
        key_recorded(b, c, key | 0x80),
    ensures
        c.key_state@ == a.key_state@.update(key as int, false),
        c.shift_pressed == (if key == LEFT_SHIFT || key == RIGHT_SHIFT { false } else { a.shift_pressed }),
        c.alt_pressed == (if key == ALT { false } else { a.alt_pressed }),
        c.ctrl_pressed == (if key == CTRL { false } else { a.ctrl_pressed }),
        c.mouse_x == a.mouse_x && c.mouse_y == a.mouse_y && c.mouse_buttons == a.mouse_buttons,
{
    assert(key & 0x80 == 0 && key & 0x7F == key && (key | 0x80) & 0x80 != 0 && (key | 0x80) & 0x7F == key)
        by (bit_vector)
        requires
            key < 0x80,
    ;
    assert(c.key_state@ =~= a.key_state@.update(key as int, false));
}

/// `v` clamped to `[0, max]`.
pub open spec fn clamp(v: int, max: int) -> int {
    if v < 0 { 0 } else if v > max { max } else { v }
}

/// A packet's signed x movement: byte 1, minus 256 when bit 4 of byte 0 is set.
pub open spec fn packet_dx(b: Seq<u8>) -> int {
    if b[0] & 0x10 != 0 { b[1] - 256 } else { b[1] as int }
}

/// A packet's signed y movement: byte 2, minus 256 when bit 5 of byte 0 is set.
pub open spec fn packet_dy(b: Seq<u8>) -> int {
    if b[0] & 0x20 != 0 { b[2] - 256 } else { b[2] as int }
}

/// The packet that `data` completes moves the pointer without leaving the
/// `i32` range (before the clamp to the screen).
pub open spec fn packet_fits(input: &InputState, mouse: &MouseDecoder, data: u8) -> bool {
    let p = mouse.bytes@.update(2, data);
    &&& i32::MIN <= input.mouse_x + packet_dx(p) <= i32::MAX
    &&& i32::MIN <= input.mouse_y - packet_dy(p) <= i32::MAX
}

/// `(b, mb)` is `(a, ma)` after a mouse byte: the first two bytes of a
/// packet are kept; the third completes it, the buttons becoming its low
/// three bits and the pointer moving by its (9-bit signed) movement, x to
/// the right and y upwards, clamped to the 1024 by 768 screen.
pub open spec fn mouse_fed(a: InputState, ma: MouseDecoder, b: InputState, mb: MouseDecoder, data: u8) -> bool {
    &&& ma.cycle < 2 ==> {
        &&& mb.cycle == ma.cycle + 1
        &&& mb.bytes@ == ma.bytes@.update(ma.cycle as int, data)
        &&& b == a
    }
    &&& ma.cycle == 2 ==> {
        let p = ma.bytes@.update(2, data);
        &&& mb.cycle == 0
        &&& mb.bytes@ == p
        &&& b.mouse_buttons == p[0] & 0x07
        &&& b.mouse_x == clamp(a.mouse_x + packet_dx(p), 1023)
        &&& b.mouse_y == clamp(a.mouse_y - packet_dy(p), 767)
        &&& b.key_state == a.key_state
        &&& b.shift_pressed == a.shift_pressed
        &&& b.alt_pressed == a.alt_pressed
        &&& b.ctrl_pressed == a.ctrl_pressed
    }
}

/// The pointer is on the 1024 by 768 screen and the buttons are three bits.
pub open spec fn pointer_on_screen(input: InputState) -> bool {
    &&& 0 <= input.mouse_x <= 1023
    &&& 0 <= input.mouse_y <= 767
    &&& input.mouse_buttons <= 7
}

/// The decoder keeps the pointer on the screen: it starts there, a key
/// leaves it where it is, and a mouse packet moves it with a clamp to the
/// screen and masks the buttons to three bits. So every state reached from
/// `InputState::new` by keyboard and mouse bytes has the pointer on screen.
pub proof fn lemma_pointer_stays_on_screen(a: InputState, ma: MouseDecoder, b: InputState, mb: MouseDecoder, data: u8)
    requires
        pointer_on_screen(a),
        key_recorded(a, b, data) || (ma.wf() && mouse_fed(a, ma, b, mb, data)),
    ensures
        pointer_on_screen(b),
{
    if !key_recorded(a, b, data) && ma.cycle == 2 {
        let p = ma.bytes@.update(2, data);
        let x = p[0];
        assert(x & 0x07 <= 7) by (bit_vector);
    }
}

/// A pointer on the screen moves by any packet without leaving `i32`.
pub proof fn lemma_on_screen_packet_fits(input: InputState, mouse: MouseDecoder, data: u8)
    requires
        pointer_on_screen(input),
        mouse.bytes@.len() == 3,
    ensures
        packet_fits(&input, &mouse, data),
{
}

/// Feeds one byte of a mouse packet (see `mouse_fed`).
pub fn handle_mouse_data(input: &mut InputState, mouse: &mut MouseDecoder, data: u8)
    requires
        old(mouse).wf(),
        old(mouse).cycle == 2 ==> packet_fits(old(input), old(mouse), data),
    ensures
        final(mouse).wf(),
        mouse_fed(*old(input), *old(mouse), *final(input), *final(mouse), data),
{
    mouse.bytes[mouse.cycle as usize] = data;
    mouse.cycle += 1;
    if mouse.cycle == 3 {
        mouse.cycle = 0;
        input.mouse_buttons = mouse.bytes[0] & 0x07;
        let mut dx = mouse.bytes[1] as i32;
        let mut dy = mouse.bytes[2] as i32;
        if (mouse.bytes[0] & 0x10) != 0 {
            dx -= 256;
        }
        if (mouse.bytes[0] & 0x20) != 0 {
            dy -= 256;
        }
        let nx = input.mouse_x + dx;
        input.mouse_x = if nx < 0 { 0 } else if nx > 1023 { 1023 } else { nx };
        let ny = input.mouse_y - dy;
        input.mouse_y = if ny < 0 { 0 } else if ny > 767 { 767 } else { ny };
    }
}

/// Routes a byte read from the controller: to the mouse when the status
/// read after it has bit 5 set, else to the keyboard.
pub fn handle_byte(input: &mut InputState, mouse: &mut MouseDecoder, status: u8, data: u8)
    requires
        old(mouse).wf(),
        old(mouse).cycle == 2 ==> packet_fits(old(input), old(mouse), data),
    ensures
        final(mouse).wf(),
        status & 0x20 == 0 ==> *final(mouse) == *old(mouse) && key_recorded(*old(input), *final(input), data),
        status & 0x20 != 0 ==> mouse_fed(*old(input), *old(mouse), *final(input), *final(mouse), data),
        pointer_on_screen(*old(input)) ==> pointer_on_screen(*final(input)),
{
    if (status & 0x20) != 0 {
        handle_mouse_data(input, mouse, data);
    } else {
        handle_keyboard_data(input, data);
    }
    proof {
        if pointer_on_screen(*old(input)) {
            lemma_pointer_stays_on_screen(*old(input), *old(mouse), *input, *mouse, data);
        }
    }
}

pub fn get_mouse_pos(input: &InputState) -> (r: (i32, i32))
    ensures
        r == (input.mouse_x, input.mouse_y),
{
    (input.mouse_x, input.mouse_y)
}

pub fn get_mouse_buttons(input: &InputState) -> (r: u8)
    ensures
        r == input.mouse_buttons,
{
    input.mouse_buttons
}

pub fn is_key_pressed(input: &InputState, scancode: u8) -> (r: bool)
    ensures
        r == input.key_state@[scancode as int],
{
    input.key_state[scancode as usize]
}

pub fn is_alt_pressed(input: &InputState) -> (r: bool)
    ensures
        r == input.alt_pressed,
{
    input.alt_pressed
}

pub fn is_shift_pressed(input: &InputState) -> (r: bool)
    ensures
        r == input.shift_pressed,
{
    input.shift_pressed
}

/// How a completed packet moves the pointer, in the PS/2 format: bit 4 of
/// the first byte is the sign of the x movement (the second byte) and bit 5
/// the sign of the y movement (the third byte), each a 9-bit two's
/// complement number; x grows to the right and y upwards, so the pointer's
/// row goes down by the y movement; both are clamped to the 1024 by 768
/// screen, and the buttons are the first byte's low three bits.
pub proof fn lemma_packet_moves_pointer(a: InputState, ma: MouseDecoder, b: InputState, mb: MouseDecoder, data: u8)
    requires
        ma.cycle == 2,
        mouse_fed(a, ma, b, mb, data),
    ensures
        ({
            let b0 = ma.bytes@[0];
            let dx: int = if b0 & 0x10 == 0 { ma.bytes@[1] as int } else { ma.bytes@[1] as int - 256 };
            let dy: int = if b0 & 0x20 == 0 { data as int } else { data as int - 256 };
            let nx = a.mouse_x + dx;
            let ny = a.mouse_y - dy;
            &&& b.mouse_x == (if nx < 0 { 0 } else if nx > 1023 { 1023 } else { nx })
            &&& b.mouse_y == (if ny < 0 { 0 } else if ny > 767 { 767 } else { ny })
            &&& b.mouse_buttons == b0 & 7
            &&& mb.cycle == 0
        }),
{
    let p = ma.bytes@.update(2, data);
    assert(p[0] == ma.bytes@[0] && p[1] == ma.bytes@[1] && p[2] == data);
}

} // verus!
