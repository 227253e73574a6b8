use crate::display::{blank_grid, draw_collision, draw_grid, Display};
use crate::keypad::Keypad;
use vstd::arithmetic::div_mod::{lemma_mod_add_multiples_vanish, lemma_small_mod};
use vstd::prelude::*;

verus! {

/// The hard stops of the interpreter: running the program counter off the
/// end of memory, nesting calls beyond the sixteen stack slots, returning
/// with nothing pushed, or a block instruction that would touch memory past
/// its end. The reference hardware leaves these undefined; this machine
/// stops with a diagnostic instead of wrapping indices.
#[derive(Clone, Copy, Debug, PartialEq, Eq, Structural)]
pub enum Chip8Error {
    FetchOutOfBounds,
    StackOverflow,
    StackUnderflow,
    MemoryOutOfBounds,
}

/// The mathematical model of the whole machine: registers, memory, stack,
/// timer, the keypad latches, the framebuffer, and the two redraw flags.
#[verifier::ext_equal]
pub ghost struct MachineState {
    pub i: u16,
    pub pc: u16,
    pub mem: Seq<u8>,
    pub stack: Seq<u16>,
    pub sp: u8,
    pub v: Seq<u8>,
    pub dt: u8,
    pub pad: Seq<bool>,
    pub gfx: Seq<bool>,
    pub display_dirty: bool,
    pub draw_flag: bool,
}

impl MachineState {
    /// Every component has its fixed size and the stack pointer stays in
    /// range.
    pub open spec fn wf(self) -> bool {
        &&& self.mem.len() == 4096
        &&& self.stack.len() == 16
        &&& self.v.len() == 16
        &&& self.sp <= 16
        &&& self.pad.len() == 16
        &&& self.gfx.len() == 2048
    }
}

/// The highest nibble of an instruction word: the dispatch class.
pub open spec fn op_hi(op: u16) -> u16 {
    (op & 0xF000) >> 12
}

/// The second nibble: the first register operand.
pub open spec fn op_x(op: u16) -> u16 {
    (op & 0x0F00) >> 8
}

/// The third nibble: the second register operand.
pub open spec fn op_y(op: u16) -> u16 {
    (op & 0x00F0) >> 4
}

/// The lowest nibble: the immediate nibble operand.
pub open spec fn op_n(op: u16) -> u16 {
    op & 0x000F
}

/// The lowest byte: the immediate byte operand.
pub open spec fn op_nn(op: u16) -> u8 {
    (op & 0x00FF) as u8
}

/// The lowest twelve bits: the immediate address operand.
pub open spec fn op_nnn(op: u16) -> u16 {
    op & 0x0FFF
}

/// The operand fields are bounded by their widths and reassemble into the
/// instruction word.
pub proof fn lemma_decode_bounds(op: u16)
    by (bit_vector)
    ensures
        op_hi(op) < 16,
        op_x(op) < 16,
        op_y(op) < 16,
        op_n(op) < 16,
        op_nn(op) < 256,
        op_nnn(op) < 4096,
        op_nn(op) == op_y(op) * 16 + op_n(op),
        op_nnn(op) == op_x(op) * 256 + op_nn(op),
        op == op_hi(op) * 4096 + op_nnn(op),
{
}

/// The sixteen five-byte font glyphs for the hex digits, as the machine
/// loads them at address 0: glyph `d` occupies bytes 5d..=5d+4.
pub open spec fn spec_fontset() -> Seq<u8> {
    seq![
        0xF0u8, 0x90u8, 0x90u8, 0x90u8, 0xF0u8,
        0x20u8, 0x60u8, 0x20u8, 0x20u8, 0x70u8,
        0xF0u8, 0x10u8, 0xF0u8, 0x80u8, 0xF0u8,
        0xF0u8, 0x10u8, 0xF0u8, 0x10u8, 0xF0u8,
        0x90u8, 0x90u8, 0xF0u8, 0x10u8, 0x10u8,
        0xF0u8, 0x80u8, 0xF0u8, 0x10u8, 0xF0u8,
        0xF0u8, 0x80u8, 0xF0u8, 0x90u8, 0xF0u8,
        0xF0u8, 0x10u8, 0x20u8, 0x40u8, 0x40u8,
        0xF0u8, 0x90u8, 0xF0u8, 0x90u8, 0xF0u8,
        0xF0u8, 0x90u8, 0xF0u8, 0x10u8, 0xF0u8,
        0xF0u8, 0x90u8, 0xF0u8, 0x90u8, 0x90u8,
        0xE0u8, 0x90u8, 0xE0u8, 0x90u8, 0xE0u8,
        0xF0u8, 0x80u8, 0x80u8, 0x80u8, 0xF0u8,
        0xE0u8, 0x90u8, 0x90u8, 0x90u8, 0xE0u8,
        0xF0u8, 0x80u8, 0xF0u8, 0x80u8, 0xF0u8,
        0xF0u8, 0x80u8, 0xF0u8, 0x80u8, 0x80u8
    ]
}

/// The two memory bytes at the program counter, combined big-endian.
pub open spec fn spec_fetch(s: MachineState) -> u16 {
    (s.mem[s.pc as int] * 256 + s.mem[s.pc as int + 1]) as u16
}

/// Whether `key` names a keypad latch that is currently pressed. A register
/// value outside the sixteen keys names no key and counts as not pressed.
pub open spec fn key_pressed(s: MachineState, key: u8) -> bool {
    key < 16 && s.pad[key as int]
}

/// The smallest pressed key index at or after `k`, or 16 if none is pressed.
pub open spec fn first_key_from(pad: Seq<bool>, k: int) -> int
    decreases 16 - k,
{
    if k < 0 || k >= 16 {
        16
    } else if pad[k] {
        k
    } else {
        first_key_from(pad, k + 1)
    }
}

/// The fatal condition one instruction raises on the current state, if any:
/// returning on an empty stack, calling with all sixteen slots in use, or a
/// draw, binary-coded-decimal store or register block copy that would touch
/// memory at or past its end.
pub open spec fn step_error(s: MachineState, op: u16) -> Option<Chip8Error> {
    if op == 0x00EE && s.sp == 0 {
        Some(Chip8Error::StackUnderflow)
    } else if op_hi(op) == 0x2 && s.sp >= 16 {
        Some(Chip8Error::StackOverflow)
    } else if op_hi(op) == 0xD && s.i + op_n(op) > 4096 {
        Some(Chip8Error::MemoryOutOfBounds)
    } else if op_hi(op) == 0xF && op_nn(op) == 0x33 && s.i + 2 >= 4096 {
        Some(Chip8Error::MemoryOutOfBounds)
    } else if op_hi(op) == 0xF && (op_nn(op) == 0x55 || op_nn(op) == 0x65) && s.i + op_x(op)
        >= 4096 {
        Some(Chip8Error::MemoryOutOfBounds)
    } else {
        None
    }
}

/// The machine state after decoding and executing one instruction word `op`
/// on state `s`, with `rnd` standing for the byte the random-number
/// instruction draws. The program counter is advanced by two before
/// dispatch, so the jump, call, return and skip instructions set it
/// explicitly. Only defined up to the fatal conditions of `step_error`: on
/// those inputs the interpreter stops instead.
pub open spec fn spec_process(s: MachineState, op: u16, rnd: u8) -> MachineState {
    let x = op_x(op) as int;
    let y = op_y(op) as int;
    let n = op_n(op) as int;
    let nn = op_nn(op);
    let nnn = op_nnn(op);
    let pc2 = (s.pc + 2) as u16;
    let t = MachineState { pc: pc2, ..s };
    if op == 0x00E0 {
        // clear the display
        MachineState { gfx: blank_grid(), display_dirty: true, draw_flag: true, ..t }
    } else if op == 0x00EE {
        // return from a subroutine
        MachineState { sp: (s.sp - 1) as u8, pc: s.stack[s.sp - 1], ..t }
    } else if op_hi(op) == 0x1 {
        // jump to nnn
        MachineState { pc: nnn, ..t }
    } else if op_hi(op) == 0x2 {
        // call the subroutine at nnn
        MachineState {
            stack: s.stack.update(s.sp as int, pc2),
            sp: (s.sp + 1) as u8,
            pc: nnn,
            ..t
        }
    } else if op_hi(op) == 0x3 {
        // skip if v[x] == nn
        MachineState { pc: if s.v[x] == nn { (s.pc + 4) as u16 } else { pc2 }, ..t }
    } else if op_hi(op) == 0x4 {
        // skip if v[x] != nn
        MachineState { pc: if s.v[x] != nn { (s.pc + 4) as u16 } else { pc2 }, ..t }
    } else if op_hi(op) == 0x5 && op_n(op) == 0 {
        // skip if v[x] == v[y]
        MachineState { pc: if s.v[x] == s.v[y] { (s.pc + 4) as u16 } else { pc2 }, ..t }
    } else if op_hi(op) == 0x6 {
        // v[x] = nn
        MachineState { v: s.v.update(x, nn), ..t }
    } else if op_hi(op) == 0x7 {
        // v[x] += nn, wrapping, flags untouched
        MachineState { v: s.v.update(x, ((s.v[x] + nn) % 256) as u8), ..t }
    } else if op_hi(op) == 0x8 && op_n(op) == 0x0 {
        // v[x] = v[y]
        MachineState { v: s.v.update(x, s.v[y]), ..t }
    } else if op_hi(op) == 0x8 && op_n(op) == 0x1 {
        // v[x] |= v[y]
        MachineState { v: s.v.update(x, s.v[x] | s.v[y]), ..t }
    } else if op_hi(op) == 0x8 && op_n(op) == 0x2 {
        // v[x] &= v[y]
        MachineState { v: s.v.update(x, s.v[x] & s.v[y]), ..t }
    } else if op_hi(op) == 0x8 && op_n(op) == 0x3 {
        // v[x] ^= v[y]
        MachineState { v: s.v.update(x, s.v[x] ^ s.v[y]), ..t }
    } else if op_hi(op) == 0x8 && op_n(op) == 0x4 {
        // v[x] += v[y] with a nine-bit sum; v[0xF] is the carry
        let sum = s.v[x] + s.v[y];
        let v1 = s.v.update(0xF, if sum > 255 { 1u8 } else { 0u8 });
        MachineState { v: v1.update(x, (sum % 256) as u8), ..t }
    } else if op_hi(op) == 0x8 && op_n(op) == 0x5 {
        // v[x] -= v[y], wrapping; v[0xF] is 1 exactly when no borrow occurred
        let vx = s.v[x];
        let vy = s.v[y];
        let v1 = s.v.update(x, ((vx - vy) % 256) as u8);
        MachineState { v: v1.update(0xF, if vx >= vy { 1u8 } else { 0u8 }), ..t }
    } else if op_hi(op) == 0x8 && op_n(op) == 0x6 {
        // v[0xF] takes the low bit of v[x], then v[x] is halved
        let v1 = s.v.update(0xF, (s.v[x] % 2) as u8);
        MachineState { v: v1.update(x, (v1[x] / 2) as u8), ..t }
    } else if op_hi(op) == 0x8 && op_n(op) == 0x7 {
        // v[x] = v[y] - v[x], wrapping; v[0xF] is 1 exactly when no borrow
        let vx = s.v[x];
        let vy = s.v[y];
        let v1 = s.v.update(x, ((vy - vx) % 256) as u8);
        MachineState { v: v1.update(0xF, if vy >= vx { 1u8 } else { 0u8 }), ..t }
    } else if op_hi(op) == 0x8 && op_n(op) == 0xE {
        // v[0xF] takes the high bit of v[x], then v[x] is doubled, wrapping
        let v1 = s.v.update(0xF, (s.v[x] / 128) as u8);
        MachineState { v: v1.update(x, ((v1[x] * 2) % 256) as u8), ..t }
    } else if op_hi(op) == 0x9 && op_n(op) == 0 {
        // skip if v[x] != v[y]
        MachineState { pc: if s.v[x] != s.v[y] { (s.pc + 4) as u16 } else { pc2 }, ..t }
    } else if op_hi(op) == 0xA {
        // index register = nnn
        MachineState { i: nnn, ..t }
    } else if op_hi(op) == 0xB {
        // jump to nnn + v[0]
        MachineState { pc: (nnn + s.v[0]) as u16, ..t }
    } else if op_hi(op) == 0xC {
        // v[x] = random byte AND nn
        MachineState { v: s.v.update(x, rnd & nn), ..t }
    } else if op_hi(op) == 0xD {
        // draw the n-byte sprite at memory[i..] at (v[x], v[y]);
        // v[0xF] reports the collision
        let sprite = s.mem.subrange(s.i as int, s.i + n);
        let col = draw_collision(s.gfx, sprite, s.v[x] as int, s.v[y] as int);
        MachineState {
            gfx: draw_grid(s.gfx, sprite, s.v[x] as int, s.v[y] as int),
            v: s.v.update(0xF, if col { 1u8 } else { 0u8 }),
            display_dirty: true,
            ..t
        }
    } else if op_hi(op) == 0xE && op_nn(op) == 0x9E {
        // skip if the key named by v[x] is pressed
        MachineState { pc: if key_pressed(s, s.v[x]) { (s.pc + 4) as u16 } else { pc2 }, ..t }
    } else if op_hi(op) == 0xE && op_nn(op) == 0xA1 {
        // skip if the key named by v[x] is not pressed
        MachineState { pc: if !key_pressed(s, s.v[x]) { (s.pc + 4) as u16 } else { pc2 }, ..t }
    } else if op_hi(op) == 0xF && op_nn(op) == 0x07 {
        // v[x] = delay timer
        MachineState { v: s.v.update(x, s.dt), ..t }
    } else if op_hi(op) == 0xF && op_nn(op) == 0x0A {
        // wait for a key: with none pressed the program counter stays on
        // this instruction, so the next cycle retries; otherwise the lowest
        // pressed key index lands in v[x]
        let k = first_key_from(s.pad, 0);
        if k < 16 {
            MachineState { v: s.v.update(x, k as u8), ..t }
        } else {
            s
        }
    } else if op_hi(op) == 0xF && op_nn(op) == 0x15 {
        // delay timer = v[x]
        MachineState { dt: s.v[x], ..t }
    } else if op_hi(op) == 0xF && op_nn(op) == 0x18 {
        // sound timer: no audio is emulated, so only the counter advances
        t
    } else if op_hi(op) == 0xF && op_nn(op) == 0x1E {
        // index register += v[x], wrapping in sixteen bits
        MachineState { i: ((s.i + s.v[x]) % 0x10000) as u16, ..t }
    } else if op_hi(op) == 0xF && op_nn(op) == 0x29 {
        // index register = address of the font glyph for digit v[x]
        MachineState { i: (5 * s.v[x]) as u16, ..t }
    } else if op_hi(op) == 0xF && op_nn(op) == 0x33 {
        // store the three decimal digits of v[x] at memory[i..=i+2]
        MachineState {
            mem: s.mem.update(s.i as int, (s.v[x] / 100) as u8).update(
                s.i + 1,
                ((s.v[x] / 10) % 10) as u8,
            ).update(s.i + 2, (s.v[x] % 10) as u8),
            ..t
        }
    } else if op_hi(op) == 0xF && op_nn(op) == 0x55 {
        // copy v[0..=x] into memory[i..], then i += x + 1
        MachineState {
            mem: Seq::new(
                4096,
                |a: int|
                    if s.i <= a <= s.i + x {
                        s.v[a - s.i]
                    } else {
                        s.mem[a]
                    },
            ),
            i: (s.i + x + 1) as u16,
            ..t
        }
    } else if op_hi(op) == 0xF && op_nn(op) == 0x65 {
        // copy memory[i..] into v[0..=x], then i += x + 1
        MachineState {
            v: Seq::new(
                16,
                |k: int|
                    if k <= x {
                        s.mem[s.i + k]
                    } else {
                        s.v[k]
                    },
            ),
            i: (s.i + x + 1) as u16,
            ..t
        }
    } else {
        // unrecognized pattern: ignored, the program counter has advanced
        t
    }
}

/// The per-cycle timer tick: the delay timer counts down to zero.
pub open spec fn spec_tick(s: MachineState) -> MachineState {
    MachineState { dt: if s.dt > 0 { (s.dt - 1) as u8 } else { 0u8 }, ..s }
}

/// What one successful `process_opcode` call leaves behind: the state
/// `spec_process` gives, with the random instruction quantifying over the
/// byte that was drawn.
pub open spec fn process_post(pre: MachineState, op: u16, post: MachineState) -> bool {
    if op_hi(op) == 0xC {
        exists|b: u8| post == spec_process(pre, op, b)
    } else {
        post == spec_process(pre, op, 0)
    }
}

/// What one successful `emulate_cycle` call leaves behind: the fetched
/// instruction executed, then the timer tick.
pub open spec fn cycle_post(pre: MachineState, op: u16, post: MachineState) -> bool {
    if op_hi(op) == 0xC {
        exists|b: u8| post == spec_tick(spec_process(pre, op, b))
    } else {
        post == spec_tick(spec_process(pre, op, 0))
    }
}

/// Relies on rand::random: one byte from the thread-local generator.
/// Nothing is promised of its value.
#[verifier::external_body]
fn random_byte() -> u8 {
    rand::random::<u8>()
}

/// Scanning the keypad upward from `a`, a stretch with no pressed key does
/// not change where the first pressed key is.
proof fn lemma_first_key_skip(pad: Seq<bool>, a: int, b: int)
    requires
        0 <= a <= b <= 16,
        forall|j: int| a <= j < b ==> !pad[j],
    ensures
        first_key_from(pad, a) == first_key_from(pad, b),
    decreases b - a,
{
    if a < b {
        lemma_first_key_skip(pad, a + 1, b);
    }
}

/// The font glyphs as a byte vector, in memory order.
fn fontset() -> (font: Vec<u8>)
    ensures
        font@ == spec_fontset(),
{
    let mut font: Vec<u8> = Vec::new();
    font.push(0xF0);
    font.push(0x90);
    font.push(0x90);
    font.push(0x90);
    font.push(0xF0);
    font.push(0x20);
    font.push(0x60);
    font.push(0x20);
    font.push(0x20);
    font.push(0x70);
    font.push(0xF0);
    font.push(0x10);
    font.push(0xF0);
    font.push(0x80);
    font.push(0xF0);
    font.push(0xF0);
    font.push(0x10);
    font.push(0xF0);
    font.push(0x10);
    font.push(0xF0);
    font.push(0x90);
    font.push(0x90);
    font.push(0xF0);
    font.push(0x10);
    font.push(0x10);
    font.push(0xF0);
    font.push(0x80);
    font.push(0xF0);
    font.push(0x10);
    font.push(0xF0);
    font.push(0xF0);
    font.push(0x80);
    font.push(0xF0);
    font.push(0x90);
    font.push(0xF0);
    font.push(0xF0);
    font.push(0x10);
    font.push(0x20);
    font.push(0x40);
    font.push(0x40);
    font.push(0xF0);
    font.push(0x90);
    font.push(0xF0);
    font.push(0x90);
    font.push(0xF0);
    font.push(0xF0);
    font.push(0x90);
    font.push(0xF0);
    font.push(0x10);
    font.push(0xF0);
    font.push(0xF0);
    font.push(0x90);
    font.push(0xF0);
    font.push(0x90);
    font.push(0x90);
    font.push(0xE0);
    font.push(0x90);
    font.push(0xE0);
    font.push(0x90);
    font.push(0xE0);
    font.push(0xF0);
    font.push(0x80);
    font.push(0x80);
    font.push(0x80);
    font.push(0xF0);
    font.push(0xE0);
    font.push(0x90);
    font.push(0x90);
    font.push(0x90);
    font.push(0xE0);
    font.push(0xF0);
    font.push(0x80);
    font.push(0xF0);
    font.push(0x80);
    font.push(0xF0);
    font.push(0xF0);
    font.push(0x80);
    font.push(0xF0);
    font.push(0x80);
    font.push(0x80);
    proof {
        assert(font@ =~= spec_fontset());
    }
    font
}

/// The interpreter's whole mutable state: registers, memory, stack, timer,
/// and the keypad and display it drives. All mutation flows through the
/// machine's operations; there are no hidden globals.
pub struct Chip8 {
    // Index
    pub i: u16,
    // Program counter
    pub pc: u16,
    // Memory, size 4K
    pub mem: Vec<u8>,
    // Stack, 16-levels
    pub stack: Vec<u16>,
    // Stack pointer
    pub sp: u8,
    // V register
    pub v: Vec<u8>,
    // Delay timer
    pub dt: u8,
    pub keypad: Keypad,
    pub display: Display,
    pub draw_flag: bool,
}

impl View for Chip8 {
    type V = MachineState;

    open spec fn view(&self) -> MachineState {
        MachineState {
            i: self.i,
            pc: self.pc,
            mem: self.mem@,
            stack: self.stack@,
            sp: self.sp,
            v: self.v@,
            dt: self.dt,
            pad: self.keypad.pad@,
            gfx: self.display.gfx@,
            display_dirty: self.display.draw_flag,
            draw_flag: self.draw_flag,
        }
    }
}

impl Chip8 {
    /// The model is well formed: all the fixed sizes hold.
    pub open spec fn wf(&self) -> bool {
        self@.wf()
    }

    /// A fresh machine: registers, stack and memory zeroed, the font loaded
    /// at address 0, and the program counter at the conventional load
    /// address 0x200.
    pub fn new() -> (chip: Chip8)
        ensures
            chip.wf(),
            chip@.pc == 0x200,
            chip@.i == 0,
            chip@.sp == 0,
            chip@.dt == 0,
            forall|k: int| 0 <= k < 80 ==> chip@.mem[k] == spec_fontset()[k],
            forall|k: int| 80 <= k < 4096 ==> chip@.mem[k] == 0,
            forall|k: int| 0 <= k < 16 ==> chip@.stack[k] == 0,
            forall|k: int| 0 <= k < 16 ==> chip@.v[k] == 0,
            forall|k: int| 0 <= k < 16 ==> !chip@.pad[k],
            chip@.gfx == blank_grid(),
            chip@.draw_flag,
            chip@.display_dirty,
    {
        let mut mem: Vec<u8> = Vec::new();
        let mut k: usize = 0;
        while k < 4096
            invariant
                k <= 4096,
                mem@.len() == k,
                forall|j: int| 0 <= j < k ==> mem@[j] == 0,
            decreases 4096 - k,
        {
            mem.push(0);
            k = k + 1;
        }
        let mut stack: Vec<u16> = Vec::new();
        let mut k2: usize = 0;
        while k2 < 16
            invariant
                k2 <= 16,
                stack@.len() == k2,
                forall|j: int| 0 <= j < k2 ==> stack@[j] == 0,
            decreases 16 - k2,
        {
            stack.push(0);
            k2 = k2 + 1;
        }
        let mut v: Vec<u8> = Vec::new();
        let mut k3: usize = 0;
        while k3 < 16
            invariant
                k3 <= 16,
                v@.len() == k3,
                forall|j: int| 0 <= j < k3 ==> v@[j] == 0,
            decreases 16 - k3,
        {
            v.push(0);
            k3 = k3 + 1;
        }
        // Load fontset into memory
        let font = fontset();
        let mut f: usize = 0;
        while f < 80
            invariant
                f <= 80,
                font@ == spec_fontset(),
                mem@.len() == 4096,
                forall|j: int| 0 <= j < f ==> mem@[j] == spec_fontset()[j],
                forall|j: int| f <= j < 4096 ==> mem@[j] == 0,
            decreases 80 - f,
        {
            let b = font[f];
            mem.set(f, b);
            f = f + 1;
        }
        Chip8 {
            i: 0,
            pc: 0x200,
            mem,
            stack,
            sp: 0,
            v,
            dt: 0,
            keypad: Keypad::new(),
            display: Display::new(),
            draw_flag: true,
        }
    }

    /// Copies a program image into memory starting at address 0x200. Bytes
    /// that would land at or past address 4096 are silently discarded, as
    /// the reference tooling tolerates; everything else is untouched.
    pub fn load_application(&mut self, program: &Vec<u8>)
        requires
            old(self).wf(),
        ensures
            final(self).wf(),
            forall|a: int|
                0 <= a < 4096 ==> final(self)@.mem[a] == (if 0x200 <= a && a - 0x200
                    < program@.len() {
                    program@[a - 0x200]
                } else {
                    old(self)@.mem[a]
                }),
            final(self)@ == (MachineState { mem: final(self)@.mem, ..old(self)@ }),
    {
        let n = program.len();
        let bound = if n < 3584 {
            n
        } else {
            3584
        };
        let mut j: usize = 0;
        while j < bound
            invariant
                j <= bound,
                bound <= program@.len(),
                bound <= 3584,
                bound == (if program@.len() < 3584 { program@.len() as int } else { 3584 }),
                self.mem@.len() == 4096,
                forall|a: int|
                    0 <= a < 4096 && !(0x200 <= a < 0x200 + j) ==> self.mem@[a] == old(
                        self,
                    )@.mem[a],
                forall|a: int| 0x200 <= a < 0x200 + j ==> self.mem@[a] == program@[a - 0x200],
                self.i == old(self).i,
                self.pc == old(self).pc,
                self.stack@ == old(self)@.stack,
                self.sp == old(self).sp,
                self.v@ == old(self)@.v,
                self.dt == old(self).dt,
                self.keypad.pad@ == old(self)@.pad,
                self.display.gfx@ == old(self)@.gfx,
                self.display.draw_flag == old(self)@.display_dirty,
                self.draw_flag == old(self)@.draw_flag,
            decreases bound - j,
        {
            let b = program[j];
            self.mem.set(0x200 + j, b);
            j = j + 1;
        }
        proof {
            assert(final(self)@ =~= (MachineState { mem: final(self)@.mem, ..old(self)@ }));
        }
    }

    // Fetches and reads current opcode from indexed memory.
    fn read_opcode(&self) -> (op: u16)
        requires
            self.wf(),
            self@.pc + 1 < 4096,
        ensures
            op == spec_fetch(self@),
    {
        let hi = self.mem[self.pc as usize];
        let lo = self.mem[self.pc as usize + 1];
        let op = (hi as u16) << 8 | (lo as u16);
        proof {
            assert(op == hi * 256 + lo) by (bit_vector)
                requires
                    op == (hi as u16) << 8 | (lo as u16),
            ;
        }
        op
    }

    /// Performs one fetch-decode-execute cycle and then counts the delay
    /// timer down. Stops with the fetch error when the program counter has
    /// run off the end of memory, and with the instruction's own fatal
    /// error when it has one; the state is unchanged on any stop.
    pub fn emulate_cycle(&mut self) -> (r: Result<(), Chip8Error>)
        requires
            old(self).wf(),
        ensures
            final(self).wf(),
            old(self)@.pc + 1 >= 4096 ==> r == Err::<(), Chip8Error>(Chip8Error::FetchOutOfBounds)
                && final(self)@ == old(self)@,
            old(self)@.pc + 1 < 4096 ==> {
                let op = spec_fetch(old(self)@);
                &&& (r is Ok <==> step_error(old(self)@, op) is None)
                &&& (r is Ok ==> cycle_post(old(self)@, op, final(self)@))
                &&& (r matches Err(e) ==> step_error(old(self)@, op) == Some(e) && final(self)@
                    == old(self)@)
            },
    {
        if self.pc >= 4095 {
            return Err(Chip8Error::FetchOutOfBounds);
        }
        let opcode = self.read_opcode();
        let res = self.process_opcode(opcode);
        match res {
            Ok(()) => {
                let ghost mid = self@;
                if self.dt > 0 {
                    self.dt = self.dt - 1;
                }
                proof {
                    assert(self@ =~= spec_tick(mid));
                }
                Ok(())
            },
            Err(e) => Err(e),
        }
    }

    /// Decodes and executes one instruction word against the current state.
    /// The program counter is advanced by two before dispatch. Returns the
    /// fatal condition of `step_error` when the instruction raises one,
    /// leaving the state untouched; otherwise the state becomes what
    /// `spec_process` says.
    #[verifier::rlimit(80)]
    pub fn process_opcode(&mut self, opcode: u16) -> (r: Result<(), Chip8Error>)
        requires
            old(self).wf(),
            old(self)@.pc + 4 <= 0xFFFF,
        ensures
            final(self).wf(),
            r is Ok <==> step_error(old(self)@, opcode) is None,
            r is Ok ==> process_post(old(self)@, opcode, final(self)@),
            r matches Err(e) ==> step_error(old(self)@, opcode) == Some(e) && final(self)@ == old(
                self,
            )@,
    {
        proof {
            lemma_decode_bounds(opcode);
        }
        // Decoding opcodes into nibbles
        let op_0 = (opcode & 0xF000) >> 12;
        let op_1 = (opcode & 0x0F00) >> 8;
        let op_2 = (opcode & 0x00F0) >> 4;
        let op_3 = opcode & 0x000F;

        let x = ((opcode & 0x0F00) >> 8) as usize;
        let y = ((opcode & 0x00F0) >> 4) as usize;
        let n = (opcode & 0x000F) as u8;
        let nn = (opcode & 0x00FF) as u8;
        let nnn = opcode & 0x0FFF;

        // The fatal conditions stop the machine before anything changes.
        if opcode == 0x00EE && self.sp == 0 {
            return Err(Chip8Error::StackUnderflow);
        }
        if op_0 == 0x2 && self.sp >= 16 {
            return Err(Chip8Error::StackOverflow);
        }
        if op_0 == 0xD && self.i as usize + n as usize > 4096 {
            return Err(Chip8Error::MemoryOutOfBounds);
        }
        if op_0 == 0xF && nn == 0x33 && self.i as usize + 2 >= 4096 {
            return Err(Chip8Error::MemoryOutOfBounds);
        }
        if op_0 == 0xF && (nn == 0x55 || nn == 0x65) && self.i as usize + x >= 4096 {
            return Err(Chip8Error::MemoryOutOfBounds);
        }

        // Increment the program counter
        self.pc = self.pc + 2;

        // matching on those opcode-nibbles
        match (op_0, op_1, op_2, op_3) {
            // 0x00E0: Clear display
            (0, 0, 0xE, 0) => {
                self.display.clear();
                self.draw_flag = true;
            },
            // 00EE: Returns from a subroutine
            (0, 0, 0xE, 0xE) => {
                self.sp = self.sp - 1;
                self.pc = self.stack[self.sp as usize];
            },
            // 1NNN: Jumps to address nnn
            (0x1, _, _, _) => {
                self.pc = nnn;
            },
            // 2NNN: Calls subroutine at nnn
            (0x2, _, _, _) => {
                self.stack.set(self.sp as usize, self.pc);
                self.sp = self.sp + 1;
                self.pc = nnn;
            },
            // Skips next instruction if ...
            // 3XNN: ...vx == nn
            (0x3, _, _, _) => {
                if self.v[x] == nn {
                    self.pc = self.pc + 2;
                }
            },
            // 4XNN: ...vx != nn
            (0x4, _, _, _) => {
                if self.v[x] != nn {
                    self.pc = self.pc + 2;
                }
            },
            // 5XY0: ...vx == vy
            (0x5, _, _, 0x0) => {
                if self.v[x] == self.v[y] {
                    self.pc = self.pc + 2;
                }
            },
            // Sets vx to...
            // 6XNN: ...nn
            (0x6, _, _, _) => {
                self.v.set(x, nn);
            },
            // 7XNN: ...vx + nn, wrapping; the carry flag is untouched
            (0x7, _, _, _) => {
                let sum: u16 = self.v[x] as u16 + nn as u16;
                self.v.set(x, (sum % 256) as u8);
            },
            // 8XY0: ...vy
            (0x8, _, _, 0x0) => {
                let val = self.v[y];
                self.v.set(x, val);
            },
            // 8XY1: ...vx OR vy
            (0x8, _, _, 0x1) => {
                let val = self.v[x] | self.v[y];
                self.v.set(x, val);
            },
            // 8XY2: ...vx AND vy
            (0x8, _, _, 0x2) => {
                let val = self.v[x] & self.v[y];
                self.v.set(x, val);
            },
            // 8XY3: ...vx XOR vy
            (0x8, _, _, 0x3) => {
                let val = self.v[x] ^ self.v[y];
                self.v.set(x, val);
            },
            // 8XY4: ...vx + vy with a nine-bit sum; vf is the carry
            (0x8, _, _, 0x4) => {
                let sum: u16 = self.v[x] as u16 + self.v[y] as u16;
                self.v.set(0xF, if sum > 0xFF { 1 } else { 0 });
                self.v.set(x, (sum % 256) as u8);
            },
            // 8XY5: ...vx - vy, wrapping; vf is 1 exactly when no borrow
            (0x8, _, _, 0x5) => {
                let vx = self.v[x];
                let vy = self.v[y];
                let res: u8 = if vx >= vy {
                    vx - vy
                } else {
                    ((vx as u16 + 256) - vy as u16) as u8
                };
                proof {
                    if vx >= vy {
                        lemma_small_mod((vx - vy) as nat, 256);
                    } else {
                        lemma_mod_add_multiples_vanish(vx - vy, 256);
                        lemma_small_mod((vx + 256 - vy) as nat, 256);
                    }
                }
                self.v.set(x, res);
                self.v.set(0xF, if vx >= vy { 1 } else { 0 });
            },
            // 8XY6: vf takes the low bit of vx, then vx is halved
            (0x8, _, _, 0x6) => {
                let low = self.v[x] & 1;
                proof {
                    lemma_u8_shift_arith(self.v@[x as int]);
                }
                self.v.set(0xF, low);
                let val = self.v[x] >> 1;
                proof {
                    lemma_u8_shift_arith(self.v@[x as int]);
                }
                self.v.set(x, val);
            },
            // 8XY7: ...vy - vx, wrapping; vf is 1 exactly when no borrow
            (0x8, _, _, 0x7) => {
                let vx = self.v[x];
                let vy = self.v[y];
                let res: u8 = if vy >= vx {
                    vy - vx
                } else {
                    ((vy as u16 + 256) - vx as u16) as u8
                };
                proof {
                    if vy >= vx {
                        lemma_small_mod((vy - vx) as nat, 256);
                    } else {
                        lemma_mod_add_multiples_vanish(vy - vx, 256);
                        lemma_small_mod((vy + 256 - vx) as nat, 256);
                    }
                }
                self.v.set(x, res);
                self.v.set(0xF, if vy >= vx { 1 } else { 0 });
            },
            // 8XYE: vf takes the high bit of vx, then vx is doubled
            (0x8, _, _, 0xE) => {
                let high = self.v[x] >> 7;
                proof {
                    lemma_u8_shift_arith(self.v@[x as int]);
                }
                self.v.set(0xF, high);
                let val = ((self.v[x] as u16 * 2) % 256) as u8;
                self.v.set(x, val);
            },
            // 9XY0: Skips next instruction if vx != vy.
            (0x9, _, _, 0x0) => {
                if self.v[x] != self.v[y] {
                    self.pc = self.pc + 2;
                }
            },
            // ANNN: The value of register i is set to nnn.
            (0xA, _, _, _) => {
                self.i = nnn;
            },
            // BNNN: Jumps to location nnn + v0.
            (0xB, _, _, _) => {
                self.pc = nnn + self.v[0] as u16;
            },
            // CXNN: Sets vx to a random byte masked with nn.
            (0xC, _, _, _) => {
                let b = random_byte();
                self.v.set(x, b & nn);
                proof {
                    assert(self@ =~= spec_process(old(self)@, opcode, b));
                }
            },
            // DXYN: Display n-byte sprite starting at memory location I at
            // (VX, VY), set VF = collision.
            (0xD, _, _, _) => {
                let mut sprite: Vec<u8> = Vec::new();
                let mut j: usize = 0;
                while j < n as usize
                    invariant
                        j <= n as usize,
                        n < 16,
                        self.wf(),
                        self.i as usize + n as usize <= 4096,
                        sprite@ == self@.mem.subrange(self.i as int, self.i + j),
                    decreases n as usize - j,
                {
                    let b = self.mem[self.i as usize + j];
                    sprite.push(b);
                    proof {
                        assert(sprite@ =~= self@.mem.subrange(self.i as int, self.i + j + 1));
                    }
                    j = j + 1;
                }
                let col = self.display.draw(self.v[x], self.v[y], &sprite);
                self.v.set(0xF, if col { 1 } else { 0 });
            },
            // EX9E: Skip next instruction if key with the value of vx is
            // pressed.
            (0xE, _, 0x9, 0xE) => {
                let key = self.v[x];
                let pressed = if (key as usize) < 16 {
                    self.keypad.get_status(key as usize)
                } else {
                    false
                };
                if pressed {
                    self.pc = self.pc + 2;
                }
            },
            // EXA1: Skip next instruction if key with the value of vx is not
            // pressed.
            (0xE, _, 0xA, 0x1) => {
                let key = self.v[x];
                let pressed = if (key as usize) < 16 {
                    self.keypad.get_status(key as usize)
                } else {
                    false
                };
                if !pressed {
                    self.pc = self.pc + 2;
                }
            },
            // FX07: Set vx to the value of the delay timer
            (0xF, _, 0x0, 0x7) => {
                let val = self.dt;
                self.v.set(x, val);
            },
            // FX0A: Wait for a key press: retry this instruction next cycle
            // until some key is down, then store the lowest pressed index.
            (0xF, _, 0x0, 0xA) => {
                let mut found: usize = 16;
                let mut k: usize = 0;
                while k < 16
                    invariant
                        k <= 16,
                        self.wf(),
                        found == 16 || found < k,
                        found == 16 ==> forall|j: int| 0 <= j < k ==> !self@.pad[j],
                        found < 16 ==> self@.pad[found as int] && (forall|j: int|
                            0 <= j < found ==> !self@.pad[j]),
                    decreases 16 - k,
                {
                    if found == 16 && self.keypad.pad[k] {
                        found = k;
                    }
                    k = k + 1;
                }
                proof {
                    lemma_first_key_skip(self@.pad, 0, found as int);
                }
                if found < 16 {
                    self.v.set(x, found as u8);
                } else {
                    self.pc = self.pc - 2;
                }
            },
            // FX15: Set delay timer to vx
            (0xF, _, 0x1, 0x5) => {
                self.dt = self.v[x];
            },
            // FX18: Set sound timer to vx (no audio is emulated)
            (0xF, _, 0x1, 0x8) => {},
            // FX1E: Set i to i + vx, wrapping in sixteen bits
            (0xF, _, 0x1, 0xE) => {
                let sum: u32 = self.i as u32 + self.v[x] as u32;
                self.i = (sum % 0x10000) as u16;
            },
            // FX29: Set i to the location of the font sprite for digit vx
            (0xF, _, 0x2, 0x9) => {
                self.i = 5 * self.v[x] as u16;
            },
            // FX33: Store the bcd representation of vx in memory locations
            // i, i+1 and i+2.
            (0xF, _, 0x3, 0x3) => {
                let vx = self.v[x];
                let ii = self.i as usize;
                self.mem.set(ii, vx / 100);
                self.mem.set(ii + 1, (vx / 10) % 10);
                self.mem.set(ii + 2, vx % 10);
            },
            // FX55: Store registers v0 through vx in memory starting at
            // location I
            (0xF, _, 0x5, 0x5) => {
                let mut j: usize = 0;
                while j <= x
                    invariant
                        j <= x + 1,
                        x < 16,
                        self.mem@.len() == 4096,
                        self.i as usize + x < 4096,
                        forall|a: int|
                            0 <= a < 4096 && !(self.i <= a < self.i + j) ==> self.mem@[a] == old(
                                self,
                            )@.mem[a],
                        forall|a: int|
                            self.i <= a < self.i + j ==> self.mem@[a] == old(self)@.v[a - self.i],
                        self.i == old(self).i,
                        self.pc == old(self)@.pc + 2,
                        self.stack@ == old(self)@.stack,
                        self.sp == old(self).sp,
                        self.v@ == old(self)@.v,
                        self.dt == old(self).dt,
                        self.keypad.pad@ == old(self)@.pad,
                        self.display.gfx@ == old(self)@.gfx,
                        self.display.draw_flag == old(self)@.display_dirty,
                        self.draw_flag == old(self)@.draw_flag,
                        self.v@.len() == 16,
                    decreases x + 1 - j,
                {
                    let b = self.v[j];
                    self.mem.set(self.i as usize + j, b);
                    j = j + 1;
                }
                self.i = self.i + x as u16 + 1;
                proof {
                    assert(self@.mem =~= Seq::new(
                        4096,
                        |a: int|
                            if old(self)@.i <= a <= old(self)@.i + op_x(opcode) {
                                old(self)@.v[a - old(self)@.i]
                            } else {
                                old(self)@.mem[a]
                            },
                    ));
                }
            },
            // FX65: Read registers v0 through vx from memory starting at
            // location I
            (0xF, _, 0x6, 0x5) => {
                let mut j: usize = 0;
                while j <= x
                    invariant
                        j <= x + 1,
                        x < 16,
                        self.mem@.len() == 4096,
                        self.v@.len() == 16,
                        self.i as usize + x < 4096,
                        forall|k2: int| j <= k2 < 16 ==> self.v@[k2] == old(self)@.v[k2],
                        forall|k2: int|
                            0 <= k2 < j ==> self.v@[k2] == old(self)@.mem[old(self)@.i + k2],
                        self.mem@ == old(self)@.mem,
                        self.i == old(self).i,
                        self.pc == old(self)@.pc + 2,
                        self.stack@ == old(self)@.stack,
                        self.sp == old(self).sp,
                        self.dt == old(self).dt,
                        self.keypad.pad@ == old(self)@.pad,
                        self.display.gfx@ == old(self)@.gfx,
                        self.display.draw_flag == old(self)@.display_dirty,
                        self.draw_flag == old(self)@.draw_flag,
                    decreases x + 1 - j,
                {
                    let b = self.mem[self.i as usize + j];
                    self.v.set(j, b);
                    j = j + 1;
                }
                self.i = self.i + x as u16 + 1;
                proof {
                    assert(self@.v =~= Seq::new(
                        16,
                        |k2: int|
                            if k2 <= op_x(opcode) {
                                old(self)@.mem[old(self)@.i + k2]
                            } else {
                                old(self)@.v[k2]
                            },
                    ));
                }
            },
            // unrecognized pattern: ignored; pc has already advanced
            _ => {},
        }
        Ok(())
    }
}

/// Shifting and masking a byte agree with its halving, parity and high bit.
proof fn lemma_u8_shift_arith(a: u8)
    by (bit_vector)
    ensures
        a >> 1 == a / 2,
        (a & 1) == a % 2,
        a >> 7 == a / 128,
{
}

/// Whether the condition of a skip instruction holds on state `s`: register
/// equal to the immediate, registers equal or unequal, or the key named by
/// the register pressed or not pressed.
pub open spec fn skip_condition(s: MachineState, op: u16) -> bool {
    if op_hi(op) == 0x3 {
        s.v[op_x(op) as int] == op_nn(op)
    } else if op_hi(op) == 0x4 {
        s.v[op_x(op) as int] != op_nn(op)
    } else if op_hi(op) == 0x5 {
        s.v[op_x(op) as int] == s.v[op_y(op) as int]
    } else if op_hi(op) == 0x9 {
        s.v[op_x(op) as int] != s.v[op_y(op) as int]
    } else if op_hi(op) == 0xE && op_nn(op) == 0x9E {
        key_pressed(s, s.v[op_x(op) as int])
    } else {
        !key_pressed(s, s.v[op_x(op) as int])
    }
}

/// Loading an immediate into a register, storing that register into the
/// delay timer, and reading the timer back into the register round-trips
/// the immediate: the register holds it again after the three steps.
pub proof fn lemma_timer_round_trip(s: MachineState, op_set: u16, op_store: u16, op_load: u16)
    requires
        s.wf(),
        op_hi(op_set) == 0x6,
        op_hi(op_store) == 0xF,
        op_nn(op_store) == 0x15,
        op_x(op_store) == op_x(op_set),
        op_hi(op_load) == 0xF,
        op_nn(op_load) == 0x07,
        op_x(op_load) == op_x(op_set),
    ensures
        spec_process(spec_process(spec_process(s, op_set, 0), op_store, 0), op_load, 0).v[op_x(
            op_set,
        ) as int] == op_nn(op_set),
{
    lemma_decode_bounds(op_set);
    lemma_decode_bounds(op_store);
    lemma_decode_bounds(op_load);
}

/// The wrapping add-immediate instruction leaves the carry flag alone when
/// its target is not the flag register: only the nine-bit register add
/// writes the carry.
pub proof fn lemma_add_immediate_no_carry(s: MachineState, op: u16)
    requires
        s.wf(),
        op_hi(op) == 0x7,
        op_x(op) != 0xF,
    ensures
        spec_process(s, op, 0).v[op_x(op) as int] == (s.v[op_x(op) as int] + op_nn(op)) % 256,
        spec_process(s, op, 0).v[0xF] == s.v[0xF],
{
    lemma_decode_bounds(op);
}

/// The jump instruction sets the program counter to exactly its address
/// operand; nothing increments it afterwards in the same cycle.
pub proof fn lemma_jump_exact(s: MachineState, op: u16)
    requires
        s.wf(),
        op_hi(op) == 0x1,
    ensures
        spec_process(s, op, 0).pc == op_nnn(op),
{
    lemma_decode_bounds(op);
}

/// A call followed by a return is a stack round trip: the program counter
/// comes back to the instruction after the call site, and the stack pointer
/// to its pre-call value.
pub proof fn lemma_call_return_round_trip(s: MachineState, op_call: u16)
    requires
        s.wf(),
        op_hi(op_call) == 0x2,
        s.sp < 16,
        s.pc + 2 <= 0xFFFF,
    ensures
        spec_process(spec_process(s, op_call, 0), 0x00EE, 0).pc == s.pc + 2,
        spec_process(spec_process(s, op_call, 0), 0x00EE, 0).sp == s.sp,
{
    lemma_decode_bounds(op_call);
    let s1 = spec_process(s, op_call, 0);
    assert(s1.stack[s.sp as int] == (s.pc + 2) as u16);
}

/// The binary-coded-decimal store writes exactly the hundreds, tens and
/// units digits of the register, in that order, at the index register.
pub proof fn lemma_bcd_digits(s: MachineState, op: u16)
    requires
        s.wf(),
        op_hi(op) == 0xF,
        op_nn(op) == 0x33,
        s.i + 2 < 4096,
    ensures
        spec_process(s, op, 0).mem[s.i as int] == s.v[op_x(op) as int] / 100,
        spec_process(s, op, 0).mem[s.i as int + 1] == (s.v[op_x(op) as int] / 10) % 10,
        spec_process(s, op, 0).mem[s.i as int + 2] == s.v[op_x(op) as int] % 10,
{
    lemma_decode_bounds(op);
}

/// A skip instruction advances the program counter by exactly four (two for
/// the fetch, two for the skip) when its condition holds, and by exactly
/// two otherwise.
pub proof fn lemma_skip_advance(s: MachineState, op: u16)
    requires
        s.wf(),
        s.pc + 4 <= 0xFFFF,
        op_hi(op) == 0x3 || op_hi(op) == 0x4 || (op_hi(op) == 0x5 && op_n(op) == 0) || (op_hi(op)
            == 0x9 && op_n(op) == 0) || (op_hi(op) == 0xE && (op_nn(op) == 0x9E || op_nn(op)
            == 0xA1)),
    ensures
        spec_process(s, op, 0).pc == s.pc + (if skip_condition(s, op) {
            4int
        } else {
            2int
        }),
{
    lemma_decode_bounds(op);
}

/// The font lookup instruction points the index register at the glyph of
/// the hex digit in the register: glyph `d` lives at address 5d.
pub proof fn lemma_font_lookup(s: MachineState, op: u16)
    requires
        s.wf(),
        op_hi(op) == 0xF,
        op_nn(op) == 0x29,
        s.v[op_x(op) as int] < 16,
    ensures
        spec_process(s, op, 0).i == 5 * s.v[op_x(op) as int],
{
    lemma_decode_bounds(op);
}


} // verus!
