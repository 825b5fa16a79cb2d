use vstd::prelude::*;

use crate::fonts::font_seq;
use crate::fonts::font_set;
use crate::CHIP8_WIDTH;
use crate::CHIP8_HEIGHT;
use crate::CHIP8_MEM;
use crate::ROM_SIZE;
use crate::OPCODE_SIZE;
use crate::FRAME_TIME;
use crate::OPCODE_TIME;

verus! {

/// Fatal machine faults, surfaced to the caller from `load_rom` and
/// `frame`; once one is returned the machine must be reconstructed
/// before it is driven again.
#[derive(Debug, Clone, Copy, PartialEq, Eq, Structural)]
pub enum Error {
    /// An unrecognized or ill-formed instruction, carrying its two bytes.
    InvalidOperation(u8, u8),
    /// A ROM larger than the memory left above the ROM base, carrying the
    /// attempted size.
    RomTooLarge(usize),
    /// A program counter that is misaligned or outside memory at a fetch,
    /// carrying the offending address.
    PcOutOfBounds(u16),
    /// An explicit trap for development use.
    Debug,
}

/// What an instruction asks of the program counter: advance to the next
/// instruction, skip over one, or jump to an explicit address.
#[derive(Debug, Clone, Copy, PartialEq, Eq, Structural)]
pub enum ProgramCounter {
    Next,
    Skip,
    Jump(u16),
}

/// The ghost image of the whole machine state; every contract speaks of
/// the machine through this view.
#[verifier::ext_equal]
pub struct ChipView {
    pub mem: Seq<u8>,
    pub v: Seq<u8>,
    pub i: u16,
    pub pc: u16,
    pub stack: Seq<u16>,
    pub sp: u8,
    pub dt: u8,
    pub st: u8,
    pub wait: bool,
    pub keys: Seq<bool>,
    pub wreg: u16,
    pub disp: Seq<u8>,
    pub time: isize,
}

impl ChipView {
    /// Well-formedness of the machine state: the sizes of memory, the
    /// register file, the stack, the keypad and the display are fixed,
    /// the stack pointer stays within the sixteen slots, the recorded
    /// key-wait target register is a valid register index, and every
    /// display cell holds a single bit.
    pub open spec fn wf(self) -> bool {
        &&& self.mem.len() == CHIP8_MEM
        &&& self.v.len() == 16
        &&& self.stack.len() == 16
        &&& self.keys.len() == 16
        &&& self.disp.len() == CHIP8_WIDTH * CHIP8_HEIGHT
        &&& self.sp <= 16
        &&& self.wreg < 16
        &&& forall|k: int| 0 <= k < self.disp.len() ==> self.disp[k] <= 1
    }
}

/// The virtual CPU: memory, registers, stack, timers, display, keypad
/// state and the per-frame time budget.
pub struct Chip {
    pub memory: Vec<u8>,
    pub v: Vec<u8>,
    pub i: u16,
    pub pc: u16,
    pub stack: Vec<u16>,
    pub sp: u8,
    pub dt: u8,
    pub st: u8,
    pub input_wait: bool,
    pub input_keys: Vec<bool>,
    pub input_register: u16,
    pub display: Vec<u8>,
    pub time: isize,
}

impl View for Chip {
    type V = ChipView;

    open spec fn view(&self) -> ChipView {
        ChipView {
            mem: self.memory@,
            v: self.v@,
            i: self.i,
            pc: self.pc,
            stack: self.stack@,
            sp: self.sp,
            dt: self.dt,
            st: self.st,
            wait: self.input_wait,
            keys: self.input_keys@,
            wreg: self.input_register,
            disp: self.display@,
            time: self.time,
        }
    }
}

impl Chip {
    /// Constructs the machine: all registers, the stack, the timers and
    /// the display are zeroed, the font table sits at address 0, the rest
    /// of memory is zero, and the program counter starts at the ROM base.
    pub fn new() -> (c: Chip)
        ensures
            c@.wf(),
            forall|k: int| 0 <= k < font_seq().len() ==> c@.mem[k] == font_seq()[k],
            forall|k: int| font_seq().len() <= k < CHIP8_MEM ==> c@.mem[k] == 0,
            forall|k: int| 0 <= k < 16 ==> c@.v[k] == 0,
            c@.i == 0,
            c@.pc == ROM_SIZE as u16,
            forall|k: int| 0 <= k < 16 ==> c@.stack[k] == 0,
            c@.sp == 0,
            c@.dt == 0,
            c@.st == 0,
            c@.wait == false,
            forall|k: int| 0 <= k < 16 ==> c@.keys[k] == false,
            c@.wreg == 0,
            forall|k: int| 0 <= k < c@.disp.len() ==> c@.disp[k] == 0,
            c@.time == 0,
    {
        let font = font_set();
        let mut memory: Vec<u8> = Vec::new();
        let mut k: usize = 0;
        while k < CHIP8_MEM
            invariant
                k <= CHIP8_MEM,
                memory@.len() == k,
                forall|j: int| 0 <= j < k ==> memory@[j] == 0,
            decreases CHIP8_MEM - k,
        {
            memory.push(0);
            k = k + 1;
        }
        let mut k: usize = 0;
        while k < 80
            invariant
                k <= 80,
                font@ == font_seq(),
                memory@.len() == CHIP8_MEM,
                forall|j: int| 0 <= j < k ==> memory@[j] == font_seq()[j],
                forall|j: int| k <= j < CHIP8_MEM ==> memory@[j] == 0,
            decreases 80 - k,
        {
            memory[k] = font[k];
            k = k + 1;
        }
        let mut v: Vec<u8> = Vec::new();
        let mut stack: Vec<u16> = Vec::new();
        let mut input_keys: Vec<bool> = Vec::new();
        let mut k: usize = 0;
        while k < 16
            invariant
                k <= 16,
                v@.len() == k,
                stack@.len() == k,
                input_keys@.len() == k,
                forall|j: int| 0 <= j < k ==> v@[j] == 0,
                forall|j: int| 0 <= j < k ==> stack@[j] == 0,
                forall|j: int| 0 <= j < k ==> input_keys@[j] == false,
            decreases 16 - k,
        {
            v.push(0);
            stack.push(0);
            input_keys.push(false);
            k = k + 1;
        }
        let mut display: Vec<u8> = Vec::new();
        let mut k: usize = 0;
        while k < CHIP8_WIDTH * CHIP8_HEIGHT
            invariant
                k <= CHIP8_WIDTH * CHIP8_HEIGHT,
                display@.len() == k,
                forall|j: int| 0 <= j < k ==> display@[j] == 0,
            decreases CHIP8_WIDTH * CHIP8_HEIGHT - k,
        {
            display.push(0);
            k = k + 1;
        }
        Chip {
            memory,
            v,
            i: 0,
            pc: ROM_SIZE as u16,
            stack,
            sp: 0,
            dt: 0,
            st: 0,
            input_wait: false,
            input_keys,
            input_register: 0,
            display,
            time: 0,
        }
    }

    /// Copies a ROM verbatim into memory starting at the ROM base; fails
    /// with `RomTooLarge` exactly when the ROM does not fit in the memory
    /// above the base, leaving the machine untouched.
    pub fn load_rom(&mut self, rom: &[u8]) -> (r: Result<(), Error>)
        requires
            old(self)@.wf(),
        ensures
            final(self)@.wf(),
            rom@.len() > CHIP8_MEM - ROM_SIZE ==> {
                &&& r == Err::<(), Error>(Error::RomTooLarge(rom@.len() as usize))
                &&& final(self)@ == old(self)@
            },
            rom@.len() <= CHIP8_MEM - ROM_SIZE ==> {
                &&& r == Ok::<(), Error>(())
                &&& forall|j: int|
                    0 <= j < rom@.len() ==> final(self)@.mem[ROM_SIZE + j] == rom@[j]
                &&& forall|j: int|
                    0 <= j < CHIP8_MEM && !(ROM_SIZE <= j < ROM_SIZE + rom@.len())
                        ==> final(self)@.mem[j] == old(self)@.mem[j]
                &&& final(self)@ == (ChipView { mem: final(self)@.mem, ..old(self)@ })
            },
    {
        if rom.len() > CHIP8_MEM - ROM_SIZE {
            return Err(Error::RomTooLarge(rom.len()));
        }
        let mut j: usize = 0;
        while j < rom.len()
            invariant
                old(self)@.wf(),
                j <= rom@.len(),
                rom@.len() <= CHIP8_MEM - ROM_SIZE,
                self@ == (ChipView { mem: self@.mem, ..old(self)@ }),
                self@.mem.len() == CHIP8_MEM,
                forall|k: int| 0 <= k < j ==> self@.mem[ROM_SIZE + k] == rom@[k],
                forall|k: int|
                    0 <= k < CHIP8_MEM && !(ROM_SIZE <= k < ROM_SIZE + j)
                        ==> self@.mem[k] == old(self)@.mem[k],
            decreases rom@.len() - j,
        {
            self.memory[ROM_SIZE + j] = rom[j];
            j = j + 1;
        }
        Ok(())
    }

    /// Whether a tone should sound: exactly when the sound timer is
    /// nonzero.
    pub fn tone(&self) -> (r: bool)
        ensures
            r == (self@.st > 0),
    {
        self.st > 0
    }

    /// The display bitmap, one byte per pixel in row-major order, each
    /// holding 0 or 1.
    pub fn disp(&self) -> (r: &Vec<u8>)
        ensures
            r@ == self@.disp,
    {
        &self.display
    }
}

/// The highest nibble of an instruction word.
pub open spec fn nb0(op: u16) -> u16 {
    op / 0x1000
}

/// The second nibble: the register index `x`.
pub open spec fn nbx(op: u16) -> u16 {
    (op / 0x100) % 0x10
}

/// The third nibble: the register index `y`.
pub open spec fn nby(op: u16) -> u16 {
    (op / 0x10) % 0x10
}

/// The lowest nibble: the small count `n`.
pub open spec fn nbn(op: u16) -> u16 {
    op % 0x10
}

/// The low byte of an instruction word: the literal `kk`.
pub open spec fn op_kk(op: u16) -> u8 {
    (op % 0x100) as u8
}

/// The low twelve bits of an instruction word: the address `nnn`.
pub open spec fn op_nnn(op: u16) -> u16 {
    op % 0x1000
}

/// The program counter advanced past one instruction, wrapping at the
/// 16-bit boundary.
pub open spec fn pc_next(pc: u16) -> u16 {
    ((pc + OPCODE_SIZE) % 0x10000) as u16
}

/// The program counter advanced past two instructions (a skip).
pub open spec fn pc_skip(pc: u16) -> u16 {
    ((pc + 2 * OPCODE_SIZE) % 0x10000) as u16
}

/// The same machine state with the program counter replaced.
pub open spec fn with_pc(s: ChipView, p: u16) -> ChipView {
    ChipView { pc: p, ..s }
}

/// Clear the display.
pub open spec fn eff_00e0(s: ChipView) -> ChipView {
    ChipView { disp: Seq::new(s.disp.len(), |k: int| 0u8), ..s }
}

/// Pop the call stack; the jump target is the popped slot.
pub open spec fn eff_00ee(s: ChipView) -> ChipView {
    ChipView { sp: (s.sp - 1) as u8, ..s }
}

/// Push the address of the following instruction onto the call stack.
pub open spec fn eff_2nnn(s: ChipView) -> ChipView {
    ChipView { stack: s.stack.update(s.sp as int, pc_next(s.pc)), sp: (s.sp + 1) as u8, ..s }
}

/// Vx := kk.
pub open spec fn eff_6xkk(s: ChipView, x: int, kk: u8) -> ChipView {
    ChipView { v: s.v.update(x, kk), ..s }
}

/// Vx := Vx + kk with 8-bit wraparound and no flag side effect.
pub open spec fn eff_7xkk(s: ChipView, x: int, kk: u8) -> ChipView {
    ChipView { v: s.v.update(x, ((s.v[x] + kk) % 256) as u8), ..s }
}

/// Vx := Vy.
pub open spec fn eff_8xy0(s: ChipView, x: int, y: int) -> ChipView {
    ChipView { v: s.v.update(x, s.v[y]), ..s }
}

/// Vx := Vx OR Vy.
pub open spec fn eff_8xy1(s: ChipView, x: int, y: int) -> ChipView {
    ChipView { v: s.v.update(x, s.v[x] | s.v[y]), ..s }
}

/// Vx := Vx AND Vy.
pub open spec fn eff_8xy2(s: ChipView, x: int, y: int) -> ChipView {
    ChipView { v: s.v.update(x, s.v[x] & s.v[y]), ..s }
}

/// Vx := Vx XOR Vy.
pub open spec fn eff_8xy3(s: ChipView, x: int, y: int) -> ChipView {
    ChipView { v: s.v.update(x, s.v[x] ^ s.v[y]), ..s }
}

/// Vx := low byte of Vx + Vy; VF := carry out of the sum. The flag
/// write comes last, so it wins when x is 15.
pub open spec fn eff_8xy4(s: ChipView, x: int, y: int) -> ChipView {
    let sum = s.v[x] + s.v[y];
    ChipView {
        v: s.v.update(x, (sum % 256) as u8).update(15, if sum > 255 { 1u8 } else { 0u8 }),
        ..s
    }
}

/// Vx := Vx - Vy with wraparound; VF := 1 exactly when no borrow
/// occurred (Vx > Vy). The flag write comes last.
pub open spec fn eff_8xy5(s: ChipView, x: int, y: int) -> ChipView {
    let d = (s.v[x] - s.v[y] + 256) % 256;
    ChipView {
        v: s.v.update(x, d as u8).update(15, if s.v[x] > s.v[y] { 1u8 } else { 0u8 }),
        ..s
    }
}

/// Vx := Vx shifted right by one; VF := the bit shifted out.
pub open spec fn eff_8xy6(s: ChipView, x: int) -> ChipView {
    ChipView {
        v: s.v.update(x, (s.v[x] / 2) as u8).update(15, (s.v[x] % 2) as u8),
        ..s
    }
}

/// Vx := Vy - Vx with wraparound; VF := 1 exactly when no borrow
/// occurred (Vy > Vx).
pub open spec fn eff_8xy7(s: ChipView, x: int, y: int) -> ChipView {
    let d = (s.v[y] - s.v[x] + 256) % 256;
    ChipView {
        v: s.v.update(x, d as u8).update(15, if s.v[y] > s.v[x] { 1u8 } else { 0u8 }),
        ..s
    }
}

/// Vx := Vx shifted left by one; VF := the bit shifted out.
pub open spec fn eff_8xye(s: ChipView, x: int) -> ChipView {
    ChipView {
        v: s.v.update(x, ((s.v[x] * 2) % 256) as u8).update(15, (s.v[x] / 128) as u8),
        ..s
    }
}

/// I := nnn.
pub open spec fn eff_annn(s: ChipView, nnn: u16) -> ChipView {
    ChipView { i: nnn, ..s }
}

/// Vx := random byte AND kk.
pub open spec fn eff_cxkk(s: ChipView, x: int, kk: u8, b: u8) -> ChipView {
    ChipView { v: s.v.update(x, b & kk), ..s }
}

/// Vx := DT.
pub open spec fn eff_fx07(s: ChipView, x: int) -> ChipView {
    ChipView { v: s.v.update(x, s.dt), ..s }
}

/// Begin a blocking key wait targeting register x.
pub open spec fn eff_fx0a(s: ChipView, x: int) -> ChipView {
    ChipView { wait: true, wreg: x as u16, ..s }
}

/// DT := Vx.
pub open spec fn eff_fx15(s: ChipView, x: int) -> ChipView {
    ChipView { dt: s.v[x], ..s }
}

/// ST := Vx.
pub open spec fn eff_fx18(s: ChipView, x: int) -> ChipView {
    ChipView { st: s.v[x], ..s }
}

/// I := I + Vx with 16-bit wraparound; VF := 1 exactly when the
/// resulting index leaves the addressable range.
pub open spec fn eff_fx1e(s: ChipView, x: int) -> ChipView {
    let ni = ((s.i + s.v[x]) % 0x10000) as u16;
    ChipView { i: ni, v: s.v.update(15, if ni > 0x0FFF { 1u8 } else { 0u8 }), ..s }
}

/// I := address of the font glyph for the low nibble of Vx; each glyph
/// is five bytes long.
pub open spec fn eff_fx29(s: ChipView, x: int) -> ChipView {
    ChipView { i: ((s.v[x] % 16) * 5) as u16, ..s }
}

/// Write the decimal digits of Vx to memory at I, I+1 and I+2, the
/// addresses wrapping at the end of memory.
pub open spec fn eff_fx33(s: ChipView, x: int) -> ChipView {
    ChipView {
        mem: s.mem.update(s.i as int % (CHIP8_MEM as int), (s.v[x] / 100) as u8)
            .update((s.i as int + 1) % (CHIP8_MEM as int), ((s.v[x] % 100) / 10) as u8)
            .update((s.i as int + 2) % (CHIP8_MEM as int), (s.v[x] % 10) as u8),
        ..s
    }
}

/// Memory after storing registers V0..V(cnt-1) at I, I+1, ..., the
/// addresses wrapping at the end of memory, in ascending order.
pub open spec fn store_regs(mem: Seq<u8>, v: Seq<u8>, i: int, cnt: int) -> Seq<u8>
    decreases cnt,
{
    if cnt <= 0 {
        mem
    } else {
        store_regs(mem, v, i, cnt - 1).update((i + cnt - 1) % (CHIP8_MEM as int), v[cnt - 1])
    }
}

/// The register file after loading V0..V(cnt-1) from memory at I,
/// I+1, ..., the addresses wrapping at the end of memory.
pub open spec fn load_regs(v: Seq<u8>, mem: Seq<u8>, i: int, cnt: int) -> Seq<u8>
    decreases cnt,
{
    if cnt <= 0 {
        v
    } else {
        load_regs(v, mem, i, cnt - 1).update(cnt - 1, mem[(i + cnt - 1) % (CHIP8_MEM as int)])
    }
}

/// Store the x+1 registers V0..Vx (inclusive) to memory at I.
pub open spec fn eff_fx55(s: ChipView, x: int) -> ChipView {
    ChipView { mem: store_regs(s.mem, s.v, s.i as int, x + 1), ..s }
}

/// Load the x+1 registers V0..Vx (inclusive) from memory at I.
pub open spec fn eff_fx65(s: ChipView, x: int) -> ChipView {
    ChipView { v: load_regs(s.v, s.mem, s.i as int, x + 1), ..s }
}

/// The two instruction bytes at the program counter, big-endian.
pub open spec fn fetch_opcode(s: ChipView) -> u16 {
    (s.mem[s.pc as int] * 256 + s.mem[s.pc + 1]) as u16
}

/// The bit of a sprite byte shown at column offset `b`, most
/// significant bit first.
pub open spec fn sprite_pixel(byte: u8, b: int) -> u8 {
    (byte >> ((7 - b) as u8)) & 1
}

/// The sprite row offset whose wrapped position lands on display row
/// `py` when the sprite origin row is `vy`.
pub open spec fn row_of(vy: int, py: int) -> int {
    (py - vy) % (CHIP8_HEIGHT as int)
}

/// The sprite column offset whose wrapped position lands on display
/// column `px` when the sprite origin column is `vx`.
pub open spec fn col_of(vx: int, px: int) -> int {
    (px - vx) % (CHIP8_WIDTH as int)
}

/// Whether an n-row sprite drawn at origin (vx, vy) covers the display
/// cell with row-major index `k`.
pub open spec fn draw_covers(vx: int, vy: int, n: int, k: int) -> bool {
    row_of(vy, k / (CHIP8_WIDTH as int)) < n && col_of(vx, k % (CHIP8_WIDTH as int)) < 8
}

/// The sprite bit that lands on display cell `k`: bit `col_of` of the
/// sprite row read from memory at I plus `row_of`, wrapping at the end
/// of memory.
pub open spec fn draw_bit(s: ChipView, vx: int, vy: int, k: int) -> u8 {
    sprite_pixel(
        s.mem[(s.i + row_of(vy, k / (CHIP8_WIDTH as int))) % (CHIP8_MEM as int)],
        col_of(vx, k % (CHIP8_WIDTH as int)),
    )
}

/// Exclusive-or of two single bits.
pub open spec fn xor_bit(a: u8, b: u8) -> u8 {
    if a == b {
        0
    } else {
        1
    }
}

/// The display after an n-row sprite is drawn at origin (vx, vy): each
/// covered cell is XORed with its sprite bit, every other cell keeps
/// its value.
pub open spec fn draw_disp(s: ChipView, vx: int, vy: int, n: int) -> Seq<u8> {
    Seq::new(
        s.disp.len(),
        |k: int|
            if draw_covers(vx, vy, n, k) {
                xor_bit(s.disp[k], draw_bit(s, vx, vy, k))
            } else {
                s.disp[k]
            },
    )
}

/// Whether the draw clears some previously set pixel: a collision.
pub open spec fn draw_collision(s: ChipView, vx: int, vy: int, n: int) -> bool {
    exists|k: int|
        0 <= k < s.disp.len() && draw_covers(vx, vy, n, k) && s.disp[k] == 1 && draw_bit(
            s,
            vx,
            vy,
            k,
        ) == 1
}

/// Draw the n-byte sprite at memory index I at position (Vx, Vy) with
/// wraparound on both axes; VF := 1 exactly when a set pixel was
/// cleared.
pub open spec fn eff_dxyn(s: ChipView, x: int, y: int, n: int) -> ChipView {
    let vx = s.v[x] as int;
    let vy = s.v[y] as int;
    ChipView {
        disp: draw_disp(s, vx, vy, n),
        v: s.v.update(15, if draw_collision(s, vx, vy, n) { 1u8 } else { 0u8 }),
        ..s
    }
}

/// Whether cell `k` has already been written when the draw loop stands
/// at sprite row `r`, column `b` (rows below `r` done, row `r` done up
/// to column `b`).
pub open spec fn draw_done(vx: int, vy: int, r: int, b: int, k: int) -> bool {
    let kr = row_of(vy, k / (CHIP8_WIDTH as int));
    let kb = col_of(vx, k % (CHIP8_WIDTH as int));
    kb < 8 && (kr < r || (kr == r && kb < b))
}

/// The display part-way through a draw: cells written so far hold the
/// XOR, the rest their old value.
pub open spec fn draw_disp_upto(s: ChipView, vx: int, vy: int, r: int, b: int) -> Seq<u8> {
    Seq::new(
        s.disp.len(),
        |k: int|
            if draw_done(vx, vy, r, b, k) {
                xor_bit(s.disp[k], draw_bit(s, vx, vy, k))
            } else {
                s.disp[k]
            },
    )
}

/// Whether a collision has already been seen part-way through a draw.
pub open spec fn draw_hit_upto(s: ChipView, vx: int, vy: int, r: int, b: int) -> bool {
    exists|k: int|
        0 <= k < s.disp.len() && draw_done(vx, vy, r, b, k) && s.disp[k] == 1 && draw_bit(
            s,
            vx,
            vy,
            k,
        ) == 1
}

/// A position `q` in [0, m) is the wrapped sum of `vv` and an offset
/// `off` in [0, m) exactly when the wrapped difference recovers the
/// offset.
proof fn lemma_wrap_offset(vv: int, off: int, q: int, m: int)
    requires
        0 <= vv,
        0 <= off < m,
        0 <= q < m,
    ensures
        ((q - vv) % m == off) <==> (q == (vv + off) % m),
{
    vstd::arithmetic::div_mod::lemma_sub_mod_noop(vv + off, vv, m);
    vstd::arithmetic::div_mod::lemma_sub_mod_noop_right((vv + off) % m, vv, m);
    vstd::arithmetic::div_mod::lemma_add_mod_noop_right(vv, q - vv, m);
    vstd::arithmetic::div_mod::lemma_small_mod(off as nat, m as nat);
    vstd::arithmetic::div_mod::lemma_small_mod(q as nat, m as nat);
}

/// The display cell written at draw step (row, bit) is the unique cell
/// whose recovered offsets are exactly (row, bit).
proof fn lemma_draw_cell_id(vx: int, vy: int, row: int, bit: int, kk: int)
    requires
        0 <= vx,
        0 <= vy,
        0 <= row < 32,
        0 <= bit < 8,
        0 <= kk < 2048,
    ensures
        (row_of(vy, kk / 64) == row && col_of(vx, kk % 64) == bit) <==> (kk == ((vy + row) % 32)
            * 64 + (vx + bit) % 64),
{
    vstd::arithmetic::div_mod::lemma_fundamental_div_mod(kk, 64);
    lemma_wrap_offset(vy, row, kk / 64, 32);
    lemma_wrap_offset(vx, bit, kk % 64, 64);
    if kk == ((vy + row) % 32) * 64 + (vx + bit) % 64 {
        vstd::arithmetic::div_mod::lemma_fundamental_div_mod_converse(
            kk,
            64,
            (vy + row) % 32,
            (vx + bit) % 64,
        );
    }
}

proof fn lemma_sprite_pixel_bit(byte: u8, sh: u8)
    ensures
        (byte >> sh) & 1 <= 1,
{
    assert((byte >> sh) & 1 <= 1) by (bit_vector);
}

/// Whether an instruction word is one of the machine's recognized
/// patterns.
#[verifier::opaque]
pub open spec fn known_opcode(op: u16) -> bool {
    ||| (nb0(op) == 0x0 && nbx(op) == 0x0 && nby(op) == 0xE && (nbn(op) == 0x0 || nbn(op) == 0xE))
    ||| nb0(op) == 0x1
    ||| nb0(op) == 0x2
    ||| nb0(op) == 0x3
    ||| nb0(op) == 0x4
    ||| (nb0(op) == 0x5 && nbn(op) == 0x0)
    ||| nb0(op) == 0x6
    ||| nb0(op) == 0x7
    ||| (nb0(op) == 0x8 && (nbn(op) <= 0x7 || nbn(op) == 0xE))
    ||| (nb0(op) == 0x9 && nbn(op) == 0x0)
    ||| nb0(op) == 0xA
    ||| nb0(op) == 0xB
    ||| nb0(op) == 0xC
    ||| nb0(op) == 0xD
    ||| (nb0(op) == 0xE && ((nby(op) == 0x9 && nbn(op) == 0xE) || (nby(op) == 0xA && nbn(op)
        == 0x1)))
    ||| (nb0(op) == 0xF && ((nby(op) == 0x0 && nbn(op) == 0x7) || (nby(op) == 0x0 && nbn(op)
        == 0xA) || (nby(op) == 0x1 && nbn(op) == 0x5) || (nby(op) == 0x1 && nbn(op) == 0x8) || (
    nby(op) == 0x1 && nbn(op) == 0xE) || (nby(op) == 0x2 && nbn(op) == 0x9) || (nby(op) == 0x3
        && nbn(op) == 0x3) || (nby(op) == 0x5 && nbn(op) == 0x5) || (nby(op) == 0x6 && nbn(op)
        == 0x5)))
}

/// The conditions under which executing an instruction fails: an
/// unrecognized pattern, a return with an empty stack, or a call with a
/// full stack.
#[verifier::opaque]
pub open spec fn exec_err_cond(pre: ChipView, op: u16) -> bool {
    ||| !known_opcode(op)
    ||| (nb0(op) == 0x0 && nbx(op) == 0x0 && nby(op) == 0xE && nbn(op) == 0xE && pre.sp == 0)
    ||| (nb0(op) == 0x2 && pre.sp >= 16)
}

/// The exact effect of one successfully executed instruction: `post` is
/// `pre` after the instruction's state change and program-counter move,
/// and `cost` is the budget charged, one tick for everything but the
/// key wait, which is free.
#[verifier::opaque]
pub open spec fn exec_ok_rel(pre: ChipView, post: ChipView, op: u16, cost: isize) -> bool {
    let x = nbx(op) as int;
    let y = nby(op) as int;
    let n = nbn(op) as int;
    let kk = op_kk(op);
    let nnn = op_nnn(op);
    if nb0(op) == 0x0 && nbx(op) == 0x0 && nby(op) == 0xE && nbn(op) == 0x0 {
        post == with_pc(eff_00e0(pre), pc_next(pre.pc)) && cost == OPCODE_TIME
    } else if nb0(op) == 0x0 && nbx(op) == 0x0 && nby(op) == 0xE && nbn(op) == 0xE {
        post == with_pc(eff_00ee(pre), pre.stack[pre.sp - 1]) && cost == OPCODE_TIME
    } else if nb0(op) == 0x1 {
        post == with_pc(pre, nnn) && cost == OPCODE_TIME
    } else if nb0(op) == 0x2 {
        post == with_pc(eff_2nnn(pre), nnn) && cost == OPCODE_TIME
    } else if nb0(op) == 0x3 {
        post == with_pc(
            pre,
            if pre.v[x] == kk {
                pc_skip(pre.pc)
            } else {
                pc_next(pre.pc)
            },
        ) && cost == OPCODE_TIME
    } else if nb0(op) == 0x4 {
        post == with_pc(
            pre,
            if pre.v[x] != kk {
                pc_skip(pre.pc)
            } else {
                pc_next(pre.pc)
            },
        ) && cost == OPCODE_TIME
    } else if nb0(op) == 0x5 && nbn(op) == 0x0 {
        post == with_pc(
            pre,
            if pre.v[x] == pre.v[y] {
                pc_skip(pre.pc)
            } else {
                pc_next(pre.pc)
            },
        ) && cost == OPCODE_TIME
    } else if nb0(op) == 0x6 {
        post == with_pc(eff_6xkk(pre, x, kk), pc_next(pre.pc)) && cost == OPCODE_TIME
    } else if nb0(op) == 0x7 {
        post == with_pc(eff_7xkk(pre, x, kk), pc_next(pre.pc)) && cost == OPCODE_TIME
    } else if nb0(op) == 0x8 && nbn(op) == 0x0 {
        post == with_pc(eff_8xy0(pre, x, y), pc_next(pre.pc)) && cost == OPCODE_TIME
    } else if nb0(op) == 0x8 && nbn(op) == 0x1 {
        post == with_pc(eff_8xy1(pre, x, y), pc_next(pre.pc)) && cost == OPCODE_TIME
    } else if nb0(op) == 0x8 && nbn(op) == 0x2 {
        post == with_pc(eff_8xy2(pre, x, y), pc_next(pre.pc)) && cost == OPCODE_TIME
    } else if nb0(op) == 0x8 && nbn(op) == 0x3 {
        post == with_pc(eff_8xy3(pre, x, y), pc_next(pre.pc)) && cost == OPCODE_TIME
    } else if nb0(op) == 0x8 && nbn(op) == 0x4 {
        post == with_pc(eff_8xy4(pre, x, y), pc_next(pre.pc)) && cost == OPCODE_TIME
    } else if nb0(op) == 0x8 && nbn(op) == 0x5 {
        post == with_pc(eff_8xy5(pre, x, y), pc_next(pre.pc)) && cost == OPCODE_TIME
    } else if nb0(op) == 0x8 && nbn(op) == 0x6 {
        post == with_pc(eff_8xy6(pre, x), pc_next(pre.pc)) && cost == OPCODE_TIME
    } else if nb0(op) == 0x8 && nbn(op) == 0x7 {
        post == with_pc(eff_8xy7(pre, x, y), pc_next(pre.pc)) && cost == OPCODE_TIME
    } else if nb0(op) == 0x8 && nbn(op) == 0xE {
        post == with_pc(eff_8xye(pre, x), pc_next(pre.pc)) && cost == OPCODE_TIME
    } else if nb0(op) == 0x9 && nbn(op) == 0x0 {
        post == with_pc(
            pre,
            if pre.v[x] != pre.v[y] {
                pc_skip(pre.pc)
            } else {
                pc_next(pre.pc)
            },
        ) && cost == OPCODE_TIME
    } else if nb0(op) == 0xA {
        post == with_pc(eff_annn(pre, nnn), pc_next(pre.pc)) && cost == OPCODE_TIME
    } else if nb0(op) == 0xB {
        post == with_pc(pre, ((pre.v[0] + nnn) % 0x10000) as u16) && cost == OPCODE_TIME
    } else if nb0(op) == 0xC {
        (exists|b: u8| post == with_pc(eff_cxkk(pre, x, kk, b), pc_next(pre.pc))) && cost
            == OPCODE_TIME
    } else if nb0(op) == 0xD {
        post == with_pc(eff_dxyn(pre, x, y, n), pc_next(pre.pc)) && cost == OPCODE_TIME
    } else if nb0(op) == 0xE && nby(op) == 0x9 && nbn(op) == 0xE {
        post == with_pc(
            pre,
            if pre.keys[(pre.v[x] % 16) as int] {
                pc_skip(pre.pc)
            } else {
                pc_next(pre.pc)
            },
        ) && cost == OPCODE_TIME
    } else if nb0(op) == 0xE && nby(op) == 0xA && nbn(op) == 0x1 {
        post == with_pc(
            pre,
            if !pre.keys[(pre.v[x] % 16) as int] {
                pc_skip(pre.pc)
            } else {
                pc_next(pre.pc)
            },
        ) && cost == OPCODE_TIME
    } else if nb0(op) == 0xF && nby(op) == 0x0 && nbn(op) == 0x7 {
        post == with_pc(eff_fx07(pre, x), pc_next(pre.pc)) && cost == OPCODE_TIME
    } else if nb0(op) == 0xF && nby(op) == 0x0 && nbn(op) == 0xA {
        post == with_pc(eff_fx0a(pre, x), pre.pc) && cost == 0
    } else if nb0(op) == 0xF && nby(op) == 0x1 && nbn(op) == 0x5 {
        post == with_pc(eff_fx15(pre, x), pc_next(pre.pc)) && cost == OPCODE_TIME
    } else if nb0(op) == 0xF && nby(op) == 0x1 && nbn(op) == 0x8 {
        post == with_pc(eff_fx18(pre, x), pc_next(pre.pc)) && cost == OPCODE_TIME
    } else if nb0(op) == 0xF && nby(op) == 0x1 && nbn(op) == 0xE {
        post == with_pc(eff_fx1e(pre, x), pc_next(pre.pc)) && cost == OPCODE_TIME
    } else if nb0(op) == 0xF && nby(op) == 0x2 && nbn(op) == 0x9 {
        post == with_pc(eff_fx29(pre, x), pc_next(pre.pc)) && cost == OPCODE_TIME
    } else if nb0(op) == 0xF && nby(op) == 0x3 && nbn(op) == 0x3 {
        post == with_pc(eff_fx33(pre, x), pc_next(pre.pc)) && cost == OPCODE_TIME
    } else if nb0(op) == 0xF && nby(op) == 0x5 && nbn(op) == 0x5 {
        post == with_pc(eff_fx55(pre, x), pc_next(pre.pc)) && cost == OPCODE_TIME
    } else if nb0(op) == 0xF && nby(op) == 0x6 && nbn(op) == 0x5 {
        post == with_pc(eff_fx65(pre, x), pc_next(pre.pc)) && cost == OPCODE_TIME
    } else {
        false
    }
}

/// The machine state at the top of a non-waiting frame: the keypad
/// snapshot is recorded, each nonzero timer counts down once, and one
/// frame's budget is added.
pub open spec fn frame_start(s: ChipView, ks: Seq<bool>) -> ChipView {
    ChipView {
        keys: ks,
        dt: if s.dt > 0 {
            (s.dt - 1) as u8
        } else {
            0
        },
        st: if s.st > 0 {
            (s.st - 1) as u8
        } else {
            0
        },
        time: (s.time + FRAME_TIME) as isize,
        ..s
    }
}

/// Whether the program counter may be fetched from: in bounds together
/// with its second byte, and aligned to the two-byte instruction size.
pub open spec fn fetch_ok(s: ChipView) -> bool {
    s.pc + 1 < CHIP8_MEM && s.pc % 2 == 0
}

/// One fetch-execute step inside a frame: there is budget left, no key
/// wait is pending, the instruction at the program counter executes
/// successfully, and its cost is subtracted from the budget.
pub open spec fn machine_step(pre: ChipView, post: ChipView) -> bool {
    &&& pre.time > 0
    &&& !pre.wait
    &&& fetch_ok(pre)
    &&& !exec_err_cond(pre, fetch_opcode(pre))
    &&& exists|mid: ChipView, cost: isize|
        exec_ok_rel(pre, mid, fetch_opcode(pre), cost) && post == (ChipView {
            time: (mid.time - cost) as isize,
            ..mid
        })
}

/// Zero or more machine steps lead from `a` to `b`.
pub open spec fn runs(a: ChipView, b: ChipView, k: nat) -> bool
    decreases k,
{
    if k == 0 {
        b == a
    } else {
        exists|m: ChipView| runs(a, m, (k - 1) as nat) && machine_step(m, b)
    }
}

/// A successful instruction leaves the keypad snapshot and the budget
/// alone; it is charged one tick unless it begins a key wait, which is
/// free, so an instruction that leaves no wait pending always costs a
/// tick.
#[verifier::rlimit(100)]
pub proof fn lemma_exec_rel_frame(pre: ChipView, post: ChipView, op: u16, cost: isize)
    requires
        exec_ok_rel(pre, post, op, cost),
    ensures
        post.keys == pre.keys,
        post.time == pre.time,
        cost == OPCODE_TIME || cost == 0,
        !post.wait && !pre.wait ==> cost == OPCODE_TIME,
{
    reveal(known_opcode);
    reveal(exec_err_cond);
    reveal(exec_ok_rel);
}

proof fn lemma_store_regs_len(mem: Seq<u8>, v: Seq<u8>, i: int, cnt: int)
    requires
        mem.len() == CHIP8_MEM,
    ensures
        store_regs(mem, v, i, cnt).len() == mem.len(),
    decreases cnt,
{
    if cnt > 0 {
        lemma_store_regs_len(mem, v, i, cnt - 1);
    }
}

proof fn lemma_load_regs_len(v: Seq<u8>, mem: Seq<u8>, i: int, cnt: int)
    requires
        cnt <= v.len(),
    ensures
        load_regs(v, mem, i, cnt).len() == v.len(),
    decreases cnt,
{
    if cnt > 0 {
        lemma_load_regs_len(v, mem, i, cnt - 1);
    }
}

/// Relies on rand::random: a byte drawn from the thread-local
/// generator, uniform over the full byte range; nothing is assumed of
/// the value that comes back.
#[verifier::external_body]
fn random_byte() -> u8 {
    rand::random::<u8>()
}

impl Chip {
    /// Clears the display (CLS).
    pub fn op_00e0(&mut self) -> (r: ProgramCounter)
        requires
            old(self)@.wf(),
        ensures
            final(self)@.wf(),
            r == ProgramCounter::Next,
            final(self)@ == eff_00e0(old(self)@),
    {
        let mut k: usize = 0;
        while k < CHIP8_WIDTH * CHIP8_HEIGHT
            invariant
                k <= CHIP8_WIDTH * CHIP8_HEIGHT,
                self@.disp.len() == CHIP8_WIDTH * CHIP8_HEIGHT,
                self@ == (ChipView { disp: self@.disp, ..old(self)@ }),
                forall|j: int| 0 <= j < k ==> self@.disp[j] == 0,
            decreases CHIP8_WIDTH * CHIP8_HEIGHT - k,
        {
            self.display[k] = 0;
            k = k + 1;
        }
        proof {
            assert(self@.disp =~= eff_00e0(old(self)@).disp);
        }
        ProgramCounter::Next
    }

    /// Returns from a subroutine: pops the stack and jumps to the
    /// popped address.
    pub fn op_00ee(&mut self) -> (r: ProgramCounter)
        requires
            old(self)@.wf(),
            old(self)@.sp >= 1,
        ensures
            final(self)@.wf(),
            final(self)@ == eff_00ee(old(self)@),
            r == ProgramCounter::Jump(old(self)@.stack[old(self)@.sp - 1]),
    {
        self.sp = self.sp - 1;
        ProgramCounter::Jump(self.stack[self.sp as usize])
    }

    /// Jumps to address nnn.
    pub fn op_1nnn(&mut self, nnn: u16) -> (r: ProgramCounter)
        ensures
            final(self)@ == old(self)@,
            r == ProgramCounter::Jump(nnn),
    {
        ProgramCounter::Jump(nnn)
    }

    /// Calls the subroutine at nnn: pushes the address of the following
    /// instruction and jumps.
    pub fn op_2nnn(&mut self, nnn: u16) -> (r: ProgramCounter)
        requires
            old(self)@.wf(),
            old(self)@.sp < 16,
        ensures
            final(self)@.wf(),
            final(self)@ == eff_2nnn(old(self)@),
            r == ProgramCounter::Jump(nnn),
    {
        let ret = ((self.pc as u32 + OPCODE_SIZE as u32) % 0x10000) as u16;
        self.stack[self.sp as usize] = ret;
        self.sp = self.sp + 1;
        ProgramCounter::Jump(nnn)
    }

    /// Skips the next instruction exactly when Vx == kk.
    pub fn op_3xkk(&mut self, x: u8, kk: u8) -> (r: ProgramCounter)
        requires
            old(self)@.wf(),
            x < 16,
        ensures
            final(self)@ == old(self)@,
            r == (if old(self)@.v[x as int] == kk {
                ProgramCounter::Skip
            } else {
                ProgramCounter::Next
            }),
    {
        if self.v[x as usize] == kk {
            ProgramCounter::Skip
        } else {
            ProgramCounter::Next
        }
    }

    /// Skips the next instruction exactly when Vx != kk.
    pub fn op_4xkk(&mut self, x: u8, kk: u8) -> (r: ProgramCounter)
        requires
            old(self)@.wf(),
            x < 16,
        ensures
            final(self)@ == old(self)@,
            r == (if old(self)@.v[x as int] != kk {
                ProgramCounter::Skip
            } else {
                ProgramCounter::Next
            }),
    {
        if self.v[x as usize] != kk {
            ProgramCounter::Skip
        } else {
            ProgramCounter::Next
        }
    }

    /// Skips the next instruction exactly when Vx == Vy.
    pub fn op_5xy0(&mut self, x: u8, y: u8) -> (r: ProgramCounter)
        requires
            old(self)@.wf(),
            x < 16,
            y < 16,
        ensures
            final(self)@ == old(self)@,
            r == (if old(self)@.v[x as int] == old(self)@.v[y as int] {
                ProgramCounter::Skip
            } else {
                ProgramCounter::Next
            }),
    {
        if self.v[x as usize] == self.v[y as usize] {
            ProgramCounter::Skip
        } else {
            ProgramCounter::Next
        }
    }

    /// Vx := kk.
    pub fn op_6xkk(&mut self, x: u8, kk: u8) -> (r: ProgramCounter)
        requires
            old(self)@.wf(),
            x < 16,
        ensures
            final(self)@.wf(),
            r == ProgramCounter::Next,
            final(self)@ == eff_6xkk(old(self)@, x as int, kk),
    {
        self.v[x as usize] = kk;
        ProgramCounter::Next
    }

    /// Vx := Vx + kk with 8-bit wraparound; no flag is written.
    pub fn op_7xkk(&mut self, x: u8, kk: u8) -> (r: ProgramCounter)
        requires
            old(self)@.wf(),
            x < 16,
        ensures
            final(self)@.wf(),
            r == ProgramCounter::Next,
            final(self)@ == eff_7xkk(old(self)@, x as int, kk),
    {
        let sum = ((self.v[x as usize] as u16 + kk as u16) % 256) as u8;
        self.v[x as usize] = sum;
        ProgramCounter::Next
    }

    /// Vx := Vy.
    pub fn op_8xy0(&mut self, x: u8, y: u8) -> (r: ProgramCounter)
        requires
            old(self)@.wf(),
            x < 16,
            y < 16,
        ensures
            final(self)@.wf(),
            r == ProgramCounter::Next,
            final(self)@ == eff_8xy0(old(self)@, x as int, y as int),
    {
        self.v[x as usize] = self.v[y as usize];
        ProgramCounter::Next
    }

    /// Vx := Vx OR Vy.
    pub fn op_8xy1(&mut self, x: u8, y: u8) -> (r: ProgramCounter)
        requires
            old(self)@.wf(),
            x < 16,
            y < 16,
        ensures
            final(self)@.wf(),
            r == ProgramCounter::Next,
            final(self)@ == eff_8xy1(old(self)@, x as int, y as int),
    {
        self.v[x as usize] = self.v[x as usize] | self.v[y as usize];
        ProgramCounter::Next
    }

    /// Vx := Vx AND Vy.
    pub fn op_8xy2(&mut self, x: u8, y: u8) -> (r: ProgramCounter)
        requires
            old(self)@.wf(),
            x < 16,
            y < 16,
        ensures
            final(self)@.wf(),
            r == ProgramCounter::Next,
            final(self)@ == eff_8xy2(old(self)@, x as int, y as int),
    {
        self.v[x as usize] = self.v[x as usize] & self.v[y as usize];
        ProgramCounter::Next
    }

    /// Vx := Vx XOR Vy.
    pub fn op_8xy3(&mut self, x: u8, y: u8) -> (r: ProgramCounter)
        requires
            old(self)@.wf(),
            x < 16,
            y < 16,
        ensures
            final(self)@.wf(),
            r == ProgramCounter::Next,
            final(self)@ == eff_8xy3(old(self)@, x as int, y as int),
    {
        self.v[x as usize] = self.v[x as usize] ^ self.v[y as usize];
        ProgramCounter::Next
    }

    /// Vx := Vx + Vy; VF := 1 exactly when the sum carries past 255.
    /// The flag write comes last, so it wins when x is 15.
    pub fn op_8xy4(&mut self, x: u8, y: u8) -> (r: ProgramCounter)
        requires
            old(self)@.wf(),
            x < 16,
            y < 16,
        ensures
            final(self)@.wf(),
            r == ProgramCounter::Next,
            final(self)@ == eff_8xy4(old(self)@, x as int, y as int),
    {
        let sum = self.v[x as usize] as u16 + self.v[y as usize] as u16;
        self.v[x as usize] = (sum % 256) as u8;
        self.v[15] = if sum > 255 {
            1
        } else {
            0
        };
        ProgramCounter::Next
    }

    /// Vx := Vx - Vy; VF := 1 exactly when there was no borrow.
    pub fn op_8xy5(&mut self, x: u8, y: u8) -> (r: ProgramCounter)
        requires
            old(self)@.wf(),
            x < 16,
            y < 16,
        ensures
            final(self)@.wf(),
            r == ProgramCounter::Next,
            final(self)@ == eff_8xy5(old(self)@, x as int, y as int),
    {
        let vx = self.v[x as usize];
        let vy = self.v[y as usize];
        let d = ((vx as i32 - vy as i32 + 256) % 256) as u8;
        self.v[x as usize] = d;
        self.v[15] = if vx > vy {
            1
        } else {
            0
        };
        ProgramCounter::Next
    }

    /// Vx := Vx shifted right by one; VF := the low bit shifted out.
    pub fn op_8xy6(&mut self, x: u8) -> (r: ProgramCounter)
        requires
            old(self)@.wf(),
            x < 16,
        ensures
            final(self)@.wf(),
            r == ProgramCounter::Next,
            final(self)@ == eff_8xy6(old(self)@, x as int),
    {
        let vx = self.v[x as usize];
        self.v[x as usize] = vx / 2;
        self.v[15] = vx % 2;
        ProgramCounter::Next
    }

    /// Vx := Vy - Vx; VF := 1 exactly when there was no borrow.
    pub fn op_8xy7(&mut self, x: u8, y: u8) -> (r: ProgramCounter)
        requires
            old(self)@.wf(),
            x < 16,
            y < 16,
        ensures
            final(self)@.wf(),
            r == ProgramCounter::Next,
            final(self)@ == eff_8xy7(old(self)@, x as int, y as int),
    {
        let vx = self.v[x as usize];
        let vy = self.v[y as usize];
        let d = ((vy as i32 - vx as i32 + 256) % 256) as u8;
        self.v[x as usize] = d;
        self.v[15] = if vy > vx {
            1
        } else {
            0
        };
        ProgramCounter::Next
    }

    /// Vx := Vx shifted left by one; VF := the high bit shifted out.
    pub fn op_8xye(&mut self, x: u8) -> (r: ProgramCounter)
        requires
            old(self)@.wf(),
            x < 16,
        ensures
            final(self)@.wf(),
            r == ProgramCounter::Next,
            final(self)@ == eff_8xye(old(self)@, x as int),
    {
        let vx = self.v[x as usize];
        self.v[x as usize] = ((vx as u16 * 2) % 256) as u8;
        self.v[15] = vx / 128;
        ProgramCounter::Next
    }

    /// Skips the next instruction exactly when Vx != Vy.
    pub fn op_9xy0(&mut self, x: u8, y: u8) -> (r: ProgramCounter)
        requires
            old(self)@.wf(),
            x < 16,
            y < 16,
        ensures
            final(self)@ == old(self)@,
            r == (if old(self)@.v[x as int] != old(self)@.v[y as int] {
                ProgramCounter::Skip
            } else {
                ProgramCounter::Next
            }),
    {
        if self.v[x as usize] != self.v[y as usize] {
            ProgramCounter::Skip
        } else {
            ProgramCounter::Next
        }
    }

    /// I := nnn.
    pub fn op_annn(&mut self, nnn: u16) -> (r: ProgramCounter)
        requires
            old(self)@.wf(),
        ensures
            final(self)@.wf(),
            r == ProgramCounter::Next,
            final(self)@ == eff_annn(old(self)@, nnn),
    {
        self.i = nnn;
        ProgramCounter::Next
    }

    /// Jumps to V0 + nnn, wrapping at the 16-bit boundary.
    pub fn op_bnnn(&mut self, nnn: u16) -> (r: ProgramCounter)
        requires
            old(self)@.wf(),
        ensures
            final(self)@ == old(self)@,
            r == ProgramCounter::Jump((((old(self)@.v[0] + nnn) % 0x10000) as u16)),
    {
        let target = ((self.v[0] as u32 + nnn as u32) % 0x10000) as u16;
        ProgramCounter::Jump(target)
    }

    /// Vx := a random byte AND kk; the randomness is drawn from the
    /// thread-local generator, so only the mask is promised.
    pub fn op_cxkk(&mut self, x: u8, kk: u8) -> (r: ProgramCounter)
        requires
            old(self)@.wf(),
            x < 16,
        ensures
            final(self)@.wf(),
            r == ProgramCounter::Next,
            exists|b: u8| final(self)@ == eff_cxkk(old(self)@, x as int, kk, b),
    {
        let b = random_byte();
        self.v[x as usize] = b & kk;
        proof {
            assert(self@ == eff_cxkk(old(self)@, x as int, kk, b));
        }
        ProgramCounter::Next
    }

    /// Skips the next instruction exactly when the key named by the low
    /// nibble of Vx is pressed.
    pub fn op_ex9e(&mut self, x: u8) -> (r: ProgramCounter)
        requires
            old(self)@.wf(),
            x < 16,
        ensures
            final(self)@ == old(self)@,
            r == (if old(self)@.keys[(old(self)@.v[x as int] % 16) as int] {
                ProgramCounter::Skip
            } else {
                ProgramCounter::Next
            }),
    {
        let key = (self.v[x as usize] % 16) as usize;
        if self.input_keys[key] {
            ProgramCounter::Skip
        } else {
            ProgramCounter::Next
        }
    }

    /// Skips the next instruction exactly when the key named by the low
    /// nibble of Vx is not pressed.
    pub fn op_exal(&mut self, x: u8) -> (r: ProgramCounter)
        requires
            old(self)@.wf(),
            x < 16,
        ensures
            final(self)@ == old(self)@,
            r == (if !old(self)@.keys[(old(self)@.v[x as int] % 16) as int] {
                ProgramCounter::Skip
            } else {
                ProgramCounter::Next
            }),
    {
        let key = (self.v[x as usize] % 16) as usize;
        if !self.input_keys[key] {
            ProgramCounter::Skip
        } else {
            ProgramCounter::Next
        }
    }

    /// Vx := DT.
    pub fn op_fx07(&mut self, x: u8) -> (r: ProgramCounter)
        requires
            old(self)@.wf(),
            x < 16,
        ensures
            final(self)@.wf(),
            r == ProgramCounter::Next,
            final(self)@ == eff_fx07(old(self)@, x as int),
    {
        self.v[x as usize] = self.dt;
        ProgramCounter::Next
    }

    /// Begins a blocking key wait: records register x as the target and
    /// raises the waiting flag. The program counter stays at the wait
    /// instruction; it is advanced when a key arrives in a later frame.
    pub fn op_fx0a(&mut self, x: u8) -> (r: ProgramCounter)
        requires
            old(self)@.wf(),
            x < 16,
        ensures
            final(self)@.wf(),
            final(self)@ == eff_fx0a(old(self)@, x as int),
            r == ProgramCounter::Jump(old(self)@.pc),
    {
        self.input_wait = true;
        self.input_register = x as u16;
        ProgramCounter::Jump(self.pc)
    }

    /// DT := Vx.
    pub fn op_fx15(&mut self, x: u8) -> (r: ProgramCounter)
        requires
            old(self)@.wf(),
            x < 16,
        ensures
            final(self)@.wf(),
            r == ProgramCounter::Next,
            final(self)@ == eff_fx15(old(self)@, x as int),
    {
        self.dt = self.v[x as usize];
        ProgramCounter::Next
    }

    /// ST := Vx.
    pub fn op_fx18(&mut self, x: u8) -> (r: ProgramCounter)
        requires
            old(self)@.wf(),
            x < 16,
        ensures
            final(self)@.wf(),
            r == ProgramCounter::Next,
            final(self)@ == eff_fx18(old(self)@, x as int),
    {
        self.st = self.v[x as usize];
        ProgramCounter::Next
    }

    /// I := I + Vx, wrapping at the 16-bit boundary; VF := 1 exactly
    /// when the resulting index leaves the addressable range.
    pub fn op_fx1e(&mut self, x: u8) -> (r: ProgramCounter)
        requires
            old(self)@.wf(),
            x < 16,
        ensures
            final(self)@.wf(),
            r == ProgramCounter::Next,
            final(self)@ == eff_fx1e(old(self)@, x as int),
    {
        let ni = ((self.i as u32 + self.v[x as usize] as u32) % 0x10000) as u16;
        self.i = ni;
        self.v[15] = if ni > 0x0FFF {
            1
        } else {
            0
        };
        ProgramCounter::Next
    }

    /// I := the font address of the glyph for the low nibble of Vx.
    pub fn op_fx29(&mut self, x: u8) -> (r: ProgramCounter)
        requires
            old(self)@.wf(),
            x < 16,
        ensures
            final(self)@.wf(),
            r == ProgramCounter::Next,
            final(self)@ == eff_fx29(old(self)@, x as int),
    {
        self.i = (self.v[x as usize] % 16) as u16 * 5;
        ProgramCounter::Next
    }

    /// Writes the hundreds, tens and units digits of Vx to memory at I,
    /// I+1 and I+2, the addresses wrapping at the end of memory.
    pub fn op_fx33(&mut self, x: u8) -> (r: ProgramCounter)
        requires
            old(self)@.wf(),
            x < 16,
        ensures
            final(self)@.wf(),
            r == ProgramCounter::Next,
            final(self)@ == eff_fx33(old(self)@, x as int),
    {
        let vx = self.v[x as usize];
        let i0 = self.i as usize % CHIP8_MEM;
        let i1 = (self.i as usize + 1) % CHIP8_MEM;
        let i2 = (self.i as usize + 2) % CHIP8_MEM;
        self.memory[i0] = vx / 100;
        self.memory[i1] = (vx % 100) / 10;
        self.memory[i2] = vx % 10;
        ProgramCounter::Next
    }

    /// Stores the x+1 registers V0..Vx (inclusive) to memory starting
    /// at I, the addresses wrapping at the end of memory.
    pub fn op_fx55(&mut self, x: u8) -> (r: ProgramCounter)
        requires
            old(self)@.wf(),
            x < 16,
        ensures
            final(self)@.wf(),
            r == ProgramCounter::Next,
            final(self)@ == eff_fx55(old(self)@, x as int),
    {
        let mut k: usize = 0;
        while k < x as usize + 1
            invariant
                old(self)@.wf(),
                x < 16,
                k <= x as usize + 1,
                self@ == (ChipView {
                    mem: store_regs(old(self)@.mem, old(self)@.v, old(self)@.i as int, k as int),
                    ..old(self)@
                }),
                self@.mem.len() == CHIP8_MEM,
            decreases x as usize + 1 - k,
        {
            let addr = (self.i as usize + k) % CHIP8_MEM;
            self.memory[addr] = self.v[k];
            k = k + 1;
        }
        proof {
            lemma_store_regs_len(old(self)@.mem, old(self)@.v, old(self)@.i as int, (x + 1) as int);
        }
        ProgramCounter::Next
    }

    /// Loads the x+1 registers V0..Vx (inclusive) from memory starting
    /// at I, the addresses wrapping at the end of memory.
    pub fn op_fx65(&mut self, x: u8) -> (r: ProgramCounter)
        requires
            old(self)@.wf(),
            x < 16,
        ensures
            final(self)@.wf(),
            r == ProgramCounter::Next,
            final(self)@ == eff_fx65(old(self)@, x as int),
    {
        let mut k: usize = 0;
        while k < x as usize + 1
            invariant
                old(self)@.wf(),
                x < 16,
                k <= x as usize + 1,
                self@ == (ChipView {
                    v: load_regs(old(self)@.v, old(self)@.mem, old(self)@.i as int, k as int),
                    ..old(self)@
                }),
                self@.v.len() == 16,
            decreases x as usize + 1 - k,
        {
            let addr = (self.i as usize + k) % CHIP8_MEM;
            self.v[k] = self.memory[addr];
            k = k + 1;
        }
        proof {
            lemma_load_regs_len(old(self)@.v, old(self)@.mem, old(self)@.i as int, (x + 1) as int);
        }
        ProgramCounter::Next
    }

    /// Draws the n-byte sprite at memory index I at position (Vx, Vy),
    /// XORing each sprite bit onto the display with wraparound on both
    /// axes; VF := 1 exactly when some previously set pixel is cleared.
    #[verifier::rlimit(100)]
    pub fn op_dxyn(&mut self, x: u8, y: u8, n: u8) -> (r: ProgramCounter)
        requires
            old(self)@.wf(),
            x < 16,
            y < 16,
            n < 16,
        ensures
            final(self)@.wf(),
            r == ProgramCounter::Next,
            final(self)@ == eff_dxyn(old(self)@, x as int, y as int, n as int),
    {
        let ghost s0 = old(self)@;
        let vx = self.v[x as usize];
        let vy = self.v[y as usize];
        let ghost vxi = vx as int;
        let ghost vyi = vy as int;
        self.v[15] = 0;
        proof {
            assert(self@.disp =~= draw_disp_upto(s0, vxi, vyi, 0, 0));
            assert(!draw_hit_upto(s0, vxi, vyi, 0, 0));
        }
        let mut row: usize = 0;
        while row < n as usize
            invariant
                s0.wf(),
                x < 16,
                y < 16,
                n < 16,
                row <= n,
                vxi == s0.v[x as int] as int,
                vyi == s0.v[y as int] as int,
                vx as int == vxi,
                vy as int == vyi,
                self@ == (ChipView { disp: self@.disp, v: self@.v, ..s0 }),
                self@.v == s0.v.update(
                    15,
                    if draw_hit_upto(s0, vxi, vyi, row as int, 0) {
                        1u8
                    } else {
                        0u8
                    },
                ),
                self@.disp == draw_disp_upto(s0, vxi, vyi, row as int, 0),
            decreases n as usize - row,
        {
            let py = (vy as usize + row) % CHIP8_HEIGHT;
            let byte = self.memory[(self.i as usize + row) % CHIP8_MEM];
            let mut bit: usize = 0;
            while bit < 8
                invariant
                    s0.wf(),
                    x < 16,
                    y < 16,
                    n < 16,
                    row < n,
                    bit <= 8,
                    vxi == s0.v[x as int] as int,
                    vyi == s0.v[y as int] as int,
                    vx as int == vxi,
                    vy as int == vyi,
                    py == (vyi + row) % (CHIP8_HEIGHT as int),
                    byte == s0.mem[(s0.i + row) % (CHIP8_MEM as int)],
                    self@ == (ChipView { disp: self@.disp, v: self@.v, ..s0 }),
                    self@.v == s0.v.update(
                        15,
                        if draw_hit_upto(s0, vxi, vyi, row as int, bit as int) {
                            1u8
                        } else {
                            0u8
                        },
                    ),
                    self@.disp == draw_disp_upto(s0, vxi, vyi, row as int, bit as int),
                decreases 8 - bit,
            {
                let ghost prev = self@;
                let px = (vx as usize + bit) % CHIP8_WIDTH;
                let sh: u8 = (7 - bit) as u8;
                let colour: u8 = (byte >> sh) & 1;
                let k = py * CHIP8_WIDTH + px;
                proof {
                    lemma_sprite_pixel_bit(byte, sh);
                    lemma_draw_cell_id(vxi, vyi, row as int, bit as int, k as int);
                    assert(row_of(vyi, k as int / 64) == row && col_of(vxi, k as int % 64)
                        == bit);
                    assert(!draw_done(vxi, vyi, row as int, bit as int, k as int));
                    assert(prev.disp[k as int] == s0.disp[k as int]);
                    assert(draw_bit(s0, vxi, vyi, k as int) == colour);
                }
                let cur = self.display[k];
                if cur == 1 && colour == 1 {
                    self.v[15] = 1;
                }
                self.display[k] = if cur == colour {
                    0
                } else {
                    1
                };
                bit = bit + 1;
                proof {
                    let r_i = row as int;
                    let b_i = (bit - 1) as int;
                    assert forall|kk: int| 0 <= kk < 2048 implies self@.disp[kk]
                        == draw_disp_upto(s0, vxi, vyi, r_i, b_i + 1)[kk] by {
                        lemma_draw_cell_id(vxi, vyi, r_i, b_i, kk);
                        if kk != k as int {
                            assert(draw_done(vxi, vyi, r_i, b_i + 1, kk) == draw_done(
                                vxi,
                                vyi,
                                r_i,
                                b_i,
                                kk,
                            ));
                        }
                    }
                    assert(self@.disp =~= draw_disp_upto(s0, vxi, vyi, r_i, b_i + 1));
                    if cur == 1 && colour == 1 {
                        assert(s0.v.update(15, 0u8).update(15, 1u8) =~= s0.v.update(15, 1u8));
                        assert(s0.v.update(15, 1u8).update(15, 1u8) =~= s0.v.update(15, 1u8));
                        assert(draw_done(vxi, vyi, r_i, b_i + 1, k as int));
                        assert(draw_hit_upto(s0, vxi, vyi, r_i, b_i + 1));
                    } else {
                        assert(draw_hit_upto(s0, vxi, vyi, r_i, b_i + 1) == draw_hit_upto(
                            s0,
                            vxi,
                            vyi,
                            r_i,
                            b_i,
                        )) by {
                            if draw_hit_upto(s0, vxi, vyi, r_i, b_i + 1) {
                                let kk = choose|kk: int|
                                    0 <= kk < s0.disp.len() && draw_done(
                                        vxi,
                                        vyi,
                                        r_i,
                                        b_i + 1,
                                        kk,
                                    ) && s0.disp[kk] == 1 && draw_bit(s0, vxi, vyi, kk) == 1;
                                lemma_draw_cell_id(vxi, vyi, r_i, b_i, kk);
                                assert(kk != k as int);
                                assert(draw_done(vxi, vyi, r_i, b_i, kk));
                            }
                            if draw_hit_upto(s0, vxi, vyi, r_i, b_i) {
                                let kk = choose|kk: int|
                                    0 <= kk < s0.disp.len() && draw_done(vxi, vyi, r_i, b_i, kk)
                                        && s0.disp[kk] == 1 && draw_bit(s0, vxi, vyi, kk) == 1;
                                assert(draw_done(vxi, vyi, r_i, b_i + 1, kk));
                                assert(draw_hit_upto(s0, vxi, vyi, r_i, b_i + 1));
                            }
                        }
                    }
                }
            }
            row = row + 1;
            proof {
                let r_i = (row - 1) as int;
                assert forall|kk: int| 0 <= kk < 2048 implies draw_done(vxi, vyi, r_i, 8, kk)
                    == draw_done(vxi, vyi, r_i + 1, 0, kk) by {}
                assert(draw_disp_upto(s0, vxi, vyi, r_i, 8) =~= draw_disp_upto(
                    s0,
                    vxi,
                    vyi,
                    r_i + 1,
                    0,
                ));
                assert(draw_hit_upto(s0, vxi, vyi, r_i, 8) == draw_hit_upto(
                    s0,
                    vxi,
                    vyi,
                    r_i + 1,
                    0,
                )) by {
                    if draw_hit_upto(s0, vxi, vyi, r_i, 8) {
                        let kk = choose|kk: int|
                            0 <= kk < s0.disp.len() && draw_done(vxi, vyi, r_i, 8, kk)
                                && s0.disp[kk] == 1 && draw_bit(s0, vxi, vyi, kk) == 1;
                        assert(draw_done(vxi, vyi, r_i + 1, 0, kk));
                    }
                    if draw_hit_upto(s0, vxi, vyi, r_i + 1, 0) {
                        let kk = choose|kk: int|
                            0 <= kk < s0.disp.len() && draw_done(vxi, vyi, r_i + 1, 0, kk)
                                && s0.disp[kk] == 1 && draw_bit(s0, vxi, vyi, kk) == 1;
                        assert(draw_done(vxi, vyi, r_i, 8, kk));
                    }
                }
            }
        }
        proof {
            let n_i = n as int;
            assert forall|kk: int| 0 <= kk < 2048 implies draw_done(vxi, vyi, n_i, 0, kk)
                == draw_covers(vxi, vyi, n_i, kk) by {}
            assert(draw_disp_upto(s0, vxi, vyi, n_i, 0) =~= draw_disp(s0, vxi, vyi, n_i));
            assert(draw_hit_upto(s0, vxi, vyi, n_i, 0) == draw_collision(s0, vxi, vyi, n_i)) by {
                if draw_hit_upto(s0, vxi, vyi, n_i, 0) {
                    let kk = choose|kk: int|
                        0 <= kk < s0.disp.len() && draw_done(vxi, vyi, n_i, 0, kk) && s0.disp[kk]
                            == 1 && draw_bit(s0, vxi, vyi, kk) == 1;
                    assert(draw_covers(vxi, vyi, n_i, kk));
                }
                if draw_collision(s0, vxi, vyi, n_i) {
                    let kk = choose|kk: int|
                        0 <= kk < s0.disp.len() && draw_covers(vxi, vyi, n_i, kk) && s0.disp[kk]
                            == 1 && draw_bit(s0, vxi, vyi, kk) == 1;
                    assert(draw_done(vxi, vyi, n_i, 0, kk));
                }
            }
            assert forall|kk: int| 0 <= kk < self@.disp.len() implies self@.disp[kk] <= 1 by {}
        }
        ProgramCounter::Next
    }

    /// Fetches the two instruction bytes at the program counter,
    /// big-endian: the high byte first.
    pub fn get_opcode(&mut self) -> (r: u16)
        requires
            old(self)@.wf(),
            old(self)@.pc + 1 < CHIP8_MEM,
        ensures
            final(self)@ == old(self)@,
            r == fetch_opcode(old(self)@),
    {
        (self.memory[self.pc as usize] as u16) * 256 + (self.memory[self.pc as usize + 1] as u16)
    }

    /// Decodes and executes one instruction word. The dispatch is
    /// total: every unmatched pattern is rejected as an invalid
    /// operation, as is a return with an empty stack or a call with a
    /// full one, in each case before any state changes. On success the
    /// returned cost is one tick, except for the key wait, which is
    /// free.
    /// Applies an instruction's program-counter request: advance past
    /// the instruction, skip one more, or jump to the given address.
    fn apply_pc(&mut self, pcc: ProgramCounter)
        requires
            old(self)@.pc + 4 < 0x10000,
        ensures
            final(self)@ == with_pc(
                old(self)@,
                match pcc {
                    ProgramCounter::Next => pc_next(old(self)@.pc),
                    ProgramCounter::Skip => pc_skip(old(self)@.pc),
                    ProgramCounter::Jump(a) => a,
                },
            ),
    {
        match pcc {
            ProgramCounter::Next => {
                self.pc = self.pc + OPCODE_SIZE;
            },
            ProgramCounter::Skip => {
                self.pc = self.pc + 2 * OPCODE_SIZE;
            },
            ProgramCounter::Jump(a) => {
                self.pc = a;
            },
        }
    }

    /// Decodes and executes one instruction word. The dispatch is
    /// total: every unmatched pattern is rejected as an invalid
    /// operation, as is a return with an empty stack or a call with a
    /// full one, in each case before any state changes. On success the
    /// returned cost is one tick, except for the key wait, which is
    /// free.
    #[verifier::rlimit(100)]
    pub fn exec(&mut self, opcode: u16) -> (r: Result<isize, Error>)
        requires
            old(self)@.wf(),
            old(self)@.pc + 1 < CHIP8_MEM,
        ensures
            final(self)@.wf(),
            exec_err_cond(old(self)@, opcode) <==> r is Err,
            r is Err ==> r == Err::<isize, Error>(
                Error::InvalidOperation((opcode / 0x100) as u8, (opcode % 0x100) as u8),
            ) && final(self)@ == old(self)@,
            r matches Ok(cost) ==> exec_ok_rel(old(self)@, final(self)@, opcode, cost),
    {
        proof {
            reveal(known_opcode);
            reveal(exec_err_cond);
            reveal(exec_ok_rel);
        }
        let n0 = (opcode / 0x1000) as u8;
        let x = ((opcode / 0x100) % 0x10) as u8;
        let y = ((opcode / 0x10) % 0x10) as u8;
        let n = (opcode % 0x10) as u8;
        let kk = (opcode % 0x100) as u8;
        let nnn = opcode % 0x1000;
        let hi = (opcode / 0x100) as u8;
        match (n0, x, y, n) {
            (0x00, 0x00, 0x0E, 0x00) => {
                let pcc = self.op_00e0();
                self.apply_pc(pcc);
                return Ok(OPCODE_TIME);
            },
            (0x00, 0x00, 0x0E, 0x0E) => {
                if self.sp == 0 {
                    return Err(Error::InvalidOperation(hi, kk));
                }
                let pcc = self.op_00ee();
                self.apply_pc(pcc);
                return Ok(OPCODE_TIME);
            },
            (0x01, _, _, _) => {
                let pcc = self.op_1nnn(nnn);
                self.apply_pc(pcc);
                return Ok(OPCODE_TIME);
            },
            (0x02, _, _, _) => {
                if self.sp >= 16 {
                    return Err(Error::InvalidOperation(hi, kk));
                }
                let pcc = self.op_2nnn(nnn);
                self.apply_pc(pcc);
                return Ok(OPCODE_TIME);
            },
            (0x03, _, _, _) => {
                let pcc = self.op_3xkk(x, kk);
                self.apply_pc(pcc);
                return Ok(OPCODE_TIME);
            },
            (0x04, _, _, _) => {
                let pcc = self.op_4xkk(x, kk);
                self.apply_pc(pcc);
                return Ok(OPCODE_TIME);
            },
            (0x05, _, _, 0x00) => {
                let pcc = self.op_5xy0(x, y);
                self.apply_pc(pcc);
                return Ok(OPCODE_TIME);
            },
            (0x06, _, _, _) => {
                let pcc = self.op_6xkk(x, kk);
                self.apply_pc(pcc);
                return Ok(OPCODE_TIME);
            },
            (0x07, _, _, _) => {
                let pcc = self.op_7xkk(x, kk);
                self.apply_pc(pcc);
                return Ok(OPCODE_TIME);
            },
            (0x08, _, _, 0x00) => {
                let pcc = self.op_8xy0(x, y);
                self.apply_pc(pcc);
                return Ok(OPCODE_TIME);
            },
            (0x08, _, _, 0x01) => {
                let pcc = self.op_8xy1(x, y);
                self.apply_pc(pcc);
                return Ok(OPCODE_TIME);
            },
            (0x08, _, _, 0x02) => {
                let pcc = self.op_8xy2(x, y);
                self.apply_pc(pcc);
                return Ok(OPCODE_TIME);
            },
            (0x08, _, _, 0x03) => {
                let pcc = self.op_8xy3(x, y);
                self.apply_pc(pcc);
                return Ok(OPCODE_TIME);
            },
            (0x08, _, _, 0x04) => {
                let pcc = self.op_8xy4(x, y);
                self.apply_pc(pcc);
                return Ok(OPCODE_TIME);
            },
            (0x08, _, _, 0x05) => {
                let pcc = self.op_8xy5(x, y);
                self.apply_pc(pcc);
                return Ok(OPCODE_TIME);
            },
            (0x08, _, _, 0x06) => {
                let pcc = self.op_8xy6(x);
                self.apply_pc(pcc);
                return Ok(OPCODE_TIME);
            },
            (0x08, _, _, 0x07) => {
                let pcc = self.op_8xy7(x, y);
                self.apply_pc(pcc);
                return Ok(OPCODE_TIME);
            },
            (0x08, _, _, 0x0E) => {
                let pcc = self.op_8xye(x);
                self.apply_pc(pcc);
                return Ok(OPCODE_TIME);
            },
            (0x09, _, _, 0x00) => {
                let pcc = self.op_9xy0(x, y);
                self.apply_pc(pcc);
                return Ok(OPCODE_TIME);
            },
            (0x0A, _, _, _) => {
                let pcc = self.op_annn(nnn);
                self.apply_pc(pcc);
                return Ok(OPCODE_TIME);
            },
            (0x0B, _, _, _) => {
                let pcc = self.op_bnnn(nnn);
                self.apply_pc(pcc);
                return Ok(OPCODE_TIME);
            },
            (0x0C, _, _, _) => {
                let pcc = self.op_cxkk(x, kk);
                let ghost mid = self@;
                let ghost bw = choose|b: u8| mid == eff_cxkk(old(self)@, x as int, kk, b);
                self.apply_pc(pcc);
                proof {
                    assert(kk == op_kk(opcode));
                    assert(x as int == nbx(opcode) as int);
                    assert(self@ == with_pc(
                        eff_cxkk(old(self)@, nbx(opcode) as int, op_kk(opcode), bw),
                        pc_next(old(self)@.pc),
                    ));
                }
                return Ok(OPCODE_TIME);
            },
            (0x0D, _, _, _) => {
                let pcc = self.op_dxyn(x, y, n);
                self.apply_pc(pcc);
                return Ok(OPCODE_TIME);
            },
            (0x0E, _, 0x09, 0x0E) => {
                let pcc = self.op_ex9e(x);
                self.apply_pc(pcc);
                return Ok(OPCODE_TIME);
            },
            (0x0E, _, 0x0A, 0x01) => {
                let pcc = self.op_exal(x);
                self.apply_pc(pcc);
                return Ok(OPCODE_TIME);
            },
            (0x0F, _, 0x00, 0x07) => {
                let pcc = self.op_fx07(x);
                self.apply_pc(pcc);
                return Ok(OPCODE_TIME);
            },
            (0x0F, _, 0x00, 0x0A) => {
                let pcc = self.op_fx0a(x);
                self.apply_pc(pcc);
                return Ok(0);
            },
            (0x0F, _, 0x01, 0x05) => {
                let pcc = self.op_fx15(x);
                self.apply_pc(pcc);
                return Ok(OPCODE_TIME);
            },
            (0x0F, _, 0x01, 0x08) => {
                let pcc = self.op_fx18(x);
                self.apply_pc(pcc);
                return Ok(OPCODE_TIME);
            },
            (0x0F, _, 0x01, 0x0E) => {
                let pcc = self.op_fx1e(x);
                self.apply_pc(pcc);
                return Ok(OPCODE_TIME);
            },
            (0x0F, _, 0x02, 0x09) => {
                let pcc = self.op_fx29(x);
                self.apply_pc(pcc);
                return Ok(OPCODE_TIME);
            },
            (0x0F, _, 0x03, 0x03) => {
                let pcc = self.op_fx33(x);
                self.apply_pc(pcc);
                return Ok(OPCODE_TIME);
            },
            (0x0F, _, 0x05, 0x05) => {
                let pcc = self.op_fx55(x);
                self.apply_pc(pcc);
                return Ok(OPCODE_TIME);
            },
            (0x0F, _, 0x06, 0x05) => {
                let pcc = self.op_fx65(x);
                self.apply_pc(pcc);
                return Ok(OPCODE_TIME);
            },
            _ => {
                return Err(Error::InvalidOperation(hi, kk));
            },
        }
    }

    /// Drives the machine for one display frame. The keypad snapshot is
    /// recorded first. If a key wait is pending, the lowest pressed key,
    /// if any, is stored into the recorded target register, the wait
    /// ends and the program counter moves past the wait instruction;
    /// nothing else happens that frame. Otherwise both timers count
    /// down once, one frame's budget is added, and instructions execute
    /// until the budget is spent, a key wait begins (which discards the
    /// rest of the budget), or a fetch or decode fault ends the frame
    /// with the corresponding error and an empty budget.
    #[verifier::rlimit(100)]
    pub fn frame(&mut self, input_keys: Vec<bool>) -> (r: Result<(), Error>)
        requires
            old(self)@.wf(),
            input_keys@.len() == 16,
            old(self)@.time <= 0,
        ensures
            final(self)@.wf(),
            final(self)@.time <= 0,
            final(self)@.keys == input_keys@,
            old(self)@.wait ==> r == Ok::<(), Error>(()),
            old(self)@.wait && (exists|j: int| 0 <= j < 16 && input_keys@[j]) ==> (exists|j: int|
                0 <= j < 16 && input_keys@[j] && (forall|m: int| 0 <= m < j ==> !input_keys@[m])
                    && final(self)@ == (ChipView {
                    keys: input_keys@,
                    wait: false,
                    v: old(self)@.v.update(old(self)@.wreg as int, j as u8),
                    pc: pc_next(old(self)@.pc),
                    ..old(self)@
                })),
            old(self)@.wait && !(exists|j: int| 0 <= j < 16 && input_keys@[j]) ==> final(self)@
                == (ChipView { keys: input_keys@, ..old(self)@ }),
            !old(self)@.wait ==> (exists|steps: nat, s: ChipView|
                runs(frame_start(old(self)@, input_keys@), s, steps) && (
                (r == Ok::<(), Error>(()) && !s.wait && s.time <= 0 && final(self)@ == s) || (r
                    == Ok::<(), Error>(()) && s.wait && final(self)@ == (ChipView {
                    time: 0,
                    ..s
                })) || (s.time > 0 && !s.wait && !fetch_ok(s) && r == Err::<(), Error>(
                    Error::PcOutOfBounds(s.pc),
                ) && final(self)@ == (ChipView { time: 0, ..s })) || (s.time > 0 && !s.wait
                    && fetch_ok(s) && exec_err_cond(s, fetch_opcode(s)) && r == Err::<(), Error>(
                    Error::InvalidOperation(
                        (fetch_opcode(s) / 0x100) as u8,
                        (fetch_opcode(s) % 0x100) as u8,
                    ),
                ) && final(self)@ == (ChipView { time: 0, ..s })))),
    {
        self.input_keys = input_keys;
        if self.input_wait {
            let mut j: usize = 0;
            while j < 16
                invariant
                    j <= 16,
                    old(self)@.wf(),
                    old(self)@.wait,
                    old(self)@.time <= 0,
                    self@ == (ChipView { keys: self@.keys, ..old(self)@ }),
                    self@.keys == input_keys@,
                    self@.keys.len() == 16,
                    forall|m: int| 0 <= m < j ==> !self@.keys[m],
                decreases 16 - j,
            {
                if self.input_keys[j] {
                    self.input_wait = false;
                    self.v[self.input_register as usize] = j as u8;
                    self.pc = ((self.pc as u32 + OPCODE_SIZE as u32) % 0x10000) as u16;
                    return Ok(());
                }
                j = j + 1;
            }
            return Ok(());
        }
        if self.dt > 0 {
            self.dt = self.dt - 1;
        }
        if self.st > 0 {
            self.st = self.st - 1;
        }
        self.time = self.time + FRAME_TIME;
        let ghost sv = frame_start(old(self)@, input_keys@);
        let ghost mut steps: nat = 0;
        proof {
            assert(self@ == sv);
        }
        while self.time > 0
            invariant
                self@.wf(),
                self@.time <= FRAME_TIME,
                !self@.wait,
                !old(self)@.wait,
                old(self)@.wf(),
                input_keys@.len() == 16,
                sv == frame_start(old(self)@, input_keys@),
                self@.keys == input_keys@,
                runs(sv, self@, steps),
            decreases (if self.time > 0 { self.time as int } else { 0 }),
        {
            if self.pc as usize + 1 >= CHIP8_MEM || self.pc % 2 != 0 {
                let e = Error::PcOutOfBounds(self.pc);
                let ghost s_err = self@;
                self.time = 0;
                proof {
                    assert(self@ == (ChipView { time: 0, ..s_err }));
                }
                return Err(e);
            }
            let w0 = self.memory[self.pc as usize];
            let w1 = self.memory[self.pc as usize + 1];
            let opcode = (w0 as u16) * 256 + (w1 as u16);
            proof {
                assert(opcode == fetch_opcode(self@));
            }
            let ghost pre = self@;
            match self.exec(opcode) {
                Ok(cost) => {
                    let ghost midv = self@;
                    proof {
                        lemma_exec_rel_frame(pre, midv, opcode, cost);
                    }
                    self.time = self.time - cost;
                    proof {
                        assert(exec_ok_rel(pre, midv, fetch_opcode(pre), cost));
                        assert(self@ == (ChipView { time: (midv.time - cost) as isize, ..midv }));
                        assert(machine_step(pre, self@));
                        steps = steps + 1;
                        assert(runs(sv, self@, steps));
                    }
                    if self.input_wait {
                        let ghost s_stop = self@;
                        self.time = 0;
                        proof {
                            assert(self@ == (ChipView { time: 0, ..s_stop }));
                        }
                        return Ok(());
                    }
                    proof {
                        assert(!midv.wait);
                        assert(cost == OPCODE_TIME);
                    }
                },
                Err(e) => {
                    let ghost s_err = self@;
                    self.time = 0;
                    proof {
                        assert(self@ == (ChipView { time: 0, ..s_err }));
                    }
                    return Err(e);
                },
            }
        }
        Ok(())
    }
}

/// Law: storing a byte into any register with the register-set
/// instruction and reading that register back yields the same byte.
pub proof fn lemma_set_reg_round_trip(s: ChipView, x: int, kk: u8)
    requires
        s.wf(),
        0 <= x < 16,
    ensures
        eff_6xkk(s, x, kk).v[x] == kk,
{
}

/// Law: the per-frame timer countdown never underflows: at the top of
/// a non-waiting frame a zero timer stays zero and a nonzero timer
/// counts down by exactly one, for both the delay and the sound timer.
pub proof fn lemma_timers_no_underflow(s: ChipView, ks: Seq<bool>)
    ensures
        frame_start(s, ks).dt == (if s.dt > 0 { (s.dt - 1) as u8 } else { 0u8 }),
        frame_start(s, ks).st == (if s.st > 0 { (s.st - 1) as u8 } else { 0u8 }),
        frame_start(s, ks).dt <= s.dt,
        frame_start(s, ks).st <= s.st,
{
}

/// Law: on an initially empty display, drawing a sprite with at least
/// one set bit reports no collision, and drawing it again at the same
/// position reports a collision and restores the empty display (the
/// draw is an XOR). The coordinate registers must not be VF, which the
/// first draw overwrites.
pub proof fn lemma_draw_twice(s: ChipView, x: int, y: int, n: int)
    requires
        s.wf(),
        0 <= x < 15,
        0 <= y < 15,
        0 <= n < 16,
        forall|k: int| 0 <= k < s.disp.len() ==> s.disp[k] == 0,
        exists|r: int, b: int|
            0 <= r < n && 0 <= b < 8 && #[trigger] sprite_pixel(
                s.mem[(s.i + r) % (CHIP8_MEM as int)],
                b,
            ) == 1,
    ensures
        eff_dxyn(s, x, y, n).v[15] == 0,
        eff_dxyn(eff_dxyn(s, x, y, n), x, y, n).v[15] == 1,
        forall|k: int|
            0 <= k < s.disp.len() ==> eff_dxyn(eff_dxyn(s, x, y, n), x, y, n).disp[k] == 0,
{
    let vx = s.v[x] as int;
    let vy = s.v[y] as int;
    let s1 = eff_dxyn(s, x, y, n);
    assert(!draw_collision(s, vx, vy, n));
    assert(s1.v[x] == s.v[x] && s1.v[y] == s.v[y]);
    let (r0, b0) = choose|r: int, b: int|
        0 <= r < n && 0 <= b < 8 && #[trigger] sprite_pixel(
            s.mem[(s.i + r) % (CHIP8_MEM as int)],
            b,
        ) == 1;
    let k0 = ((vy + r0) % 32) * 64 + (vx + b0) % 64;
    lemma_draw_cell_id(vx, vy, r0, b0, k0);
    assert(0 <= k0 < 2048);
    assert(draw_covers(vx, vy, n, k0));
    assert(draw_bit(s, vx, vy, k0) == 1);
    assert(s1.disp[k0] == 1);
    assert(draw_bit(s1, vx, vy, k0) == draw_bit(s, vx, vy, k0));
    assert(draw_collision(s1, vx, vy, n));
    let s2 = eff_dxyn(s1, x, y, n);
    assert(s2.v[15] == 1);
    assert forall|k: int| 0 <= k < s.disp.len() implies s2.disp[k] == 0 by {
        assert(draw_bit(s1, vx, vy, k) == draw_bit(s, vx, vy, k));
        if draw_covers(vx, vy, n, k) {
            let byte = s.mem[(s.i + row_of(vy, k / (CHIP8_WIDTH as int))) % (CHIP8_MEM as int)];
            lemma_sprite_pixel_bit(byte, (7 - col_of(vx, k % (CHIP8_WIDTH as int))) as u8);
            assert(draw_bit(s, vx, vy, k) <= 1);
            assert(s1.disp[k] == xor_bit(s.disp[k], draw_bit(s, vx, vy, k)));
            assert(s2.disp[k] == xor_bit(s1.disp[k], draw_bit(s1, vx, vy, k)));
        } else {
            assert(s2.disp[k] == s1.disp[k] && s1.disp[k] == s.disp[k]);
        }
    }
}

} // verus!
