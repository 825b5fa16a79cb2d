use vstd::prelude::*;

verus! {

/// The built-in font table: sixteen hexadecimal digit sprites of five
/// bytes each, loaded at address 0 when the machine is constructed.
pub open spec fn font_seq() -> Seq<u8> {
    seq![
        0xF0u8, 0x90u8, 0x90u8, 0x90u8, 0xF0u8, // 0
        0x20u8, 0x60u8, 0x20u8, 0x20u8, 0x70u8, // 1
        0xF0u8, 0x10u8, 0xF0u8, 0x80u8, 0xF0u8, // 2
        0xF0u8, 0x10u8, 0xF0u8, 0x10u8, 0xF0u8, // 3
        0x90u8, 0x90u8, 0xF0u8, 0x10u8, 0x10u8, // 4
        0xF0u8, 0x80u8, 0xF0u8, 0x10u8, 0xF0u8, // 5
        0xF0u8, 0x80u8, 0xF0u8, 0x90u8, 0xF0u8, // 6
        0xF0u8, 0x10u8, 0x20u8, 0x40u8, 0x40u8, // 7
        0xF0u8, 0x90u8, 0xF0u8, 0x90u8, 0xF0u8, // 8
        0xF0u8, 0x90u8, 0xF0u8, 0x10u8, 0xF0u8, // 9
        0xF0u8, 0x90u8, 0xF0u8, 0x90u8, 0x90u8, // A
        0xE0u8, 0x90u8, 0xE0u8, 0x90u8, 0xE0u8, // B
        0xF0u8, 0x80u8, 0x80u8, 0x80u8, 0xF0u8, // C
        0xE0u8, 0x90u8, 0x90u8, 0x90u8, 0xE0u8, // D
        0xF0u8, 0x80u8, 0xF0u8, 0x80u8, 0x80u8, // E
        0xF0u8, 0x80u8, 0xF0u8, 0x90u8, 0x90u8, // F
    ]
}

/// Builds the font table as a byte vector matching `font_seq`.
pub fn font_set() -> (r: Vec<u8>)
    ensures
        r@ == font_seq(),
{
    let mut f: Vec<u8> = Vec::new();
    f.push(0xF0); f.push(0x90); f.push(0x90); f.push(0x90); f.push(0xF0);
    f.push(0x20); f.push(0x60); f.push(0x20); f.push(0x20); f.push(0x70);
    f.push(0xF0); f.push(0x10); f.push(0xF0); f.push(0x80); f.push(0xF0);
    f.push(0xF0); f.push(0x10); f.push(0xF0); f.push(0x10); f.push(0xF0);
    f.push(0x90); f.push(0x90); f.push(0xF0); f.push(0x10); f.push(0x10);
    f.push(0xF0); f.push(0x80); f.push(0xF0); f.push(0x10); f.push(0xF0);
    f.push(0xF0); f.push(0x80); f.push(0xF0); f.push(0x90); f.push(0xF0);
    f.push(0xF0); f.push(0x10); f.push(0x20); f.push(0x40); f.push(0x40);
    f.push(0xF0); f.push(0x90); f.push(0xF0); f.push(0x90); f.push(0xF0);
    f.push(0xF0); f.push(0x90); f.push(0xF0); f.push(0x10); f.push(0xF0);
    f.push(0xF0); f.push(0x90); f.push(0xF0); f.push(0x90); f.push(0x90);
    f.push(0xE0); f.push(0x90); f.push(0xE0); f.push(0x90); f.push(0xE0);
    f.push(0xF0); f.push(0x80); f.push(0x80); f.push(0x80); f.push(0xF0);
    f.push(0xE0); f.push(0x90); f.push(0x90); f.push(0x90); f.push(0xE0);
    f.push(0xF0); f.push(0x80); f.push(0xF0); f.push(0x80); f.push(0x80);
    f.push(0xF0); f.push(0x80); f.push(0xF0); f.push(0x90); f.push(0x90);
    proof {
        assert(f@ =~= font_seq());
    }
    f
}

} // verus!
