//! Semantic palette roles: every color a widget paints is a slot of the
//! theme palette (16 RGB entries), addressed through these role indices.

use vstd::prelude::*;

verus! {

pub const ROLE_BG: usize = 0;
pub const ROLE_ALERT: usize = 1;
pub const ROLE_GOOD: usize = 2;
pub const ROLE_WARN: usize = 3;
pub const ROLE_RX: usize = 4;
pub const ROLE_TX: usize = 5;
pub const ROLE_ACCENT: usize = 6;
pub const ROLE_FG: usize = 7;
pub const ROLE_DIM: usize = 8;
/// First slot of the bright series ramp (9..15 = 7 series colors).
pub const ROLE_SERIES_START: usize = 9;
/// One past the last slot of the bright series ramp.
pub const ROLE_SERIES_END: usize = 16;

/// Cycle a multi-series index through the bright ramp (9..15): series 0 →
/// 9, series 1 → 10, ..., series 7 → 9 again.
pub fn series_role(series_idx: usize) -> (r: usize)
    ensures
        r == ROLE_SERIES_START + series_idx % 7,
        ROLE_SERIES_START <= r < ROLE_SERIES_END,
{
    ROLE_SERIES_START + (series_idx % (ROLE_SERIES_END - ROLE_SERIES_START))
}

/// Series `i` and series `i + 7` share a color; the ramp never leaves its
/// seven slots.
pub proof fn series_role_period(i: nat)
    ensures
        ROLE_SERIES_START + i % 7 == ROLE_SERIES_START + (i + 7) % 7,
        ROLE_SERIES_START <= ROLE_SERIES_START + i % 7 < ROLE_SERIES_END,
{
    vstd::arithmetic::div_mod::lemma_mod_add_multiples_vanish(i as int, 7);
}

/// The test palette: per-slot distinct RGB (`[i*16; 3]` per slot, slot 0 =
/// black, slot 15 = white-ish), so style checks can tell roles apart.
pub fn test_palette() -> (p: [[u8; 3]; 16])
    ensures
        forall|i: int| 0 <= i < 16 ==> #[trigger] p[i] == [(i * 16) as u8, (i * 16) as u8, (i * 16) as u8],
{
    let p = [
        [0u8, 0, 0],
        [16, 16, 16],
        [32, 32, 32],
        [48, 48, 48],
        [64, 64, 64],
        [80, 80, 80],
        [96, 96, 96],
        [112, 112, 112],
        [128, 128, 128],
        [144, 144, 144],
        [160, 160, 160],
        [176, 176, 176],
        [192, 192, 192],
        [208, 208, 208],
        [224, 224, 224],
        [240, 240, 240],
    ];
    assert forall|i: int| 0 <= i < 16 implies #[trigger] p[i] == [(i * 16) as u8, (i * 16) as u8, (i * 16) as u8] by {
        assert(p[i][0] == (i * 16) as u8);
    }
    p
}

} // verus!
