//! DES block encryption, as classic VNC authentication uses it.
//!
//! The tables are the standard DES tables, packed eight entries (or
//! sixteen S-box nibbles) to a 64-bit word.  Values travel right-
//! aligned in 64-bit words; table positions are 1-based from the most
//! significant bit, as the standard writes them.

use vstd::prelude::*;

verus! {

pub const IP_W0: u64 = 0x020A121A222A323A;
pub const IP_W1: u64 = 0x040C141C242C343C;
pub const IP_W2: u64 = 0x060E161E262E363E;
pub const IP_W3: u64 = 0x0810182028303840;
pub const IP_W4: u64 = 0x0109111921293139;
pub const IP_W5: u64 = 0x030B131B232B333B;
pub const IP_W6: u64 = 0x050D151D252D353D;
pub const IP_W7: u64 = 0x070F171F272F373F;

pub const FP_W0: u64 = 0x2040183810300828;
pub const FP_W1: u64 = 0x1F3F17370F2F0727;
pub const FP_W2: u64 = 0x1E3E16360E2E0626;
pub const FP_W3: u64 = 0x1D3D15350D2D0525;
pub const FP_W4: u64 = 0x1C3C14340C2C0424;
pub const FP_W5: u64 = 0x1B3B13330B2B0323;
pub const FP_W6: u64 = 0x1A3A12320A2A0222;
pub const FP_W7: u64 = 0x1939113109290121;

pub const EXP_W0: u64 = 0x0504050403020120;
pub const EXP_W1: u64 = 0x0B0A090809080706;
pub const EXP_W2: u64 = 0x11100F0E0D0C0D0C;
pub const EXP_W3: u64 = 0x1514151413121110;
pub const EXP_W4: u64 = 0x1B1A191819181716;
pub const EXP_W5: u64 = 0x01201F1E1D1C1D1C;

pub const PBOX_W0: u64 = 0x111C0C1D15140710;
pub const PBOX_W1: u64 = 0x0A1F12051A170F01;
pub const PBOX_W2: u64 = 0x09031B200E180802;
pub const PBOX_W3: u64 = 0x19040B16061E0D13;

pub const PC1_W0: u64 = 0x0109111921293139;
pub const PC1_W1: u64 = 0x020A121A222A323A;
pub const PC1_W2: u64 = 0x030B131B232B333B;
pub const PC1_W3: u64 = 0x272F373F242C343C;
pub const PC1_W4: u64 = 0x262E363E070F171F;
pub const PC1_W5: u64 = 0x252D353D060E161E;
pub const PC1_W6: u64 = 0x040C141C050D151D;

pub const PC2_W0: u64 = 0x1C030501180B110E;
pub const PC2_W1: u64 = 0x040C13170A15060F;
pub const PC2_W2: u64 = 0x020D141B0710081A;
pub const PC2_W3: u64 = 0x281E372F251F3429;
pub const PC2_W4: u64 = 0x3827312C30212D33;
pub const PC2_W5: u64 = 0x201D24322A2E3522;

pub const SHIFTS_W0: u64 = 0x0202020202020101;
pub const SHIFTS_W1: u64 = 0x0102020202020201;

/// Table selectors for the shared permutation walker.
pub const TAB_IP: usize = 0;
pub const TAB_FP: usize = 1;
pub const TAB_EXP: usize = 2;
pub const TAB_PBOX: usize = 3;
pub const TAB_PC1: usize = 4;
pub const TAB_PC2: usize = 5;
pub const TAB_SHIFTS: usize = 6;

/// The packed word `w` of table `t`.
pub open spec fn spec_tab_word(t: int, w: int) -> u64 {
    if t == 0 {
        if w == 0 { IP_W0 } else if w == 1 { IP_W1 } else if w == 2 { IP_W2 } else if w == 3 {
            IP_W3
        } else if w == 4 { IP_W4 } else if w == 5 { IP_W5 } else if w == 6 { IP_W6 } else { IP_W7 }
    } else if t == 1 {
        if w == 0 { FP_W0 } else if w == 1 { FP_W1 } else if w == 2 { FP_W2 } else if w == 3 {
            FP_W3
        } else if w == 4 { FP_W4 } else if w == 5 { FP_W5 } else if w == 6 { FP_W6 } else { FP_W7 }
    } else if t == 2 {
        if w == 0 { EXP_W0 } else if w == 1 { EXP_W1 } else if w == 2 { EXP_W2 } else if w == 3 {
            EXP_W3
        } else if w == 4 { EXP_W4 } else { EXP_W5 }
    } else if t == 3 {
        if w == 0 { PBOX_W0 } else if w == 1 { PBOX_W1 } else if w == 2 { PBOX_W2 } else {
            PBOX_W3
        }
    } else if t == 4 {
        if w == 0 { PC1_W0 } else if w == 1 { PC1_W1 } else if w == 2 { PC1_W2 } else if w == 3 {
            PC1_W3
        } else if w == 4 { PC1_W4 } else if w == 5 { PC1_W5 } else { PC1_W6 }
    } else if t == 5 {
        if w == 0 { PC2_W0 } else if w == 1 { PC2_W1 } else if w == 2 { PC2_W2 } else if w == 3 {
            PC2_W3
        } else if w == 4 { PC2_W4 } else { PC2_W5 }
    } else {
        if w == 0 { SHIFTS_W0 } else { SHIFTS_W1 }
    }
}

/// Entry `i` of table `t`.
pub open spec fn spec_tab_entry(t: int, i: int) -> u64 {
    (spec_tab_word(t, i / 8) >> (((i % 8) * 8) as u64)) & 0xFF
}

/// The packed word `w` of table `t`.
fn tab_word(t: usize, w: usize) -> (r: u64)
    ensures
        r == spec_tab_word(t as int, w as int),
{
    if t == 0 {
        if w == 0 { IP_W0 } else if w == 1 { IP_W1 } else if w == 2 { IP_W2 } else if w == 3 {
            IP_W3
        } else if w == 4 { IP_W4 } else if w == 5 { IP_W5 } else if w == 6 { IP_W6 } else { IP_W7 }
    } else if t == 1 {
        if w == 0 { FP_W0 } else if w == 1 { FP_W1 } else if w == 2 { FP_W2 } else if w == 3 {
            FP_W3
        } else if w == 4 { FP_W4 } else if w == 5 { FP_W5 } else if w == 6 { FP_W6 } else { FP_W7 }
    } else if t == 2 {
        if w == 0 { EXP_W0 } else if w == 1 { EXP_W1 } else if w == 2 { EXP_W2 } else if w == 3 {
            EXP_W3
        } else if w == 4 { EXP_W4 } else { EXP_W5 }
    } else if t == 3 {
        if w == 0 { PBOX_W0 } else if w == 1 { PBOX_W1 } else if w == 2 { PBOX_W2 } else {
            PBOX_W3
        }
    } else if t == 4 {
        if w == 0 { PC1_W0 } else if w == 1 { PC1_W1 } else if w == 2 { PC1_W2 } else if w == 3 {
            PC1_W3
        } else if w == 4 { PC1_W4 } else if w == 5 { PC1_W5 } else { PC1_W6 }
    } else if t == 5 {
        if w == 0 { PC2_W0 } else if w == 1 { PC2_W1 } else if w == 2 { PC2_W2 } else if w == 3 {
            PC2_W3
        } else if w == 4 { PC2_W4 } else { PC2_W5 }
    } else {
        if w == 0 { SHIFTS_W0 } else { SHIFTS_W1 }
    }
}

/// Entry `i` of table `t`.
fn tab_entry(t: usize, i: usize) -> (r: u64)
    requires
        i < 64,
    ensures
        r == spec_tab_entry(t as int, i as int),
{
    let w: u64 = tab_word(t, i / 8);
    (w >> (((i % 8) * 8) as u64)) & 0xFF
}

/// The first `j` output bits of the bit permutation `t` applied to the
/// low `win` bits of `x`: each table entry names a source position,
/// 1-based from the most significant of the `win` bits.  An entry out
/// of range (which no table holds) reads position one.
pub open spec fn spec_perm_pre(x: u64, t: int, win: u64, j: int) -> u64
    decreases j,
{
    if j <= 0 {
        0u64
    } else {
        let e = spec_tab_entry(t, j - 1);
        let s = if 1 <= e <= win {
            e
        } else {
            1
        };
        (spec_perm_pre(x, t, win, j - 1) << 1u64) | ((x >> ((win - s) as u64)) & 1)
    }
}

/// Apply bit permutation `t`, producing `n` bits.
fn permute(x: u64, t: usize, win: u64, n: usize) -> (r: u64)
    requires
        1 <= win <= 64,
        n <= 64,
    ensures
        r == spec_perm_pre(x, t as int, win, n as int),
{
    let mut out: u64 = 0;
    let mut j: usize = 0;
    while j < n
        invariant
            1 <= win <= 64,
            n <= 64,
            j <= n,
            out == spec_perm_pre(x, t as int, win, j as int),
        decreases n - j,
    {
        let e: u64 = tab_entry(t, j);
        let s: u64 = if 1 <= e && e <= win {
            e
        } else {
            1
        };
        out = (out << 1u64) | ((x >> (win - s)) & 1);
        j += 1;
    }
    out
}

pub const SB0_W0: u64 = 0x7095C6A38BF21D4E;
pub const SB0_W1: u64 = 0x8359BC6A1D2E47F0;
pub const SB0_W2: u64 = 0x05A379CFB26D8E14;
pub const SB0_W3: u64 = 0xD60AE3B5719428CF;
pub const SB1_W0: u64 = 0xA50CD27943B6E81F;
pub const SB1_W1: u64 = 0x5B96A10CE82F74D3;
pub const SB1_W2: u64 = 0xF2396C851D4AB7E0;
pub const SB1_W3: u64 = 0x9E50C76B24F31A8D;
pub const SB2_W0: u64 = 0x824B7CD15F36E90A;
pub const SB2_W1: u64 = 0x1FBCE582A643907D;
pub const SB2_W2: u64 = 0x7EA5C21B03F8946D;
pub const SB2_W3: u64 = 0xC25B3EF478960DA1;
pub const SB3_W0: u64 = 0xF4CB5821A9603ED7;
pub const SB3_W1: u64 = 0x9EA1C27430F65B8D;
pub const SB3_W2: u64 = 0x4825E31FD7BC096A;
pub const SB3_W3: u64 = 0xE27CB5498D1A60F3;
pub const SB4_W0: u64 = 0x9E0DF3586BA714C2;
pub const SB4_W1: u64 = 0x6893AF051D74C2BE;
pub const SB4_W2: u64 = 0xE0365C9F87DAB124;
pub const SB4_W3: u64 = 0x354A90F6D2E17C8B;
pub const SB5_W0: u64 = 0xB57E43D08629FA1C;
pub const SB5_W1: u64 = 0x83B0ED1659C724FA;
pub const SB5_W2: u64 = 0x6BD1A4073C825FE9;
pub const SB5_W3: u64 = 0xD80671EBAF59C234;
pub const SB6_W0: u64 = 0x16A579C3D80FE2B4;
pub const SB6_W1: u64 = 0x68F2C53EA1947B0D;
pub const SB6_W2: u64 = 0x295086FAE73CDB41;
pub const SB6_W3: u64 = 0xC32EF0597A418DB6;
pub const SB7_W0: u64 = 0x7C05E39A1BF6482D;
pub const SB7_W1: u64 = 0x29E0B65C473A8DF1;
pub const SB7_W2: u64 = 0x853FDA602EC914B7;
pub const SB7_W3: u64 = 0xB65309CFD8A47E12;

/// The packed word `w` of S-box `b`.
pub open spec fn spec_sb_word(b: int, w: int) -> u64 {
    if b == 0 {
        if w == 0 { SB0_W0 } else if w == 1 { SB0_W1 } else if w == 2 { SB0_W2 } else { SB0_W3 }
    } else if b == 1 {
        if w == 0 { SB1_W0 } else if w == 1 { SB1_W1 } else if w == 2 { SB1_W2 } else { SB1_W3 }
    } else if b == 2 {
        if w == 0 { SB2_W0 } else if w == 1 { SB2_W1 } else if w == 2 { SB2_W2 } else { SB2_W3 }
    } else if b == 3 {
        if w == 0 { SB3_W0 } else if w == 1 { SB3_W1 } else if w == 2 { SB3_W2 } else { SB3_W3 }
    } else if b == 4 {
        if w == 0 { SB4_W0 } else if w == 1 { SB4_W1 } else if w == 2 { SB4_W2 } else { SB4_W3 }
    } else if b == 5 {
        if w == 0 { SB5_W0 } else if w == 1 { SB5_W1 } else if w == 2 { SB5_W2 } else { SB5_W3 }
    } else if b == 6 {
        if w == 0 { SB6_W0 } else if w == 1 { SB6_W1 } else if w == 2 { SB6_W2 } else { SB6_W3 }
    } else {
        if w == 0 { SB7_W0 } else if w == 1 { SB7_W1 } else if w == 2 { SB7_W2 } else { SB7_W3 }
    }
}

/// The packed word `w` of S-box `b`.
fn sb_word(b: usize, w: usize) -> (r: u64)
    ensures
        r == spec_sb_word(b as int, w as int),
{
    if b == 0 {
        if w == 0 { SB0_W0 } else if w == 1 { SB0_W1 } else if w == 2 { SB0_W2 } else { SB0_W3 }
    } else if b == 1 {
        if w == 0 { SB1_W0 } else if w == 1 { SB1_W1 } else if w == 2 { SB1_W2 } else { SB1_W3 }
    } else if b == 2 {
        if w == 0 { SB2_W0 } else if w == 1 { SB2_W1 } else if w == 2 { SB2_W2 } else { SB2_W3 }
    } else if b == 3 {
        if w == 0 { SB3_W0 } else if w == 1 { SB3_W1 } else if w == 2 { SB3_W2 } else { SB3_W3 }
    } else if b == 4 {
        if w == 0 { SB4_W0 } else if w == 1 { SB4_W1 } else if w == 2 { SB4_W2 } else { SB4_W3 }
    } else if b == 5 {
        if w == 0 { SB5_W0 } else if w == 1 { SB5_W1 } else if w == 2 { SB5_W2 } else { SB5_W3 }
    } else if b == 6 {
        if w == 0 { SB6_W0 } else if w == 1 { SB6_W1 } else if w == 2 { SB6_W2 } else { SB6_W3 }
    } else {
        if w == 0 { SB7_W0 } else if w == 1 { SB7_W1 } else if w == 2 { SB7_W2 } else { SB7_W3 }
    }
}

/// The S-box output nibble of box `b` for the 6-bit group, already
/// arranged as row-column entry index `x`.
pub open spec fn spec_sbox(b: int, x: u64) -> u64 {
    (spec_sb_word(b, ((x / 16) & 3) as int) >> (((x % 16) * 4) as u64)) & 0xF
}

/// The S-box output nibble of box `b` for entry `x`.
fn sbox(b: usize, x: u64) -> (r: u64)
    requires
        x < 64,
    ensures
        r == spec_sbox(b as int, x),
{
    let w: u64 = sb_word(b, ((x / 16) & 3) as usize);
    (w >> ((x % 16) * 4)) & 0xF
}

/// The concatenated S-box outputs of the first `b` boxes applied to
/// the 48-bit group `x`, row-column arranged per the standard.
pub open spec fn spec_sbox_out(x: u64, b: int) -> u64
    decreases b,
{
    if b <= 0 {
        0u64
    } else {
        let x6 = (x >> ((42 - 6 * (b - 1)) as u64)) & 0x3F;
        let idx = ((((x6 >> 4u64) & 2) | (x6 & 1)) * 16 + ((x6 >> 1u64) & 0xF)) as u64;
        (spec_sbox_out(x, b - 1) << 4u64) | spec_sbox(b - 1, idx)
    }
}

/// Apply all eight S-boxes to a 48-bit group.
fn sbox_out(x: u64) -> (r: u64)
    ensures
        r == spec_sbox_out(x, 8),
{
    let mut out: u64 = 0;
    let mut b: usize = 0;
    while b < 8
        invariant
            b <= 8,
            out == spec_sbox_out(x, b as int),
        decreases 8 - b,
    {
        let x6: u64 = (x >> ((42 - 6 * (b as u64)))) & 0x3F;
        proof {
            assert((((x6 >> 4u64) & 2) | (x6 & 1)) * 16 + ((x6 >> 1u64) & 0xF) < 64) by (bit_vector);
        }
        let idx: u64 = (((x6 >> 4u64) & 2) | (x6 & 1)) * 16 + ((x6 >> 1u64) & 0xF);
        out = (out << 4u64) | sbox(b, idx);
        b += 1;
    }
    out
}

/// The cipher function: expand, mix the subkey, substitute, permute.
pub open spec fn spec_feistel(r32: u64, k: u64) -> u64 {
    spec_perm_pre(spec_sbox_out(spec_perm_pre(r32, TAB_EXP as int, 32, 48) ^ k, 8), TAB_PBOX as int, 32, 32)
}

/// The cipher function applied in each round.
fn feistel(r32: u64, k: u64) -> (r: u64)
    ensures
        r == spec_feistel(r32, k),
{
    let er: u64 = permute(r32, TAB_EXP, 32, 48);
    let s: u64 = sbox_out(er ^ k);
    permute(s, TAB_PBOX, 32, 32)
}

/// Rotate the low 28 bits left by `s` (one or two).
pub open spec fn spec_rot28(v: u64, s: u64) -> u64 {
    ((v << s) | (v >> ((28 - s) as u64))) & 0xFFFFFFF
}

/// The key-schedule halves after `i` rotation steps.
pub open spec fn spec_cd(key: u64, i: int) -> (u64, u64)
    decreases i,
{
    if i <= 0 {
        let k56 = spec_perm_pre(key, TAB_PC1 as int, 64, 56);
        (k56 >> 28u64, k56 & 0xFFFFFFF)
    } else {
        let prev = spec_cd(key, i - 1);
        let e = spec_tab_entry(TAB_SHIFTS as int, i - 1);
        let s = if 1 <= e <= 2 {
            e
        } else {
            1
        };
        (spec_rot28(prev.0, s), spec_rot28(prev.1, s))
    }
}

/// Round subkey `r` of the key schedule.
pub open spec fn spec_subkey(key: u64, r: int) -> u64 {
    let cd = spec_cd(key, r + 1);
    spec_perm_pre((cd.0 << 28u64) | cd.1, TAB_PC2 as int, 56, 48)
}

/// The halves after `i` Feistel rounds.
pub open spec fn spec_rounds(key: u64, l0: u64, r0: u64, i: int) -> (u64, u64)
    decreases i,
{
    if i <= 0 {
        (l0, r0)
    } else {
        let prev = spec_rounds(key, l0, r0, i - 1);
        (prev.1, prev.0 ^ spec_feistel(prev.1, spec_subkey(key, i - 1)))
    }
}

/// DES encryption of one 64-bit block.
pub open spec fn spec_des_encrypt(key: u64, m: u64) -> u64 {
    let x = spec_perm_pre(m, TAB_IP as int, 64, 64);
    let lr = spec_rounds(key, x >> 32u64, x & 0xFFFFFFFF, 16);
    spec_perm_pre((lr.1 << 32u64) | lr.0, TAB_FP as int, 64, 64)
}

/// Encrypt one 64-bit block under `key`.
pub fn des_encrypt_block(key: u64, m: u64) -> (r: u64)
    ensures
        r == spec_des_encrypt(key, m),
{
    let x: u64 = permute(m, TAB_IP, 64, 64);
    let mut l: u64 = x >> 32u64;
    let mut r0: u64 = x & 0xFFFFFFFF;
    let mut i: usize = 0;
    while i < 16
        invariant
            i <= 16,
            l == spec_rounds(key, x >> 32u64, x & 0xFFFFFFFF, i as int).0,
            r0 == spec_rounds(key, x >> 32u64, x & 0xFFFFFFFF, i as int).1,
        decreases 16 - i,
    {
        let k: u64 = subkey(key, i);
        let nl: u64 = r0;
        let nr: u64 = l ^ feistel(r0, k);
        l = nl;
        r0 = nr;
        i += 1;
    }
    permute((r0 << 32u64) | l, TAB_FP, 64, 64)
}

/// Round subkey `r` of the key schedule.
fn subkey(key: u64, r: usize) -> (k: u64)
    requires
        r < 16,
    ensures
        k == spec_subkey(key, r as int),
{
    let k56: u64 = permute(key, TAB_PC1, 64, 56);
    let mut c: u64 = k56 >> 28u64;
    let mut d: u64 = k56 & 0xFFFFFFF;
    let mut i: usize = 0;
    while i < r + 1
        invariant
            r < 16,
            i <= r + 1,
            c == spec_cd(key, i as int).0,
            d == spec_cd(key, i as int).1,
        decreases r + 1 - i,
    {
        let e: u64 = tab_entry(TAB_SHIFTS, i);
        let s: u64 = if 1 <= e && e <= 2 {
            e
        } else {
            1
        };
        c = ((c << s) | (c >> (28 - s))) & 0xFFFFFFF;
        d = ((d << s) | (d >> (28 - s))) & 0xFFFFFFF;
        i += 1;
    }
    permute((c << 28u64) | d, TAB_PC2, 56, 48)
}

} // verus!
