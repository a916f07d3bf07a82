//! Textual renderings of machine words: decimal and hexadecimal digit
//! sequences, with the zero-padded and space-padded shapes that the debug
//! instruction and the state dump use. All output is ASCII held in byte
//! vectors.

use vstd::prelude::*;

verus! {

/// ASCII digit for `d`, which must be below ten.
pub open spec fn dec_digit(d: nat) -> u8
    recommends
        d < 10,
{
    (48 + d) as u8
}

/// Lower-case ASCII hexadecimal digit for `d`, which must be below sixteen.
pub open spec fn hex_digit_lower(d: nat) -> u8
    recommends
        d < 16,
{
    if d < 10 {
        (48 + d) as u8
    } else {
        (87 + d) as u8
    }
}

/// Upper-case ASCII hexadecimal digit for `d`, which must be below sixteen.
pub open spec fn hex_digit_upper(d: nat) -> u8
    recommends
        d < 16,
{
    if d < 10 {
        (48 + d) as u8
    } else {
        (55 + d) as u8
    }
}

/// Decimal rendering of `v` without padding: most significant digit first,
/// a single `0` for zero.
pub open spec fn dec_bytes(v: nat) -> Seq<u8>
    decreases v,
{
    if v < 10 {
        seq![dec_digit(v)]
    } else {
        dec_bytes(v / 10).push(dec_digit(v % 10))
    }
}

/// Lower-case hexadecimal rendering of `v` without padding.
pub open spec fn hex_bytes_lower(v: nat) -> Seq<u8>
    decreases v,
{
    if v < 16 {
        seq![hex_digit_lower(v)]
    } else {
        hex_bytes_lower(v / 16).push(hex_digit_lower(v % 16))
    }
}

/// Decimal rendering of a sixteen-bit value, zero-padded to five digits.
pub open spec fn dec5_bytes(v: nat) -> Seq<u8> {
    seq![
        dec_digit(v / 10000 % 10),
        dec_digit(v / 1000 % 10),
        dec_digit(v / 100 % 10),
        dec_digit(v / 10 % 10),
        dec_digit(v % 10),
    ]
}

/// Upper-case hexadecimal rendering of a sixteen-bit value, zero-padded to
/// four digits.
pub open spec fn hex4_bytes(v: nat) -> Seq<u8> {
    seq![
        hex_digit_upper(v / 4096 % 16),
        hex_digit_upper(v / 256 % 16),
        hex_digit_upper(v / 16 % 16),
        hex_digit_upper(v % 16),
    ]
}

/// Upper-case hexadecimal rendering of a byte, zero-padded to two digits.
pub open spec fn hex2_bytes(v: nat) -> Seq<u8> {
    seq![hex_digit_upper(v / 16 % 16), hex_digit_upper(v % 16)]
}

/// Decimal rendering of `v`, right-aligned with spaces to at least four
/// columns.
pub open spec fn dec_pad4_bytes(v: nat) -> Seq<u8> {
    let spaces: nat = if v < 10 {
        3
    } else if v < 100 {
        2
    } else if v < 1000 {
        1
    } else {
        0
    };
    Seq::new(spaces, |i: int| 32u8) + dec_bytes(v)
}

/// Appends the unpadded decimal rendering of `v` to `out`.
pub fn push_dec(out: &mut Vec<u8>, v: u16)
    ensures
        final(out)@ == old(out)@ + dec_bytes(v as nat),
    decreases v,
{
    if v < 10 {
        out.push(48 + v as u8);
        assert(out@ =~= old(out)@ + dec_bytes(v as nat));
    } else {
        push_dec(out, v / 10);
        out.push(48 + (v % 10) as u8);
        assert(out@ =~= old(out)@ + dec_bytes(v as nat));
    }
}

/// Appends the unpadded lower-case hexadecimal rendering of `v` to `out`.
pub fn push_hex_lower(out: &mut Vec<u8>, v: u16)
    ensures
        final(out)@ == old(out)@ + hex_bytes_lower(v as nat),
    decreases v,
{
    if v < 16 {
        if v < 10 {
            out.push(48 + v as u8);
        } else {
            out.push(87 + v as u8);
        }
        assert(out@ =~= old(out)@ + hex_bytes_lower(v as nat));
    } else {
        push_hex_lower(out, v / 16);
        let d = v % 16;
        if d < 10 {
            out.push(48 + d as u8);
        } else {
            out.push(87 + d as u8);
        }
        assert(out@ =~= old(out)@ + hex_bytes_lower(v as nat));
    }
}

/// Appends the five-digit zero-padded decimal rendering of `v` to `out`.
pub fn push_dec5(out: &mut Vec<u8>, v: u16)
    ensures
        final(out)@ == old(out)@ + dec5_bytes(v as nat),
{
    out.push(48 + (v / 10000 % 10) as u8);
    out.push(48 + (v / 1000 % 10) as u8);
    out.push(48 + (v / 100 % 10) as u8);
    out.push(48 + (v / 10 % 10) as u8);
    out.push(48 + (v % 10) as u8);
    assert(out@ =~= old(out)@ + dec5_bytes(v as nat));
}

/// Appends one upper-case hexadecimal digit for `d`, which must be below
/// sixteen.
fn push_hex_digit_upper(out: &mut Vec<u8>, d: u16)
    requires
        d < 16,
    ensures
        final(out)@ == old(out)@ + seq![hex_digit_upper(d as nat)],
{
    if d < 10 {
        out.push(48 + d as u8);
    } else {
        out.push(55 + d as u8);
    }
    assert(out@ =~= old(out)@ + seq![hex_digit_upper(d as nat)]);
}

/// Appends the four-digit zero-padded upper-case hexadecimal rendering of `v`
/// to `out`.
pub fn push_hex4(out: &mut Vec<u8>, v: u16)
    ensures
        final(out)@ == old(out)@ + hex4_bytes(v as nat),
{
    push_hex_digit_upper(out, v / 4096 % 16);
    push_hex_digit_upper(out, v / 256 % 16);
    push_hex_digit_upper(out, v / 16 % 16);
    push_hex_digit_upper(out, v % 16);
    assert(out@ =~= old(out)@ + hex4_bytes(v as nat));
}

/// Appends the two-digit zero-padded upper-case hexadecimal rendering of `v`
/// to `out`.
pub fn push_hex2(out: &mut Vec<u8>, v: u8)
    ensures
        final(out)@ == old(out)@ + hex2_bytes(v as nat),
{
    push_hex_digit_upper(out, (v / 16) as u16);
    push_hex_digit_upper(out, (v % 16) as u16);
    assert(out@ =~= old(out)@ + hex2_bytes(v as nat));
}

/// Appends the space-padded decimal rendering of `v` to `out`.
pub fn push_dec_pad4(out: &mut Vec<u8>, v: u16)
    ensures
        final(out)@ == old(out)@ + dec_pad4_bytes(v as nat),
{
    if v < 10 {
        out.push(32);
        out.push(32);
        out.push(32);
    } else if v < 100 {
        out.push(32);
        out.push(32);
    } else if v < 1000 {
        out.push(32);
    }
    push_dec(out, v);
    assert(out@ =~= old(out)@ + dec_pad4_bytes(v as nat));
}

} // verus!
