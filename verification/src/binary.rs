use crate::modes::{BinaryMode, BinaryWidth, Modes};
use crate::numerals::{digits_fixed, render_fixed};
use vstd::prelude::*;
use vstd::string::StringExecFns;

verus! {

pub open spec fn width_bits(w: BinaryWidth) -> nat {
    match w {
        BinaryWidth::W8 => 8,
        BinaryWidth::W16 => 16,
        BinaryWidth::W32 => 32,
        BinaryWidth::W64 => 64,
    }
}

pub open spec fn width_modulus(w: BinaryWidth) -> int {
    match w {
        BinaryWidth::W8 => 256,
        BinaryWidth::W16 => 65536,
        BinaryWidth::W32 => 4294967296,
        BinaryWidth::W64 => 18446744073709551616,
    }
}

/// Whether a value can be narrowed to the configured width: within the
/// two's-complement range when signed, within the nonnegative range when
/// unsigned.
pub open spec fn fits_mode(v: int, m: BinaryMode, w: BinaryWidth) -> bool {
    match m {
        BinaryMode::Signed => -(width_modulus(w) / 2) <= v < width_modulus(w) / 2,
        BinaryMode::Unsigned => 0 <= v < width_modulus(w),
    }
}

/// The bit pattern a fitting value narrows to: the value itself, or its
/// two's-complement encoding when negative.
pub open spec fn pattern_of(v: int, w: BinaryWidth) -> nat {
    if v < 0 {
        (v + width_modulus(w)) as nat
    } else {
        v as nat
    }
}

/// The whole contract of the binary annotation: empty when the value does
/// not fit the configured width, else ` = ` followed by the zero-padded hex
/// digits and the zero-padded binary digits of the narrowed bit pattern.
pub open spec fn binrep_spec(v: int, m: BinaryMode, w: BinaryWidth) -> Seq<char> {
    if fits_mode(v, m, w) {
        " = "@ + digits_fixed(pattern_of(v, w), 16, width_bits(w) / 4) + " "@ + digits_fixed(
            pattern_of(v, w),
            2,
            width_bits(w),
        )
    } else {
        Seq::empty()
    }
}

fn render_annotation(pattern: u64, w: BinaryWidth) -> (r: String)
    ensures
        r@ == " = "@ + digits_fixed(pattern as nat, 16, width_bits(w) / 4) + " "@ + digits_fixed(
            pattern as nat,
            2,
            width_bits(w),
        ),
{
    let bits: u64 = match w {
        BinaryWidth::W8 => 8,
        BinaryWidth::W16 => 16,
        BinaryWidth::W32 => 32,
        BinaryWidth::W64 => 64,
    };
    let hex = render_fixed(pattern, 16, bits / 4);
    let bin = render_fixed(pattern, 2, bits);
    String::from_str(" = ").concat(hex.as_str()).concat(" ").concat(bin.as_str())
}

/// The fixed-width hex and binary annotation of an integral value under the
/// current configuration; empty when the value does not fit the configured
/// width.
pub fn get_binary_representation(value: i128, modes: &Modes) -> (r: String)
    ensures
        r@ == binrep_spec(value as int, modes.spec_mode(), modes.spec_width()),
{
    let mode = modes.get_binary_mode();
    let width = modes.get_binary_width();
    match (mode, width) {
        (BinaryMode::Signed, BinaryWidth::W8) => {
            if -128 <= value && value <= 127 {
                let pattern: u64 = if value < 0 {
                    (value + 256) as u64
                } else {
                    value as u64
                };
                return render_annotation(pattern, width);
            }
        },
        (BinaryMode::Signed, BinaryWidth::W16) => {
            if -32768 <= value && value <= 32767 {
                let pattern: u64 = if value < 0 {
                    (value + 65536) as u64
                } else {
                    value as u64
                };
                return render_annotation(pattern, width);
            }
        },
        (BinaryMode::Signed, BinaryWidth::W32) => {
            if -2147483648 <= value && value <= 2147483647 {
                let pattern: u64 = if value < 0 {
                    (value + 4294967296) as u64
                } else {
                    value as u64
                };
                return render_annotation(pattern, width);
            }
        },
        (BinaryMode::Signed, BinaryWidth::W64) => {
            if -9223372036854775808 <= value && value <= 9223372036854775807 {
                let pattern: u64 = if value < 0 {
                    (value + 18446744073709551616) as u64
                } else {
                    value as u64
                };
                return render_annotation(pattern, width);
            }
        },
        (BinaryMode::Unsigned, BinaryWidth::W8) => {
            if 0 <= value && value <= 255 {
                return render_annotation(value as u64, width);
            }
        },
        (BinaryMode::Unsigned, BinaryWidth::W16) => {
            if 0 <= value && value <= 65535 {
                return render_annotation(value as u64, width);
            }
        },
        (BinaryMode::Unsigned, BinaryWidth::W32) => {
            if 0 <= value && value <= 4294967295 {
                return render_annotation(value as u64, width);
            }
        },
        (BinaryMode::Unsigned, BinaryWidth::W64) => {
            if 0 <= value && value <= 18446744073709551615 {
                return render_annotation(value as u64, width);
            }
        },
    }
    String::new()
}

} // verus!
