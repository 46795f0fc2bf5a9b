use crate::errors::Error;
use vstd::prelude::*;
use vstd::string::StringExecFns;

verus! {

/// Whether the binary annotation narrows values as signed or unsigned.
#[derive(Clone, Copy, Debug, PartialEq, Eq)]
pub enum BinaryMode {
    Signed,
    Unsigned,
}

/// The bit width the binary annotation narrows values to.
#[derive(Clone, Copy, Debug, PartialEq, Eq)]
pub enum BinaryWidth {
    W8,
    W16,
    W32,
    W64,
}

/// The rendering configuration read on every draw of the stack: signedness
/// and bit width of the binary annotation.
#[derive(Clone, Copy, Debug, PartialEq, Eq)]
pub struct Modes {
    mode: BinaryMode,
    width: BinaryWidth,
}

pub open spec fn width_chars(w: BinaryWidth) -> Seq<char> {
    match w {
        BinaryWidth::W8 => "8"@,
        BinaryWidth::W16 => "16"@,
        BinaryWidth::W32 => "32"@,
        BinaryWidth::W64 => "64"@,
    }
}

pub open spec fn mode_chars(m: BinaryMode) -> Seq<char> {
    match m {
        BinaryMode::Signed => "Signed"@,
        BinaryMode::Unsigned => "Unsigned"@,
    }
}

/// The status line's description of the current configuration.
pub open spec fn modes_string_spec(w: BinaryWidth, m: BinaryMode) -> Seq<char> {
    width_chars(w) + "bit "@ + mode_chars(m)
}

impl Modes {
    pub closed spec fn spec_mode(&self) -> BinaryMode {
        self.mode
    }

    pub closed spec fn spec_width(&self) -> BinaryWidth {
        self.width
    }

    /// The configuration at process start: unsigned, 32 bits.
    pub fn new() -> (m: Modes)
        ensures
            m.spec_mode() == BinaryMode::Unsigned,
            m.spec_width() == BinaryWidth::W32,
    {
        Modes { mode: BinaryMode::Unsigned, width: BinaryWidth::W32 }
    }

    pub fn get_binary_mode(&self) -> (r: BinaryMode)
        ensures
            r == self.spec_mode(),
    {
        self.mode
    }

    pub fn set_binary_mode_signed(&mut self) -> (r: Result<(), Error>)
        ensures
            r == Ok::<(), Error>(()),
            final(self).spec_mode() == BinaryMode::Signed,
            final(self).spec_width() == old(self).spec_width(),
    {
        self.mode = BinaryMode::Signed;
        Ok(())
    }

    pub fn set_binary_mode_unsigned(&mut self) -> (r: Result<(), Error>)
        ensures
            r == Ok::<(), Error>(()),
            final(self).spec_mode() == BinaryMode::Unsigned,
            final(self).spec_width() == old(self).spec_width(),
    {
        self.mode = BinaryMode::Unsigned;
        Ok(())
    }

    pub fn get_binary_width(&self) -> (r: BinaryWidth)
        ensures
            r == self.spec_width(),
    {
        self.width
    }

    pub fn set_binary_width(&mut self, width: BinaryWidth) -> (r: Result<(), Error>)
        ensures
            r == Ok::<(), Error>(()),
            final(self).spec_width() == width,
            final(self).spec_mode() == old(self).spec_mode(),
    {
        self.width = width;
        Ok(())
    }

    pub fn set_binary_width_8(&mut self) -> (r: Result<(), Error>)
        ensures
            r == Ok::<(), Error>(()),
            final(self).spec_width() == BinaryWidth::W8,
            final(self).spec_mode() == old(self).spec_mode(),
    {
        self.set_binary_width(BinaryWidth::W8)
    }

    pub fn set_binary_width_16(&mut self) -> (r: Result<(), Error>)
        ensures
            r == Ok::<(), Error>(()),
            final(self).spec_width() == BinaryWidth::W16,
            final(self).spec_mode() == old(self).spec_mode(),
    {
        self.set_binary_width(BinaryWidth::W16)
    }

    pub fn set_binary_width_32(&mut self) -> (r: Result<(), Error>)
        ensures
            r == Ok::<(), Error>(()),
            final(self).spec_width() == BinaryWidth::W32,
            final(self).spec_mode() == old(self).spec_mode(),
    {
        self.set_binary_width(BinaryWidth::W32)
    }

    pub fn set_binary_width_64(&mut self) -> (r: Result<(), Error>)
        ensures
            r == Ok::<(), Error>(()),
            final(self).spec_width() == BinaryWidth::W64,
            final(self).spec_mode() == old(self).spec_mode(),
    {
        self.set_binary_width(BinaryWidth::W64)
    }

    /// The status line's description of the current configuration, such as
    /// `32bit Unsigned`.
    pub fn get_modes_string(&self) -> (r: String)
        ensures
            r@ == modes_string_spec(self.spec_width(), self.spec_mode()),
    {
        let widths = match self.width {
            BinaryWidth::W8 => "8",
            BinaryWidth::W16 => "16",
            BinaryWidth::W32 => "32",
            BinaryWidth::W64 => "64",
        };
        let modestr = match self.mode {
            BinaryMode::Signed => "Signed",
            BinaryMode::Unsigned => "Unsigned",
        };
        String::from_str(widths).concat("bit ").concat(modestr)
    }
}

} // verus!
