//! Intensities shown as characters.

use vstd::prelude::*;

verus! {

/// Maps an intensity to one of ten characters, from blank to dense.
pub struct AsciiArtConverter {
    ascii_chars: [u8; 10],
}

impl AsciiArtConverter {
    /// The characters, the one for the lowest intensities first.
    pub closed spec fn chars(&self) -> Seq<u8> {
        self.ascii_chars@
    }

    /// The converter with the characters ` .:-=+*#%@`.
    pub fn new() -> (converter: Self)
        ensures
            converter.chars() == seq![32u8, 46u8, 58u8, 45u8, 61u8, 43u8, 42u8, 35u8, 37u8, 64u8],
    {
        let converter = AsciiArtConverter {
            // ' ', '.', ':', '-', '=', '+', '*', '#', '%', '@'
            ascii_chars: [32u8, 46u8, 58u8, 45u8, 61u8, 43u8, 42u8, 35u8, 37u8, 64u8],
        };
        assert(converter.ascii_chars@ =~= seq![
            32u8,
            46u8,
            58u8,
            45u8,
            61u8,
            43u8,
            42u8,
            35u8,
            37u8,
            64u8,
        ]);
        converter
    }

    /// The character for an intensity: each character stands for 25
    /// intensities. The six highest intensities have no character.
    #[inline(always)]
    pub fn convert_u8_to_ascii(&self, value: u8) -> (character: u8)
        requires
            value < 250,
        ensures
            character == self.chars()[value as int / 25],
    {
        let idx: u8 = value / (u8::MAX / 10);
        self.ascii_chars[idx as usize]
    }
}

impl Default for AsciiArtConverter {
    fn default() -> (converter: Self)
        ensures
            converter.chars() == seq![32u8, 46u8, 58u8, 45u8, 61u8, 43u8, 42u8, 35u8, 37u8, 64u8],
    {
        AsciiArtConverter::new()
    }
}

} // verus!
