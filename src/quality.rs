use vstd::prelude::*;

verus! {

/// Largest byte that a quality character may take in the solver's input.
pub const MAX_QUAL_BYTE: u8 = 126;

/// Offset of the PHRED+33 encoding.
pub const PHRED_OFFSET: u32 = 33;

/// The quality byte of a call whose miscall probability has the PHRED value
/// `phred`: `phred + 33`, capped at 126.
pub open spec fn qual_byte_spec(phred: u32) -> u8 {
    if phred as int + PHRED_OFFSET as int > MAX_QUAL_BYTE as int {
        MAX_QUAL_BYTE
    } else {
        (phred + PHRED_OFFSET) as u8
    }
}

/// Encodes a PHRED value as one PHRED+33 character, capped at 126 so that
/// very confident calls stay printable.
pub fn qual_byte(phred: u32) -> (r: u8)
    ensures
        r == qual_byte_spec(phred),
        r <= MAX_QUAL_BYTE,
        phred <= 93 ==> r as int == phred as int + 33,
{
    if phred > (MAX_QUAL_BYTE as u32) - PHRED_OFFSET {
        MAX_QUAL_BYTE
    } else {
        (phred + PHRED_OFFSET) as u8
    }
}

} // verus!
