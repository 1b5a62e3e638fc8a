//! Rendering of raw bytes for diagnostics.
use vstd::prelude::*;

verus! {

/// The sixteen hexadecimal digits, upper case.
pub open spec fn hex_digits() -> Seq<char> {
    seq!['0', '1', '2', '3', '4', '5', '6', '7', '8', '9', 'A', 'B', 'C', 'D', 'E', 'F']
}

/// A byte as two upper-case hexadecimal digits.
pub open spec fn hex_pair(b: u8) -> Seq<char> {
    seq![hex_digits()[(b / 16) as int], hex_digits()[(b % 16) as int]]
}

/// Each byte as two upper-case hexadecimal digits, separated by single spaces.
pub open spec fn hex_spec(data: Seq<u8>) -> Seq<char>
    decreases data.len(),
{
    if data.len() == 0 {
        seq![]
    } else if data.len() == 1 {
        hex_pair(data[0])
    } else {
        hex_spec(data.drop_last()) + seq![' '] + hex_pair(data.last())
    }
}

/// Each byte of `data` as two upper-case hexadecimal digits, separated by
/// single spaces: `[0x0a, 0xff]` gives `"0A FF"`.
pub fn data_to_hex(data: &[u8]) -> (r: String)
    ensures
        r@ == hex_spec(data@),
{
    let digits = ['0', '1', '2', '3', '4', '5', '6', '7', '8', '9', 'A', 'B', 'C', 'D', 'E', 'F'];
    assert(digits@ == hex_digits());
    let mut hex: Vec<char> = Vec::new();
    let mut i: usize = 0;
    while i < data.len()
        invariant
            digits@ == hex_digits(),
            i <= data@.len(),
            hex@ == hex_spec(data@.take(i as int)),
        decreases data@.len() - i,
    {
        let b = data[i];
        assert(data@.take(i + 1).drop_last() =~= data@.take(i as int));
        if i > 0 {
            hex.push(' ');
        }
        hex.push(digits[(b / 16) as usize]);
        hex.push(digits[(b % 16) as usize]);
        proof {
            if i == 0 {
                assert(hex@ =~= hex_spec(data@.take(1)));
            } else {
                assert(hex@ =~= hex_spec(data@.take(i + 1)));
            }
        }
        i = i + 1;
    }
    assert(data@.take(i as int) =~= data@);
    crate::text::string_of(&hex)
}

} // verus!
