//! Colours of the frame graph overlay.
use vstd::prelude::*;

verus! {

/// The palette that the frame graph overlay cycles through, one colour per pass group.
pub open spec fn group_palette() -> Seq<Seq<u8>> {
    seq![
        seq![100u8, 180, 100],
        seq![180u8, 100, 180],
        seq![100u8, 140, 180],
        seq![180u8, 160, 100],
        seq![100u8, 180, 180],
        seq![180u8, 120, 120],
    ]
}

/// The RGB colour of the pass group at `index`: the palette repeats every six groups.
pub fn group_color(index: usize) -> (c: [u8; 3])
    ensures
        c@ == group_palette()[(index % 6) as int],
{
    let palette: [[u8; 3]; 6] = [
        [100, 180, 100],
        [180, 100, 180],
        [100, 140, 180],
        [180, 160, 100],
        [100, 180, 180],
        [180, 120, 120],
    ];
    let c = palette[index % 6];
    assert(c@ =~= group_palette()[(index % 6) as int]);
    c
}

} // verus!
