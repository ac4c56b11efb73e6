//! A whole run, from the spectra of its windows to the cells of its image.
use crate::assemble::assembled;
use crate::assemble::each_cell_once;
use crate::assemble::lemma_each_cell_once_covers;
use crate::assemble::Pixel;
use crate::normalize::Color;
use crate::reduce::color_of;
use vstd::prelude::*;

verus! {

/// The image of a run: the cell of each pixel holds the colour of the
/// spectrum of the pixel's window.
pub open spec fn image_of(spectra: Seq<Seq<u32>>) -> Seq<Color> {
    Seq::new(spectra.len(), |index: int| color_of(spectra[index]))
}

/// Whether each message carries the colour of the spectrum of its window.
pub open spec fn reduced_from(messages: Seq<Pixel>, spectra: Seq<Seq<u32>>) -> bool {
    forall|k: int|
        0 <= k < messages.len() && (#[trigger] messages[k]).index < spectra.len()
            ==> messages[k].color == color_of(spectra[messages[k].index as int])
}

/// A run is repeatable: the spectra of the windows fix the image, in
/// whatever order the workers deliver the pixels.
pub proof fn lemma_spectra_fix_the_image(
    messages: Seq<Pixel>,
    spectra: Seq<Seq<u32>>,
    cells: Seq<Color>,
)
    requires
        each_cell_once(messages, spectra.len() as int),
        reduced_from(messages, spectra),
        assembled(messages, cells),
    ensures
        cells == image_of(spectra),
{
    assert forall|index: int| 0 <= index < cells.len() implies
        cells[index] == image_of(spectra)[index]
    by {
        lemma_each_cell_once_covers(messages, spectra.len() as int, index);
        let k = choose|k: int| 0 <= k < messages.len() && (#[trigger] messages[k]).index == index;
        assert(cells[messages[k].index as int] == messages[k].color);
    }
    assert(cells =~= image_of(spectra));
}

} // verus!
