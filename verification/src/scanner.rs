//! Elements that the visual scanner found on screen, and the hint grid that
//! labels them.
use vstd::prelude::*;
use crate::hint::{base_label, label_length, unique_hint_chars, Hint, HintGrid, HintGridView, HintView};

verus! {

#[derive(Debug, Clone)]
pub struct ScannerElement {
    pub id: u32,
    pub element_type: String,
    pub text: String,
    pub monitor_index: u32,
    pub center: [i32; 2],
    pub bbox: [i32; 4],
}

#[derive(Debug, Clone)]
pub struct ScannerOutput {
    pub screen_width: i32,
    pub screen_height: i32,
    pub elements: Vec<ScannerElement>,
}

/// The grid that labels the scanned elements: element `i` gets label number
/// `i` of the fixed-length labels over the key characters and sits at the
/// element's centre on its monitor.
pub open spec fn scan_grid_spec(output: ScannerOutput, hint_chars: Seq<char>) -> HintGridView {
    let chars = unique_hint_chars(hint_chars);
    let n = output.elements@.len();
    let len = label_length(n, chars.len());
    HintGridView {
        hints: Seq::new(
            n,
            |i: int|
                HintView {
                    label: base_label(chars, i as nat, len),
                    x: output.elements@[i].center@[0] as int,
                    y: output.elements@[i].center@[1] as int,
                    width: 40,
                    height: 30,
                    screen: output.elements@[i].monitor_index,
                },
        ),
        width: output.screen_width as int,
        height: output.screen_height as int,
        screen: 0,
        is_element_based: true,
    }
}

impl ScannerOutput {
    /// The element-based hint grid of this scan.  Several elements need at
    /// least two key characters to tell their labels apart.
    pub fn hint_grid(&self, hint_chars: &str) -> (g: HintGrid)
        requires
            self.elements@.len() <= 1 || unique_hint_chars(hint_chars@).len() >= 2,
        ensures
            g@ == scan_grid_spec(*self, hint_chars@),
    {
        let chars = HintGrid::get_unique_chars(hint_chars);
        proof {
            crate::hint::lemma_unique_hint_chars(hint_chars@);
        }
        let labels = HintGrid::generate_labels(self.elements.len(), chars.as_slice());
        let mut grid = HintGrid::new(self.screen_width, self.screen_height, 0);
        grid.is_element_based = true;
        let ghost want = scan_grid_spec(*self, hint_chars@);
        let mut i: usize = 0;
        while i < self.elements.len()
            invariant
                i <= self.elements@.len(),
                chars@ == unique_hint_chars(hint_chars@),
                chars@.len() >= 1,
                self.elements@.len() <= 1 || chars@.len() >= 2,
                labels@.len() == self.elements@.len(),
                forall|k: int|
                    0 <= k < self.elements@.len() ==> (#[trigger] labels@[k])@ == base_label(
                        chars@,
                        k as nat,
                        label_length(self.elements@.len(), chars@.len()),
                    ),
                want == scan_grid_spec(*self, hint_chars@),
                grid@.width == self.screen_width as int,
                grid@.height == self.screen_height as int,
                grid@.screen == 0,
                grid@.is_element_based,
                grid@.hints == want.hints.take(i as int),
            decreases self.elements@.len() - i,
        {
            let elem = &self.elements[i];
            let hint = Hint {
                label: labels[i].clone(),
                x: elem.center[0],
                y: elem.center[1],
                width: 40,
                height: 30,
                screen: elem.monitor_index,
            };
            assert(hint@.label == labels@[i as int]@);
            assert(hint@ == want.hints[i as int]);
            let ghost before = grid@.hints;
            grid.hints.push(hint);
            assert(grid@.hints == before.push(hint@));
            assert(grid@.hints =~= want.hints.take(i + 1));
            i = i + 1;
        }
        assert(want.hints.take(self.elements@.len() as int) =~= want.hints);
        grid
    }
}

} // verus!
