use vstd::prelude::*;

verus! {

/// The number of words in a memory image.
pub const IMAGE_WORDS: usize = 256;

/// The word that fills the image behind the program.
pub const PADDING: u16 = 0x400;

/// The word at index `k` of the image of `words`.
pub open spec fn image_word(words: Seq<u16>, k: int) -> u16 {
    if 0 <= k < words.len() {
        words[k]
    } else {
        0x400
    }
}

/// The image of `words`: 256 words, each as two bytes with the high byte
/// first; the program's words, then the padding word.
pub open spec fn image_bytes(words: Seq<u16>) -> Seq<u8> {
    Seq::new(
        512,
        |j: int|
            if j % 2 == 0 {
                (image_word(words, j / 2) / 256) as u8
            } else {
                (image_word(words, j / 2) % 256) as u8
            },
    )
}

/// Lays a program out as a memory image of exactly 512 bytes, or returns
/// `None` where it has more than 256 words.
pub fn image(words: &Vec<u16>) -> (r: Option<Vec<u8>>)
    ensures
        match r {
            Some(b) => words@.len() <= 256 && b@.len() == 512 && b@ == image_bytes(words@),
            None => words@.len() > 256,
        },
{
    if words.len() > IMAGE_WORDS {
        return None;
    }
    let mut b: Vec<u8> = Vec::new();
    let mut k: usize = 0;
    while k < IMAGE_WORDS
        invariant
            k <= 256,
            b@.len() == 2 * k,
            forall|j: int| 0 <= j < 2 * k ==> b@[j] == #[trigger] image_bytes(words@)[j],
        decreases 256 - k,
    {
        let w: u16 = if k < words.len() { words[k] } else { PADDING };
        b.push((w / 256) as u8);
        b.push((w % 256) as u8);
        k = k + 1;
    }
    assert(b@ =~= image_bytes(words@));
    Some(b)
}

} // verus!
