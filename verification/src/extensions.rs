//! The file extensions that make a listed file a video or an audio file.
use vstd::prelude::*;
use crate::text::chars_eq;

verus! {

/// The extensions of the video files a listing recognises, in the order the listing tries them.
pub open spec fn is_video_extension(e: Seq<char>) -> bool {
    e == seq!['w', 'e', 'b', 'm']
    || e == seq!['m', 'k', 'v']
    || e == seq!['t', 's']
    || e == seq!['f', 'l', 'v']
    || e == seq!['v', 'o', 'b']
    || e == seq!['o', 'g', 'v']
    || e == seq!['o', 'g', 'g']
    || e == seq!['r', 'r', 'c']
    || e == seq!['g', 'i', 'f', 'v']
    || e == seq!['m', 'n', 'g']
    || e == seq!['m', 'o', 'v']
    || e == seq!['a', 'v', 'i']
    || e == seq!['q', 't']
    || e == seq!['w', 'm', 'v']
    || e == seq!['y', 'u', 'v']
    || e == seq!['r', 'm']
    || e == seq!['a', 's', 'f']
    || e == seq!['a', 'm', 'v']
    || e == seq!['m', 'p', '4']
    || e == seq!['m', '4', 'p']
    || e == seq!['m', '4', 'v']
    || e == seq!['m', 'p', 'g']
    || e == seq!['m', 'p', '2']
    || e == seq!['m', 'p', 'e', 'g']
    || e == seq!['m', 'p', 'e']
    || e == seq!['m', 'p', 'v']
    || e == seq!['m', '4', 'v']
    || e == seq!['s', 'v', 'i']
    || e == seq!['3', 'g', 'p']
    || e == seq!['3', 'g', '2']
    || e == seq!['m', 'x', 'f']
    || e == seq!['r', 'o', 'q']
    || e == seq!['n', 's', 'v']
    || e == seq!['f', 'l', 'v']
    || e == seq!['f', '4', 'v']
    || e == seq!['f', '4', 'p']
    || e == seq!['f', '4', 'a']
    || e == seq!['f', '4', 'b']
    || e == seq!['m', 'o', 'd']
}

/// The extensions of the audio files a listing recognises.
pub open spec fn is_audio_extension(e: Seq<char>) -> bool {
    e == seq!['w', 'a', 'v']
    || e == seq!['m', 'p', '3']
    || e == seq!['a', 'i', 'f', 'f']
    || e == seq!['r', 'a', 'w']
    || e == seq!['f', 'l', 'a', 'c']
    || e == seq!['a', 'l', 'a', 'c']
    || e == seq!['a', 'p', 'e']
    || e == seq!['w', 'v']
    || e == seq!['t', 't', 'a']
    || e == seq!['a', 'a', 'c']
    || e == seq!['m', '4', 'a']
    || e == seq!['o', 'g', 'g']
    || e == seq!['o', 'p', 'u', 's']
    || e == seq!['w', 'm', 'a']
    || e == seq!['a', 'u']
    || e == seq!['g', 's', 'm']
    || e == seq!['a', 'm', 'r']
    || e == seq!['r', 'a']
    || e == seq!['m', 'm', 'f']
    || e == seq!['c', 'd', 'a']
}

/// Whether `e` is one of the video extensions.
pub fn is_video_extension_exec(e: &[char]) -> (r: bool)
    ensures
        r == is_video_extension(e@),
{
    proof {
        broadcast use vstd::array::group_array_axioms;
    }
    chars_eq(e, &['w', 'e', 'b', 'm'])
    || chars_eq(e, &['m', 'k', 'v'])
    || chars_eq(e, &['t', 's'])
    || chars_eq(e, &['f', 'l', 'v'])
    || chars_eq(e, &['v', 'o', 'b'])
    || chars_eq(e, &['o', 'g', 'v'])
    || chars_eq(e, &['o', 'g', 'g'])
    || chars_eq(e, &['r', 'r', 'c'])
    || chars_eq(e, &['g', 'i', 'f', 'v'])
    || chars_eq(e, &['m', 'n', 'g'])
    || chars_eq(e, &['m', 'o', 'v'])
    || chars_eq(e, &['a', 'v', 'i'])
    || chars_eq(e, &['q', 't'])
    || chars_eq(e, &['w', 'm', 'v'])
    || chars_eq(e, &['y', 'u', 'v'])
    || chars_eq(e, &['r', 'm'])
    || chars_eq(e, &['a', 's', 'f'])
    || chars_eq(e, &['a', 'm', 'v'])
    || chars_eq(e, &['m', 'p', '4'])
    || chars_eq(e, &['m', '4', 'p'])
    || chars_eq(e, &['m', '4', 'v'])
    || chars_eq(e, &['m', 'p', 'g'])
    || chars_eq(e, &['m', 'p', '2'])
    || chars_eq(e, &['m', 'p', 'e', 'g'])
    || chars_eq(e, &['m', 'p', 'e'])
    || chars_eq(e, &['m', 'p', 'v'])
    || chars_eq(e, &['m', '4', 'v'])
    || chars_eq(e, &['s', 'v', 'i'])
    || chars_eq(e, &['3', 'g', 'p'])
    || chars_eq(e, &['3', 'g', '2'])
    || chars_eq(e, &['m', 'x', 'f'])
    || chars_eq(e, &['r', 'o', 'q'])
    || chars_eq(e, &['n', 's', 'v'])
    || chars_eq(e, &['f', 'l', 'v'])
    || chars_eq(e, &['f', '4', 'v'])
    || chars_eq(e, &['f', '4', 'p'])
    || chars_eq(e, &['f', '4', 'a'])
    || chars_eq(e, &['f', '4', 'b'])
    || chars_eq(e, &['m', 'o', 'd'])
}

/// Whether `e` is one of the audio extensions.
pub fn is_audio_extension_exec(e: &[char]) -> (r: bool)
    ensures
        r == is_audio_extension(e@),
{
    proof {
        broadcast use vstd::array::group_array_axioms;
    }
    chars_eq(e, &['w', 'a', 'v'])
    || chars_eq(e, &['m', 'p', '3'])
    || chars_eq(e, &['a', 'i', 'f', 'f'])
    || chars_eq(e, &['r', 'a', 'w'])
    || chars_eq(e, &['f', 'l', 'a', 'c'])
    || chars_eq(e, &['a', 'l', 'a', 'c'])
    || chars_eq(e, &['a', 'p', 'e'])
    || chars_eq(e, &['w', 'v'])
    || chars_eq(e, &['t', 't', 'a'])
    || chars_eq(e, &['a', 'a', 'c'])
    || chars_eq(e, &['m', '4', 'a'])
    || chars_eq(e, &['o', 'g', 'g'])
    || chars_eq(e, &['o', 'p', 'u', 's'])
    || chars_eq(e, &['w', 'm', 'a'])
    || chars_eq(e, &['a', 'u'])
    || chars_eq(e, &['g', 's', 'm'])
    || chars_eq(e, &['a', 'm', 'r'])
    || chars_eq(e, &['r', 'a'])
    || chars_eq(e, &['m', 'm', 'f'])
    || chars_eq(e, &['c', 'd', 'a'])
}

/// The video extensions, as the listing's table writes them (`webm` to `mod`, with its repeats).
pub open spec fn video_x() -> Seq<Seq<char>> {
    seq![
        seq!['w', 'e', 'b', 'm'],
        seq!['m', 'k', 'v'],
        seq!['t', 's'],
        seq!['f', 'l', 'v'],
        seq!['v', 'o', 'b'],
        seq!['o', 'g', 'v'],
        seq!['o', 'g', 'g'],
        seq!['r', 'r', 'c'],
        seq!['g', 'i', 'f', 'v'],
        seq!['m', 'n', 'g'],
        seq!['m', 'o', 'v'],
        seq!['a', 'v', 'i'],
        seq!['q', 't'],
        seq!['w', 'm', 'v'],
        seq!['y', 'u', 'v'],
        seq!['r', 'm'],
        seq!['a', 's', 'f'],
        seq!['a', 'm', 'v'],
        seq!['m', 'p', '4'],
        seq!['m', '4', 'p'],
        seq!['m', '4', 'v'],
        seq!['m', 'p', 'g'],
        seq!['m', 'p', '2'],
        seq!['m', 'p', 'e', 'g'],
        seq!['m', 'p', 'e'],
        seq!['m', 'p', 'v'],
        seq!['m', '4', 'v'],
        seq!['s', 'v', 'i'],
        seq!['3', 'g', 'p'],
        seq!['3', 'g', '2'],
        seq!['m', 'x', 'f'],
        seq!['r', 'o', 'q'],
        seq!['n', 's', 'v'],
        seq!['f', 'l', 'v'],
        seq!['f', '4', 'v'],
        seq!['f', '4', 'p'],
        seq!['f', '4', 'a'],
        seq!['f', '4', 'b'],
        seq!['m', 'o', 'd'],
    ]
}

/// The audio extensions, as the listing's table writes them (`wav` to `cda`).
pub open spec fn audio_x() -> Seq<Seq<char>> {
    seq![
        seq!['w', 'a', 'v'],
        seq!['m', 'p', '3'],
        seq!['a', 'i', 'f', 'f'],
        seq!['r', 'a', 'w'],
        seq!['f', 'l', 'a', 'c'],
        seq!['a', 'l', 'a', 'c'],
        seq!['a', 'p', 'e'],
        seq!['w', 'v'],
        seq!['t', 't', 'a'],
        seq!['a', 'a', 'c'],
        seq!['m', '4', 'a'],
        seq!['o', 'g', 'g'],
        seq!['o', 'p', 'u', 's'],
        seq!['w', 'm', 'a'],
        seq!['a', 'u'],
        seq!['g', 's', 'm'],
        seq!['a', 'm', 'r'],
        seq!['r', 'a'],
        seq!['m', 'm', 'f'],
        seq!['c', 'd', 'a'],
    ]
}

/// An extension is a video extension exactly when the video table holds it.
pub proof fn lemma_video_extensions_are_the_table(e: Seq<char>)
    ensures
        is_video_extension(e) <==> video_x().contains(e),
{
    let l = video_x();
    assert(l.len() == 39);
    assert(l[0] == seq!['w', 'e', 'b', 'm']);
    assert(l[1] == seq!['m', 'k', 'v']);
    assert(l[2] == seq!['t', 's']);
    assert(l[3] == seq!['f', 'l', 'v']);
    assert(l[4] == seq!['v', 'o', 'b']);
    assert(l[5] == seq!['o', 'g', 'v']);
    assert(l[6] == seq!['o', 'g', 'g']);
    assert(l[7] == seq!['r', 'r', 'c']);
    assert(l[8] == seq!['g', 'i', 'f', 'v']);
    assert(l[9] == seq!['m', 'n', 'g']);
    assert(l[10] == seq!['m', 'o', 'v']);
    assert(l[11] == seq!['a', 'v', 'i']);
    assert(l[12] == seq!['q', 't']);
    assert(l[13] == seq!['w', 'm', 'v']);
    assert(l[14] == seq!['y', 'u', 'v']);
    assert(l[15] == seq!['r', 'm']);
    assert(l[16] == seq!['a', 's', 'f']);
    assert(l[17] == seq!['a', 'm', 'v']);
    assert(l[18] == seq!['m', 'p', '4']);
    assert(l[19] == seq!['m', '4', 'p']);
    assert(l[20] == seq!['m', '4', 'v']);
    assert(l[21] == seq!['m', 'p', 'g']);
    assert(l[22] == seq!['m', 'p', '2']);
    assert(l[23] == seq!['m', 'p', 'e', 'g']);
    assert(l[24] == seq!['m', 'p', 'e']);
    assert(l[25] == seq!['m', 'p', 'v']);
    assert(l[26] == seq!['m', '4', 'v']);
    assert(l[27] == seq!['s', 'v', 'i']);
    assert(l[28] == seq!['3', 'g', 'p']);
    assert(l[29] == seq!['3', 'g', '2']);
    assert(l[30] == seq!['m', 'x', 'f']);
    assert(l[31] == seq!['r', 'o', 'q']);
    assert(l[32] == seq!['n', 's', 'v']);
    assert(l[33] == seq!['f', 'l', 'v']);
    assert(l[34] == seq!['f', '4', 'v']);
    assert(l[35] == seq!['f', '4', 'p']);
    assert(l[36] == seq!['f', '4', 'a']);
    assert(l[37] == seq!['f', '4', 'b']);
    assert(l[38] == seq!['m', 'o', 'd']);
    if is_video_extension(e) {
        if e == seq!['w', 'e', 'b', 'm'] {
            assert(l[0] == e);
        } else if e == seq!['m', 'k', 'v'] {
            assert(l[1] == e);
        } else if e == seq!['t', 's'] {
            assert(l[2] == e);
        } else if e == seq!['f', 'l', 'v'] {
            assert(l[3] == e);
        } else if e == seq!['v', 'o', 'b'] {
            assert(l[4] == e);
        } else if e == seq!['o', 'g', 'v'] {
            assert(l[5] == e);
        } else if e == seq!['o', 'g', 'g'] {
            assert(l[6] == e);
        } else if e == seq!['r', 'r', 'c'] {
            assert(l[7] == e);
        } else if e == seq!['g', 'i', 'f', 'v'] {
            assert(l[8] == e);
        } else if e == seq!['m', 'n', 'g'] {
            assert(l[9] == e);
        } else if e == seq!['m', 'o', 'v'] {
            assert(l[10] == e);
        } else if e == seq!['a', 'v', 'i'] {
            assert(l[11] == e);
        } else if e == seq!['q', 't'] {
            assert(l[12] == e);
        } else if e == seq!['w', 'm', 'v'] {
            assert(l[13] == e);
        } else if e == seq!['y', 'u', 'v'] {
            assert(l[14] == e);
        } else if e == seq!['r', 'm'] {
            assert(l[15] == e);
        } else if e == seq!['a', 's', 'f'] {
            assert(l[16] == e);
        } else if e == seq!['a', 'm', 'v'] {
            assert(l[17] == e);
        } else if e == seq!['m', 'p', '4'] {
            assert(l[18] == e);
        } else if e == seq!['m', '4', 'p'] {
            assert(l[19] == e);
        } else if e == seq!['m', '4', 'v'] {
            assert(l[20] == e);
        } else if e == seq!['m', 'p', 'g'] {
            assert(l[21] == e);
        } else if e == seq!['m', 'p', '2'] {
            assert(l[22] == e);
        } else if e == seq!['m', 'p', 'e', 'g'] {
            assert(l[23] == e);
        } else if e == seq!['m', 'p', 'e'] {
            assert(l[24] == e);
        } else if e == seq!['m', 'p', 'v'] {
            assert(l[25] == e);
        } else if e == seq!['s', 'v', 'i'] {
            assert(l[27] == e);
        } else if e == seq!['3', 'g', 'p'] {
            assert(l[28] == e);
        } else if e == seq!['3', 'g', '2'] {
            assert(l[29] == e);
        } else if e == seq!['m', 'x', 'f'] {
            assert(l[30] == e);
        } else if e == seq!['r', 'o', 'q'] {
            assert(l[31] == e);
        } else if e == seq!['n', 's', 'v'] {
            assert(l[32] == e);
        } else if e == seq!['f', '4', 'v'] {
            assert(l[34] == e);
        } else if e == seq!['f', '4', 'p'] {
            assert(l[35] == e);
        } else if e == seq!['f', '4', 'a'] {
            assert(l[36] == e);
        } else if e == seq!['f', '4', 'b'] {
            assert(l[37] == e);
        } else if e == seq!['m', 'o', 'd'] {
            assert(l[38] == e);
        }
    }
    if l.contains(e) {
        let i = choose|i: int| 0 <= i < l.len() && l[i] == e;
        if i == 0 {
            assert(l[0] == seq!['w', 'e', 'b', 'm']);
        } else if i == 1 {
            assert(l[1] == seq!['m', 'k', 'v']);
        } else if i == 2 {
            assert(l[2] == seq!['t', 's']);
        } else if i == 3 {
            assert(l[3] == seq!['f', 'l', 'v']);
        } else if i == 4 {
            assert(l[4] == seq!['v', 'o', 'b']);
        } else if i == 5 {
            assert(l[5] == seq!['o', 'g', 'v']);
        } else if i == 6 {
            assert(l[6] == seq!['o', 'g', 'g']);
        } else if i == 7 {
            assert(l[7] == seq!['r', 'r', 'c']);
        } else if i == 8 {
            assert(l[8] == seq!['g', 'i', 'f', 'v']);
        } else if i == 9 {
            assert(l[9] == seq!['m', 'n', 'g']);
        } else if i == 10 {
            assert(l[10] == seq!['m', 'o', 'v']);
        } else if i == 11 {
            assert(l[11] == seq!['a', 'v', 'i']);
        } else if i == 12 {
            assert(l[12] == seq!['q', 't']);
        } else if i == 13 {
            assert(l[13] == seq!['w', 'm', 'v']);
        } else if i == 14 {
            assert(l[14] == seq!['y', 'u', 'v']);
        } else if i == 15 {
            assert(l[15] == seq!['r', 'm']);
        } else if i == 16 {
            assert(l[16] == seq!['a', 's', 'f']);
        } else if i == 17 {
            assert(l[17] == seq!['a', 'm', 'v']);
        } else if i == 18 {
            assert(l[18] == seq!['m', 'p', '4']);
        } else if i == 19 {
            assert(l[19] == seq!['m', '4', 'p']);
        } else if i == 20 {
            assert(l[20] == seq!['m', '4', 'v']);
        } else if i == 21 {
            assert(l[21] == seq!['m', 'p', 'g']);
        } else if i == 22 {
            assert(l[22] == seq!['m', 'p', '2']);
        } else if i == 23 {
            assert(l[23] == seq!['m', 'p', 'e', 'g']);
        } else if i == 24 {
            assert(l[24] == seq!['m', 'p', 'e']);
        } else if i == 25 {
            assert(l[25] == seq!['m', 'p', 'v']);
        } else if i == 26 {
            assert(l[26] == seq!['m', '4', 'v']);
        } else if i == 27 {
            assert(l[27] == seq!['s', 'v', 'i']);
        } else if i == 28 {
            assert(l[28] == seq!['3', 'g', 'p']);
        } else if i == 29 {
            assert(l[29] == seq!['3', 'g', '2']);
        } else if i == 30 {
            assert(l[30] == seq!['m', 'x', 'f']);
        } else if i == 31 {
            assert(l[31] == seq!['r', 'o', 'q']);
        } else if i == 32 {
            assert(l[32] == seq!['n', 's', 'v']);
        } else if i == 33 {
            assert(l[33] == seq!['f', 'l', 'v']);
        } else if i == 34 {
            assert(l[34] == seq!['f', '4', 'v']);
        } else if i == 35 {
            assert(l[35] == seq!['f', '4', 'p']);
        } else if i == 36 {
            assert(l[36] == seq!['f', '4', 'a']);
        } else if i == 37 {
            assert(l[37] == seq!['f', '4', 'b']);
        } else if i == 38 {
            assert(l[38] == seq!['m', 'o', 'd']);
        } else {
            assert(false);
        }
    }
}

/// An extension is an audio extension exactly when the audio table holds it.
pub proof fn lemma_audio_extensions_are_the_table(e: Seq<char>)
    ensures
        is_audio_extension(e) <==> audio_x().contains(e),
{
    let l = audio_x();
    assert(l.len() == 20);
    assert(l[0] == seq!['w', 'a', 'v']);
    assert(l[1] == seq!['m', 'p', '3']);
    assert(l[2] == seq!['a', 'i', 'f', 'f']);
    assert(l[3] == seq!['r', 'a', 'w']);
    assert(l[4] == seq!['f', 'l', 'a', 'c']);
    assert(l[5] == seq!['a', 'l', 'a', 'c']);
    assert(l[6] == seq!['a', 'p', 'e']);
    assert(l[7] == seq!['w', 'v']);
    assert(l[8] == seq!['t', 't', 'a']);
    assert(l[9] == seq!['a', 'a', 'c']);
    assert(l[10] == seq!['m', '4', 'a']);
    assert(l[11] == seq!['o', 'g', 'g']);
    assert(l[12] == seq!['o', 'p', 'u', 's']);
    assert(l[13] == seq!['w', 'm', 'a']);
    assert(l[14] == seq!['a', 'u']);
    assert(l[15] == seq!['g', 's', 'm']);
    assert(l[16] == seq!['a', 'm', 'r']);
    assert(l[17] == seq!['r', 'a']);
    assert(l[18] == seq!['m', 'm', 'f']);
    assert(l[19] == seq!['c', 'd', 'a']);
    if is_audio_extension(e) {
        if e == seq!['w', 'a', 'v'] {
            assert(l[0] == e);
        } else if e == seq!['m', 'p', '3'] {
            assert(l[1] == e);
        } else if e == seq!['a', 'i', 'f', 'f'] {
            assert(l[2] == e);
        } else if e == seq!['r', 'a', 'w'] {
            assert(l[3] == e);
        } else if e == seq!['f', 'l', 'a', 'c'] {
            assert(l[4] == e);
        } else if e == seq!['a', 'l', 'a', 'c'] {
            assert(l[5] == e);
        } else if e == seq!['a', 'p', 'e'] {
            assert(l[6] == e);
        } else if e == seq!['w', 'v'] {
            assert(l[7] == e);
        } else if e == seq!['t', 't', 'a'] {
            assert(l[8] == e);
        } else if e == seq!['a', 'a', 'c'] {
            assert(l[9] == e);
        } else if e == seq!['m', '4', 'a'] {
            assert(l[10] == e);
        } else if e == seq!['o', 'g', 'g'] {
            assert(l[11] == e);
        } else if e == seq!['o', 'p', 'u', 's'] {
            assert(l[12] == e);
        } else if e == seq!['w', 'm', 'a'] {
            assert(l[13] == e);
        } else if e == seq!['a', 'u'] {
            assert(l[14] == e);
        } else if e == seq!['g', 's', 'm'] {
            assert(l[15] == e);
        } else if e == seq!['a', 'm', 'r'] {
            assert(l[16] == e);
        } else if e == seq!['r', 'a'] {
            assert(l[17] == e);
        } else if e == seq!['m', 'm', 'f'] {
            assert(l[18] == e);
        } else if e == seq!['c', 'd', 'a'] {
            assert(l[19] == e);
        }
    }
    if l.contains(e) {
        let i = choose|i: int| 0 <= i < l.len() && l[i] == e;
        if i == 0 {
            assert(l[0] == seq!['w', 'a', 'v']);
        } else if i == 1 {
            assert(l[1] == seq!['m', 'p', '3']);
        } else if i == 2 {
            assert(l[2] == seq!['a', 'i', 'f', 'f']);
        } else if i == 3 {
            assert(l[3] == seq!['r', 'a', 'w']);
        } else if i == 4 {
            assert(l[4] == seq!['f', 'l', 'a', 'c']);
        } else if i == 5 {
            assert(l[5] == seq!['a', 'l', 'a', 'c']);
        } else if i == 6 {
            assert(l[6] == seq!['a', 'p', 'e']);
        } else if i == 7 {
            assert(l[7] == seq!['w', 'v']);
        } else if i == 8 {
            assert(l[8] == seq!['t', 't', 'a']);
        } else if i == 9 {
            assert(l[9] == seq!['a', 'a', 'c']);
        } else if i == 10 {
            assert(l[10] == seq!['m', '4', 'a']);
        } else if i == 11 {
            assert(l[11] == seq!['o', 'g', 'g']);
        } else if i == 12 {
            assert(l[12] == seq!['o', 'p', 'u', 's']);
        } else if i == 13 {
            assert(l[13] == seq!['w', 'm', 'a']);
        } else if i == 14 {
            assert(l[14] == seq!['a', 'u']);
        } else if i == 15 {
            assert(l[15] == seq!['g', 's', 'm']);
        } else if i == 16 {
            assert(l[16] == seq!['a', 'm', 'r']);
        } else if i == 17 {
            assert(l[17] == seq!['r', 'a']);
        } else if i == 18 {
            assert(l[18] == seq!['m', 'm', 'f']);
        } else if i == 19 {
            assert(l[19] == seq!['c', 'd', 'a']);
        } else {
            assert(false);
        }
    }
}

} // verus!
