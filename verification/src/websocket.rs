//! Websocket message decompression.
//!
//! A message is a sequence of codes, one per character.  A code below 256 is a
//! literal character; a code from 256 on refers to an earlier part of the
//! message.

use vstd::prelude::*;
use vstd::slice::*;

use crate::text;

verus! {

/// The text that code `i` of a message stands for.
///
/// The reference `256 + k` stands for the text of code `k` followed by the
/// first character of the text of code `k + 1`, once both are known; any other
/// reference stands for the text of the code before it, followed by the first
/// character of that text.
pub open spec fn expansion(codes: Seq<char>, i: int) -> Seq<char>
    decreases i,
{
    if i <= 0 {
        seq![codes[0]]
    } else {
        let a = codes[i] as u32 as int;
        if a < 256 {
            seq![codes[i]]
        } else if a - 256 <= i - 2 {
            expansion(codes, a - 256).push(expansion(codes, a - 255)[0])
        } else {
            expansion(codes, i - 1).push(expansion(codes, i - 1)[0])
        }
    }
}

/// The text of the first `n` codes.
pub open spec fn expanded(codes: Seq<char>, n: int) -> Seq<char>
    decreases n,
{
    if n <= 0 {
        Seq::empty()
    } else {
        expanded(codes, n - 1) + expansion(codes, n - 1)
    }
}

/// The text of a message.
pub open spec fn decoded(codes: Seq<char>) -> Seq<char> {
    expanded(codes, codes.len() as int)
}

proof fn lemma_expansion_is_not_empty(codes: Seq<char>, i: int)
    ensures
        expansion(codes, i).len() > 0,
{
}

/// Decompress a message.
pub fn decode(data: &str) -> (r: String)
    ensures
        r@ == decoded(data@),
{
    let codes = text::chars_of(data);
    let mut out = String::new();
    if codes.len() == 0 {
        assert(out@ =~= decoded(data@));
        return out;
    }
    let mut table: Vec<Vec<char>> = Vec::new();
    let mut last: Vec<char> = Vec::new();
    last.push(codes[0]);
    out.push(codes[0]);
    assert(last@ =~= expansion(data@, 0));
    assert(expanded(data@, 0) =~= Seq::<char>::empty());
    assert(out@ =~= expanded(data@, 1));
    let mut i: usize = 1;
    while i < codes.len()
        invariant
            1 <= i <= codes@.len(),
            codes@ == data@,
            last@ == expansion(data@, i - 1),
            out@ == expanded(data@, i as int),
            table@.len() == i - 1,
            forall|k: int|
                0 <= k < table@.len() ==> (#[trigger] table@[k])@ == expansion(data@, k).push(
                    expansion(data@, k + 1)[0],
                ),
        decreases codes@.len() - i,
    {
        let code: u32 = codes[i] as u32;
        let mut value: Vec<char> = Vec::new();
        proof {
            lemma_expansion_is_not_empty(data@, i - 1);
        }
        if code < 256 {
            value.push(codes[i]);
        } else {
            let k: u32 = code - 256;
            if (k as u64) < (table.len() as u64) {
                value = slice_to_vec(table[k as usize].as_slice());
            } else {
                value = slice_to_vec(last.as_slice());
                value.push(last[0]);
            }
        }
        assert(value@ =~= expansion(data@, i as int));
        proof {
            lemma_expansion_is_not_empty(data@, i as int);
        }
        let shown = text::text_of(value.as_slice());
        out.append(shown.as_str());
        last.push(value[0]);
        table.push(last);
        last = value;
        i = i + 1;
    }
    out
}

/// A message of literal characters only is its own text.
pub proof fn literal_messages_are_unchanged(codes: Seq<char>, n: int)
    requires
        0 <= n <= codes.len(),
        forall|i: int| 0 <= i < codes.len() ==> (#[trigger] codes[i]) as u32 <= 255,
    ensures
        expanded(codes, n) == codes.take(n),
    decreases n,
{
    if n > 0 {
        literal_messages_are_unchanged(codes, n - 1);
        assert(codes[n - 1] as u32 <= 255);
        assert(expansion(codes, n - 1) =~= seq![codes[n - 1]]);
        assert(codes.take(n) =~= codes.take(n - 1) + seq![codes[n - 1]]);
    } else {
        assert(codes.take(0) =~= Seq::<char>::empty());
    }
}

/// The first `n` phrases, one after the other.
pub open spec fn concatenated(phrases: Seq<Seq<char>>, n: int) -> Seq<char>
    decreases n,
{
    if n <= 0 {
        Seq::empty()
    } else {
        concatenated(phrases, n - 1) + phrases[n - 1]
    }
}

/// Whether a message is the compressed form of phrases: a code is a character
/// of its own, or counts from 256 on the phrases before it, each of them longer
/// by the first character of the phrase that follows it.
pub open spec fn compresses(codes: Seq<char>, phrases: Seq<Seq<char>>) -> bool {
    &&& codes.len() == phrases.len()
    &&& forall|i: int| 0 <= i < phrases.len() ==> (#[trigger] phrases[i]).len() > 0
    &&& codes.len() > 0 ==> phrases[0] == seq![codes[0]]
    &&& forall|i: int|
        0 < i < codes.len() ==> {
            let code = (#[trigger] codes[i]) as u32 as int;
            if code < 256 {
                phrases[i] == seq![codes[i]]
            } else {
                &&& code - 256 < i
                &&& phrases[i] == phrases[code - 256].push(phrases[code - 255][0])
            }
        }
}

/// A compressed message reads back as the text that was compressed.
pub proof fn compressed_messages_read_back(codes: Seq<char>, phrases: Seq<Seq<char>>)
    requires
        compresses(codes, phrases),
    ensures
        decoded(codes) == concatenated(phrases, phrases.len() as int),
{
    lemma_message(codes, phrases, codes.len() as int);
}

proof fn lemma_message(codes: Seq<char>, phrases: Seq<Seq<char>>, n: int)
    requires
        compresses(codes, phrases),
        0 <= n <= codes.len(),
    ensures
        expanded(codes, n) == concatenated(phrases, n),
    decreases n,
{
    if n > 0 {
        lemma_message(codes, phrases, n - 1);
        lemma_phrase(codes, phrases, n - 1);
    }
}

proof fn lemma_phrase(codes: Seq<char>, phrases: Seq<Seq<char>>, i: int)
    requires
        compresses(codes, phrases),
        0 <= i < codes.len(),
    ensures
        expansion(codes, i) == phrases[i],
    decreases i,
{
    if i > 0 {
        let code = codes[i] as u32 as int;
        if code >= 256 {
            let k = code - 256;
            lemma_phrase(codes, phrases, k);
            if k + 1 < i {
                lemma_phrase(codes, phrases, k + 1);
            } else {
                assert(phrases[k].len() > 0);
                assert(phrases[i][0] == phrases[k][0]);
            }
        }
    }
}

} // verus!
