use vstd::prelude::*;
use vstd::string::*;
use vstd::utf8::*;

verus! {

/// The byte that encodes a space in UTF-8.
pub const SPACE: u8 = 0x20;

/// Length of a text in bytes: the size of its UTF-8 encoding.
pub open spec fn byte_len(text: Seq<char>) -> nat {
    encode_utf8(text).len()
}

/// Each character takes one to four bytes, so a text of `n` characters
/// measures between `n` and `4 * n` bytes.
pub proof fn lemma_byte_len_bounds(text: Seq<char>)
    ensures
        text.len() <= byte_len(text) <= 4 * text.len(),
    decreases text.len(),
{
    if text.len() > 0 {
        let rest = text.drop_first();
        assert(byte_len(text) == encode_scalar(text[0] as u32).len() + byte_len(rest));
        lemma_byte_len_bounds(rest);
    }
}

/// Returns a freshly built owned text value; the caller becomes its owner.
pub fn give_ownership() -> (r: String)
    ensures
        r@ == "Oh hello there"@,
{
    let text: String = "Oh hello there".to_owned();
    text
}

/// `word` is the first word of `text`: the longest prefix of `text` that
/// holds no space, which ends either at the first space or at the end of
/// `text`.
pub open spec fn is_first_word(text: Seq<char>, word: Seq<char>) -> bool {
    &&& word.len() <= text.len()
    &&& word == text.take(word.len() as int)
    &&& forall|j: int| 0 <= j < word.len() ==> word[j] != ' '
    &&& (word.len() == text.len() || text[word.len() as int] == ' ')
}

/// The UTF-8 encoding of a space is the single byte 0x20.
proof fn lemma_encode_space()
    ensures
        encode_scalar(' ' as u32) == seq![0x20u8],
{
    assert((0x20u32 & 0x7Fu32) as u8 == 0x20u8) by (bit_vector);
}

/// A byte 0x20 that starts a valid UTF-8 sequence decodes to a space.
proof fn lemma_decode_space(bytes: Seq<u8>)
    requires
        valid_utf8(bytes),
        bytes.len() > 0,
        bytes[0] == 0x20,
    ensures
        decode_utf8(bytes).len() > 0,
        decode_utf8(bytes)[0] == ' ',
{
    assert((0x20u8 & 0x7Fu8) as u32 == 0x20u32) by (bit_vector);
    assert(decode_first_scalar(bytes) == 0x20u32);
    assert(0x20u32 as char == ' ');
}

/// Text whose UTF-8 encoding holds no byte 0x20 holds no space.
proof fn lemma_no_space_byte(text: Seq<char>)
    requires
        forall|j: int| 0 <= j < encode_utf8(text).len() ==> encode_utf8(text)[j] != 0x20,
    ensures
        forall|k: int| 0 <= k < text.len() ==> text[k] != ' ',
    decreases text.len(),
{
    if text.len() > 0 {
        let head = encode_scalar(text[0] as u32);
        let rest = text.drop_first();
        assert(encode_utf8(text) == head + encode_utf8(rest));
        if text[0] == ' ' {
            lemma_encode_space();
            assert(encode_utf8(text)[0] == 0x20);
        }
        assert forall|j: int| 0 <= j < encode_utf8(rest).len() implies encode_utf8(rest)[j]
            != 0x20 by {
            assert(encode_utf8(text)[head.len() + j] == encode_utf8(rest)[j]);
        }
        lemma_no_space_byte(rest);
        assert forall|k: int| 0 <= k < text.len() implies text[k] != ' ' by {
            if k > 0 {
                assert(text[k] == rest[k - 1]);
            }
        }
    }
}

/// Returns the first word of `s`: its text up to the first space, or all of
/// it when it holds no space. The result borrows from `s`.
pub fn first_word(s: &String) -> (r: &str)
    ensures
        is_first_word(s@, r@),
{
    let text: &str = s.as_str();
    let bytes: &[u8] = text.as_bytes();
    let ghost all = bytes@;
    let mut i: usize = 0;
    while i < bytes.len()
        invariant
            all == bytes@,
            all == text.spec_bytes(),
            text@ == s@,
            all == encode_utf8(s@),
            i <= all.len(),
            forall|j: int| 0 <= j < i ==> all[j] != SPACE,
        decreases bytes@.len() - i,
    {
        if bytes[i] == SPACE {
            proof {
                encode_utf8_valid_utf8(s@);
                is_char_boundary_iff_not_is_continuation_byte(all, i as int);
            }
            let (word, _) = text.split_at(i);
            proof {
                let pre = all.subrange(0, i as int);
                let post = all.subrange(i as int, all.len() as int);
                assert(word.spec_bytes() == pre);
                valid_utf8_split(all, i as int);
                decode_utf8_split(all, i as int);
                encode_utf8_decode_utf8(word@);
                encode_utf8_decode_utf8(s@);
                assert(decode_utf8(pre) == word@);
                assert(decode_utf8(all) == s@);
                lemma_decode_space(post);
                assert(s@ == word@ + decode_utf8(post));
                assert(word@ == s@.take(word@.len() as int));
                assert(s@[word@.len() as int] == decode_utf8(post)[0]);
                lemma_no_space_byte(word@);
            }
            return word;
        }
        i = i + 1;
    }
    proof {
        lemma_no_space_byte(s@);
        assert(s@ == s@.take(s@.len() as int));
    }
    text
}

/// Takes ownership of `s`, measures it, and hands it back unchanged together
/// with its length in bytes.
pub fn calc_len(s: String) -> (r: (u32, String))
    requires
        byte_len(s@) <= u32::MAX,
    ensures
        r.0 == byte_len(s@),
        r.1 == s,
{
    let len: usize = s.as_str().len();
    (len as u32, s)
}

/// Measures `s` through a shared borrow, in bytes; the caller keeps `s`.
pub fn calculate_length(s: &String) -> (r: u32)
    requires
        byte_len(s@) <= u32::MAX,
    ensures
        r == byte_len(s@),
{
    let len: usize = s.as_str().len();
    len as u32
}

} // verus!
