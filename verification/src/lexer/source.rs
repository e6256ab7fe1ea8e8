//! Source text as code points, each with its byte offset in the UTF-8 input.

use vstd::prelude::*;
use vstd::utf8::*;
use vstd::string::StringSliceAdditionalSpecFns;

verus! {

/// The number of bytes that UTF-8 spends on `c`.
pub open spec fn utf8_width(c: char) -> nat {
    let v = c as u32;
    if v <= 0x7F {
        1
    } else if v <= 0x7FF {
        2
    } else if v <= 0xFFFF {
        3
    } else {
        4
    }
}

/// The number of bytes that UTF-8 spends on the text `s`.
pub open spec fn byte_len(s: Seq<char>) -> nat
    decreases s.len(),
{
    if s.len() == 0 {
        0
    } else {
        byte_len(s.drop_last()) + utf8_width(s.last())
    }
}

/// The byte offset at which the code point of index `i` starts
/// (for `i == s.len()`, the length of the text in bytes).
pub open spec fn byte_offset(s: Seq<char>, i: int) -> nat
    recommends
        0 <= i <= s.len(),
{
    byte_len(s.subrange(0, i))
}

/// One step of `byte_offset`.
pub proof fn lemma_byte_offset_step(s: Seq<char>, i: int)
    requires
        0 <= i < s.len(),
    ensures
        byte_offset(s, i + 1) == byte_offset(s, i) + utf8_width(s[i]),
        byte_offset(s, 0) == 0,
{
    assert(s.subrange(0, i + 1).drop_last() =~= s.subrange(0, i));
    assert(s.subrange(0, 0) =~= Seq::<char>::empty());
}

/// Byte offsets grow with the index, by at least one byte for each code point.
pub proof fn lemma_byte_offset_monotonic(s: Seq<char>, i: int, j: int)
    requires
        0 <= i <= j <= s.len(),
    ensures
        byte_offset(s, i) + (j - i) <= byte_offset(s, j),
    decreases j - i,
{
    if i < j {
        lemma_byte_offset_monotonic(s, i, j - 1);
        lemma_byte_offset_step(s, j - 1);
    }
}

/// The encoding of a text with one more code point is the encoding of the
/// text with the encoding of the code point behind it.
pub proof fn lemma_encode_utf8_push(s: Seq<char>, c: char)
    ensures
        encode_utf8(s.push(c)) == encode_utf8(s) + encode_scalar(c as u32),
    decreases s.len(),
{
    if s.len() == 0 {
        assert(s.push(c).drop_first() =~= Seq::<char>::empty());
        assert(encode_utf8(s.push(c).drop_first()) =~= Seq::<u8>::empty());
        assert(encode_utf8(s) =~= Seq::<u8>::empty());
        assert(encode_utf8(s.push(c)) =~= encode_utf8(s) + encode_scalar(c as u32));
    } else {
        lemma_encode_utf8_push(s.drop_first(), c);
        assert(s.push(c).drop_first() =~= s.drop_first().push(c));
        assert(encode_utf8(s.push(c)) =~= encode_utf8(s) + encode_scalar(c as u32));
    }
}

/// `byte_len` is the length of the UTF-8 encoding.
pub proof fn lemma_byte_len_is_encoded_len(s: Seq<char>)
    ensures
        byte_len(s) == encode_utf8(s).len(),
    decreases s.len(),
{
    if s.len() > 0 {
        lemma_byte_len_is_encoded_len(s.drop_last());
        lemma_encode_utf8_push(s.drop_last(), s.last());
        assert(s.drop_last().push(s.last()) =~= s);
        char_is_scalar(s.last());
    }
}

/// `String::push`: appends one code point to the string.
pub assume_specification[ std::string::String::push ](s: &mut std::string::String, c: char)
    ensures
        final(s)@ == old(s)@.push(c),
;

/// The code points of a text, and for each index its offset in bytes.
pub struct SourceText {
    chars: Vec<char>,
    offsets: Vec<usize>,
}

impl View for SourceText {
    type V = Seq<char>;

    closed spec fn view(&self) -> Seq<char> {
        self.chars@
    }
}

impl SourceText {
    /// The offsets table has one entry for each index, the end included.
    pub closed spec fn wf(&self) -> bool {
        &&& self.offsets.len() == self.chars.len() + 1
        &&& forall|i: int|
            0 <= i <= self.chars.len() ==> #[trigger] self.offsets[i] == byte_offset(self.chars@, i)
    }

    /// Decodes `input`.
    pub fn new(input: &str) -> (r: SourceText)
        ensures
            r.wf(),
            r@ == input@,
            byte_len(input@) == input.spec_bytes().len() <= usize::MAX,
    {
        let byte_count = input.as_bytes().len();
        let mut chars: Vec<char> = Vec::new();
        let mut offsets: Vec<usize> = Vec::new();
        offsets.push(0);
        let mut total: usize = 0;
        proof {
            lemma_byte_len_is_encoded_len(input@);
            assert(byte_count == input.spec_bytes().len());
            assert(input@.subrange(0, 0) =~= Seq::<char>::empty());
            assert(input@.subrange(0, input@.len() as int) =~= input@);
        }
        for c in it: input.chars()
            invariant
                it.seq() == input@,
                chars@ == input@.subrange(0, it.index() as int),
                offsets.len() == chars.len() + 1,
                total == byte_offset(input@, it.index() as int),
                byte_offset(input@, input@.len() as int) <= usize::MAX,
                forall|i: int|
                    0 <= i <= chars.len() ==> #[trigger] offsets[i] == byte_offset(input@, i),
        {
            let v: u32 = c as u32;
            let width: usize = if v <= 0x7F {
                1
            } else if v <= 0x7FF {
                2
            } else if v <= 0xFFFF {
                3
            } else {
                4
            };
            proof {
                let k = it.index() as int;
                lemma_byte_offset_step(input@, k);
                lemma_byte_offset_monotonic(input@, k + 1, input@.len() as int);
                assert(input@.subrange(0, k).push(c) =~= input@.subrange(0, k + 1));
            }
            total = total + width;
            chars.push(c);
            offsets.push(total);
        }
        proof {
            assert(chars@ =~= input@);
        }
        SourceText { chars, offsets }
    }

    /// The number of code points.
    pub fn len(&self) -> (n: usize)
        ensures
            n == self@.len(),
    {
        self.chars.len()
    }

    /// The code points.
    pub fn chars(&self) -> (r: &[char])
        ensures
            r@ == self@,
    {
        self.chars.as_slice()
    }

    /// The code point of index `i`.
    pub fn get(&self, i: usize) -> (c: char)
        requires
            i < self@.len(),
        ensures
            c == self@[i as int],
    {
        self.chars[i]
    }

    /// The byte offset of index `i`.
    pub fn offset(&self, i: usize) -> (b: usize)
        requires
            self.wf(),
            i <= self@.len(),
        ensures
            b == byte_offset(self@, i as int),
    {
        self.offsets[i]
    }

    /// The text from index `from` up to index `to`.
    pub fn text(&self, from: usize, to: usize) -> (t: String)
        requires
            from <= to <= self@.len(),
        ensures
            t@ == self@.subrange(from as int, to as int),
    {
        let mut t = String::new();
        let mut i: usize = from;
        while i < to
            invariant
                from <= i <= to <= self.chars.len(),
                t@ == self.chars@.subrange(from as int, i as int),
            decreases to - i,
        {
            t.push(self.chars[i]);
            proof {
                assert(self.chars@.subrange(from as int, i as int).push(self.chars@[i as int])
                    =~= self.chars@.subrange(from as int, i + 1));
            }
            i += 1;
        }
        t
    }
}

} // verus!
