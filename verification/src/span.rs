use vstd::prelude::*;
use vstd::string::StringSliceAdditionalSpecFns;

verus! {

broadcast use {
    vstd::utf8::encode_utf8_valid_utf8,
    vstd::utf8::is_char_boundary_start_end_of_seq,
    vstd::utf8::is_char_boundary_iff_not_is_continuation_byte,
    vstd::utf8::valid_utf8_split,
};

/// A half-open range `[start, end)` of positions in a source text.
#[derive(Debug, Clone, Copy, PartialEq, Eq, Structural)]
pub struct Span {
    pub start: usize,
    pub end: usize,
}

/// Splitting valid UTF-8 at a boundary `i` keeps every later boundary `j`
/// a boundary of the tail, shifted by `i`.
pub proof fn lemma_boundary_in_tail(bytes: Seq<u8>, i: int, j: int)
    requires
        vstd::utf8::valid_utf8(bytes),
        0 <= i <= j <= bytes.len(),
        vstd::utf8::is_char_boundary(bytes, i),
        vstd::utf8::is_char_boundary(bytes, j),
    ensures
        vstd::utf8::valid_utf8(bytes.subrange(i, bytes.len() as int)),
        vstd::utf8::is_char_boundary(bytes.subrange(i, bytes.len() as int), j - i),
{
    let tail = bytes.subrange(i, bytes.len() as int);
    assert(vstd::utf8::valid_utf8(tail));
    if j < bytes.len() {
        assert(tail[j - i] == bytes[j]);
        assert(vstd::utf8::is_char_boundary(tail, j - i) <==> !vstd::utf8::is_continuation_byte(
            tail[j - i],
        ));
        assert(vstd::utf8::is_char_boundary(bytes, j) <==> !vstd::utf8::is_continuation_byte(
            bytes[j],
        ));
    } else {
        assert(vstd::utf8::is_char_boundary(tail, tail.len() as int));
    }
}

/// A character boundary of valid UTF-8 lies within the bytes.
pub proof fn lemma_boundary_within(bytes: Seq<u8>, i: int)
    requires
        vstd::utf8::valid_utf8(bytes),
        vstd::utf8::is_char_boundary(bytes, i),
    ensures
        0 <= i <= bytes.len(),
{
}

/// In an ASCII text, byte offsets are character positions: every position up to the
/// end is a character boundary, and the bytes between two positions encode exactly the
/// characters between them.
pub proof fn lemma_ascii_offsets(s: Seq<char>, a: int, b: int)
    requires
        vstd::utf8::is_ascii_chars(s),
        0 <= a <= b <= s.len(),
    ensures
        vstd::utf8::encode_utf8(s).len() == s.len(),
        vstd::utf8::is_char_boundary(vstd::utf8::encode_utf8(s), a),
        vstd::utf8::is_char_boundary(vstd::utf8::encode_utf8(s), b),
        vstd::utf8::encode_utf8(s.subrange(a, b)) == vstd::utf8::encode_utf8(s).subrange(a, b),
        forall|text: Seq<char>|
            vstd::utf8::encode_utf8(text) == #[trigger] vstd::utf8::encode_utf8(s).subrange(a, b)
                ==> text == s.subrange(a, b),
{
    broadcast use vstd::utf8::is_ascii_chars_encode_utf8, vstd::utf8::encode_utf8_decode_utf8;

    let bytes = vstd::utf8::encode_utf8(s);
    assert(vstd::utf8::valid_utf8(bytes));
    assert forall|i: int| 0 <= i < s.len() implies !vstd::utf8::is_continuation_byte(
        #[trigger] bytes[i],
    ) by {
        assert('\0' <= s[i] <= '\u{7f}');
        assert(s[i] as u8 == bytes[i]);
    }
    if a < s.len() {
        assert(!vstd::utf8::is_continuation_byte(bytes[a]));
    }
    if b < s.len() {
        assert(!vstd::utf8::is_continuation_byte(bytes[b]));
    }
    let sub = s.subrange(a, b);
    assert(vstd::utf8::is_ascii_chars(sub)) by {
        assert forall|i: int| 0 <= i < sub.len() implies '\0' <= #[trigger] sub[i] <= '\u{7f}' by {
            assert(sub[i] == s[a + i]);
        }
    }
    assert(vstd::utf8::encode_utf8(sub) =~= bytes.subrange(a, b)) by {
        assert forall|i: int| 0 <= i < sub.len() implies #[trigger] vstd::utf8::encode_utf8(sub)[i]
            == bytes.subrange(a, b)[i] by {
            assert(sub[i] as u8 == vstd::utf8::encode_utf8(sub)[i]);
            assert(s[a + i] as u8 == bytes[a + i]);
        }
    }
    assert forall|text: Seq<char>|
        vstd::utf8::encode_utf8(text) == #[trigger] bytes.subrange(a, b) implies text == sub by {
        assert(vstd::utf8::decode_utf8(vstd::utf8::encode_utf8(text)) == text);
        assert(vstd::utf8::decode_utf8(vstd::utf8::encode_utf8(sub)) == sub);
    }
}

impl Span {
    pub fn new(start: usize, end: usize) -> (s: Self)
        ensures
            s.start == start,
            s.end == end,
    {
        Self { start, end }
    }

    /// The text of `source` between the byte offsets `start` and `end`.
    /// Both offsets must fall on character boundaries, with `start <= end`.
    pub fn lexeme<'s>(&self, source: &'s str) -> (text: &'s str)
        requires
            self.start <= self.end <= source.spec_bytes().len(),
            vstd::utf8::is_char_boundary(source.spec_bytes(), self.start as int),
            vstd::utf8::is_char_boundary(source.spec_bytes(), self.end as int),
        ensures
            text.spec_bytes() == source.spec_bytes().subrange(self.start as int, self.end as int),
            vstd::utf8::is_ascii_chars(source@) ==> text@ == source@.subrange(
                self.start as int,
                self.end as int,
            ),
    {
        let bytes = Ghost(source.spec_bytes());
        proof {
            lemma_boundary_in_tail(bytes@, self.start as int, self.end as int);
        }
        let (_, tail) = source.split_at(self.start);
        let (text, _) = tail.split_at(self.end - self.start);
        assert(text.spec_bytes() =~= bytes@.subrange(self.start as int, self.end as int));
        proof {
            if vstd::utf8::is_ascii_chars(source@) {
                vstd::utf8::is_ascii_chars_encode_utf8(source@);
                lemma_ascii_offsets(source@, self.start as int, self.end as int);
            }
        }
        text
    }
}

} // verus!
