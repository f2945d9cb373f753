use vstd::prelude::*;

verus! {

/// Whether the byte is a blank: a space, a tab or one of the line ends.
pub open spec fn is_blank(c: u8) -> bool {
    c == 32 || (9 <= c <= 13)
}

/// The place of the first byte from `i` on that is no blank.
pub open spec fn skip_blanks(b: Seq<u8>, i: int) -> int
    decreases b.len() - i,
{
    if 0 <= i < b.len() && is_blank(b[i]) {
        skip_blanks(b, i + 1)
    } else {
        i
    }
}

/// The place of the first blank from `i` on, or the end of the line.
pub open spec fn word_end(b: Seq<u8>, i: int) -> int
    decreases b.len() - i,
{
    if 0 <= i < b.len() && !is_blank(b[i]) {
        word_end(b, i + 1)
    } else {
        i
    }
}

/// The line without the blanks at its end.
pub open spec fn trim_end(b: Seq<u8>) -> Seq<u8>
    decreases b.len(),
{
    if b.len() > 0 && is_blank(b.last()) {
        trim_end(b.drop_last())
    } else {
        b
    }
}

/// The byte in lower case.
pub open spec fn lower(c: u8) -> u8 {
    if 65 <= c <= 90 {
        (c + 32) as u8
    } else {
        c
    }
}

/// Whether two words are the same but for the case of their letters.
pub open spec fn same_letters(a: Seq<u8>, b: Seq<u8>) -> bool {
    a.len() == b.len() && forall|i: int| 0 <= i < a.len() ==> lower(#[trigger] a[i]) == lower(b[i])
}

/// The ends of a skip and of a word lie in the line, in their order.
pub proof fn lemma_word_bounds(b: Seq<u8>, i: int)
    requires
        0 <= i <= b.len(),
    ensures
        i <= skip_blanks(b, i) <= b.len(),
        i <= word_end(b, i) <= b.len(),
        i < b.len() && !is_blank(b[i]) ==> i < word_end(b, i),
        skip_blanks(b, i) < b.len() ==> !is_blank(b[skip_blanks(b, i)]),
    decreases b.len() - i,
{
    if i < b.len() {
        lemma_word_bounds(b, i + 1);
    }
}

/// The next word of the line from `from` on: where it begins and where it
/// ends. An empty word says that the line has no more words.
pub fn next_word(bytes: &[u8], from: usize) -> (r: (usize, usize))
    requires
        from <= bytes@.len(),
    ensures
        r.0 == skip_blanks(bytes@, from as int),
        r.1 == word_end(bytes@, r.0 as int),
        from <= r.0 <= r.1 <= bytes@.len(),
        r.0 < r.1 || r.0 == bytes@.len(),
{
    let ghost b = bytes@;
    let mut start = from;
    while start < bytes.len() && is_blank_byte(bytes[start])
        invariant
            b == bytes@,
            from <= start <= b.len(),
            skip_blanks(b, start as int) == skip_blanks(b, from as int),
        decreases b.len() - start,
    {
        start += 1;
    }
    let mut end = start;
    while end < bytes.len() && !is_blank_byte(bytes[end])
        invariant
            b == bytes@,
            start <= end <= b.len(),
            word_end(b, end as int) == word_end(b, start as int),
        decreases b.len() - end,
    {
        end += 1;
    }
    (start, end)
}

/// Whether the byte is a blank.
pub fn is_blank_byte(c: u8) -> (r: bool)
    ensures
        r == is_blank(c),
{
    c == 32 || (9 <= c && c <= 13)
}

/// Whether the part of the line from `start` to `end` is the given word.
pub fn is_word(bytes: &[u8], start: usize, end: usize, word: &[u8]) -> (r: bool)
    requires
        start <= end <= bytes@.len(),
    ensures
        r == (bytes@.subrange(start as int, end as int) == word@),
{
    if end - start != word.len() {
        return false;
    }
    let ghost part = bytes@.subrange(start as int, end as int);
    let mut i: usize = 0;
    while i < word.len()
        invariant
            i <= word@.len(),
            start <= end <= bytes@.len(),
            end - start == word@.len(),
            part == bytes@.subrange(start as int, end as int),
            forall|j: int| 0 <= j < i ==> part[j] == word@[j],
        decreases word@.len() - i,
    {
        if bytes[start + i] != word[i] {
            assert(part[i as int] != word@[i as int]);
            return false;
        }
        i += 1;
    }
    assert(part =~= word@);
    true
}

/// Whether the part of the line from `start` to `end` is the given word,
/// but for the case of its letters.
pub fn is_word_in_any_case(bytes: &[u8], start: usize, end: usize, word: &[u8]) -> (r: bool)
    requires
        start <= end <= bytes@.len(),
    ensures
        r == same_letters(bytes@.subrange(start as int, end as int), word@),
{
    if end - start != word.len() {
        return false;
    }
    let ghost part = bytes@.subrange(start as int, end as int);
    let mut i: usize = 0;
    while i < word.len()
        invariant
            i <= word@.len(),
            start <= end <= bytes@.len(),
            end - start == word@.len(),
            part == bytes@.subrange(start as int, end as int),
            forall|j: int| 0 <= j < i ==> lower(#[trigger] part[j]) == lower(word@[j]),
        decreases word@.len() - i,
    {
        if to_lower(bytes[start + i]) != to_lower(word[i]) {
            assert(lower(part[i as int]) != lower(word@[i as int]));
            return false;
        }
        i += 1;
    }
    true
}

/// The byte in lower case.
pub fn to_lower(c: u8) -> (r: u8)
    ensures
        r == lower(c),
{
    if 65 <= c && c <= 90 {
        c + 32
    } else {
        c
    }
}

} // verus!
