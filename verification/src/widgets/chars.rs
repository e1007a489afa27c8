//! Characters and strings as the text widgets use them.
use vstd::prelude::*;

verus! {

/// Whether a character is a letter or a digit of any script.
pub uninterp spec fn alphanumeric(c: char) -> bool;

/// The characters with the Unicode property `White_Space`.
pub open spec fn white_space(c: char) -> bool {
    let u = c as u32;
    ||| 0x09 <= u <= 0x0D
    ||| u == 0x20
    ||| u == 0x85
    ||| u == 0xA0
    ||| u == 0x1680
    ||| 0x2000 <= u <= 0x200A
    ||| u == 0x2028
    ||| u == 0x2029
    ||| u == 0x202F
    ||| u == 0x205F
    ||| u == 0x3000
}

/// The control characters: U+0000 to U+001F and U+007F to U+009F.
pub open spec fn control(c: char) -> bool {
    c as u32 <= 0x1F || 0x7F <= c as u32 <= 0x9F
}

/// `char::is_alphanumeric` goes by the Unicode tables of the standard library: its answer is a
/// function of the character, which is named here and not spelled out.
pub assume_specification[ char::is_alphanumeric ](c: char) -> (b: bool)
    ensures
        b == alphanumeric(c),
;

/// `char::is_whitespace` is true of the characters with the Unicode property `White_Space`, which are
/// the 25 spelled out here.
pub assume_specification[ char::is_whitespace ](c: char) -> (b: bool)
    ensures
        b == white_space(c),
;

/// `char::is_control` is true of the characters of the Unicode category of control codes, which are
/// U+0000 to U+001F and U+007F to U+009F.
pub assume_specification[ char::is_control ](c: char) -> (b: bool)
    ensures
        b == control(c),
;

/// `String::push` appends a character to the end of a string.
pub assume_specification[ String::push ](s: &mut String, c: char)
    ensures
        final(s)@ == old(s)@.push(c),
;

/// The characters of a string.
pub fn chars_of(s: &str) -> (v: Vec<char>)
    ensures
        v@ == s@,
{
    let mut v: Vec<char> = Vec::new();
    for c in it: s.chars()
        invariant
            v@ == it.seq().take(it.index()),
            it.seq() == s@,
    {
        v.push(c);
        assert(s@.take(it.index() + 1) =~= s@.take(it.index()).push(c));
    }
    assert(s@.take(s@.len() as int) =~= s@);
    v
}

/// The string of some characters.
pub fn string_of(chars: &[char], start: usize, end: usize) -> (s: String)
    requires
        start <= end <= chars@.len(),
    ensures
        s@ == chars@.subrange(start as int, end as int),
{
    let mut s = String::new();
    let mut i: usize = start;
    while i < end
        invariant
            start <= i <= end <= chars@.len(),
            s@ == chars@.subrange(start as int, i as int),
        decreases end - i,
    {
        s.push(chars[i]);
        i = i + 1;
        assert(chars@.subrange(start as int, i as int) =~= chars@.subrange(
            start as int,
            i - 1,
        ).push(chars@[i - 1]));
    }
    assert(chars@.subrange(start as int, start as int) =~= Seq::<char>::empty());
    s
}

/// The class of a character in word selection: 0 in words, 1 white space, 2 anything else.
pub open spec fn class_of(c: char) -> u8 {
    if alphanumeric(c) || c == '_' {
        0
    } else if white_space(c) {
        1
    } else {
        2
    }
}

/// The class of a character in word selection.
pub fn char_class(c: char) -> (k: u8)
    ensures
        k == class_of(c),
{
    if c.is_alphanumeric() || c == '_' {
        0
    } else if c.is_whitespace() {
        1
    } else {
        2
    }
}

/// Two characters are of one class if both belong to words, or neither does and both or neither are
/// white space. Letters, digits and the underscore belong to words.
pub proof fn law_classes_part_words_and_white_space(a: char, b: char)
    ensures
        ({
            let word_a = alphanumeric(a) || a == '_';
            let word_b = alphanumeric(b) || b == '_';
            (class_of(a) == class_of(b)) <==> (word_a && word_b || !word_a && !word_b && (
            white_space(a) <==> white_space(b)))
        }),
{
}

} // verus!
