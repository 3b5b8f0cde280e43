//! Text handling shared by tags, playlist files and messages.

use vstd::prelude::*;

verus! {

/// `String::push`: the character is added at the end of the text.
pub assume_specification[ String::push ](string: &mut String, c: char)
    ensures
        final(string)@ == old(string)@.push(c),
;

/// What `str::to_lowercase` makes of a text.
pub uninterp spec fn lowercase(text: Seq<char>) -> Seq<char>;

/// A letter between `A` and `Z` becomes its small form; anything else stays.
pub open spec fn ascii_lower(c: char) -> char {
    if 'A' <= c && c <= 'Z' {
        (c as u32 + 32) as char
    } else {
        c
    }
}

/// The text with every letter between `A` and `Z` in its small form.
pub open spec fn ascii_lowered(text: Seq<char>) -> Seq<char> {
    text.map_values(|c: char| ascii_lower(c))
}

/// The text in small letters.
pub open spec fn lowered(text: Seq<char>) -> Seq<char> {
    if vstd::utf8::is_ascii_chars(text) {
        ascii_lowered(text)
    } else {
        lowercase(text)
    }
}

/// `str::to_lowercase`: the result depends on the text alone, and on a text of
/// ASCII characters it replaces the letters `A` to `Z` by their small forms.
/// What becomes of other characters is not stated.
#[verifier::external_body]
pub(crate) fn to_lowercase(text: &str) -> (small: String)
    ensures
        small@ == lowercase(text@),
        vstd::utf8::is_ascii_chars(text@) ==> small@ == ascii_lowered(text@),
{
    text.to_lowercase()
}

/// The words in which `std::str::from_utf8` says what is wrong with bytes that are
/// not UTF-8.
pub uninterp spec fn decoding_fault(bytes: Seq<u8>) -> Seq<char>;

/// `std::str::from_utf8`: succeeds on valid UTF-8 and only there, with the text
/// that the bytes encode. Its error, put in words, depends on the bytes alone;
/// how it is worded is not stated.
#[verifier::external_body]
pub(crate) fn utf8_text(bytes: &[u8]) -> (text: Result<String, String>)
    ensures
        text is Ok <==> vstd::utf8::valid_utf8(bytes@),
        text matches Ok(t) ==> t@ == vstd::utf8::decode_utf8(bytes@),
        text matches Err(cause) ==> cause@ == decoding_fault(bytes@),
{
    match std::str::from_utf8(bytes) {
        Ok(text) => Ok(text.to_owned()),
        Err(error) => Err(error.to_string()),
    }
}

/// The characters with the Unicode property White_Space.
pub open spec fn is_white(c: char) -> bool {
    let n = c as u32;
    ||| 0x9 <= n <= 0xD
    ||| n == 0x20
    ||| n == 0x85
    ||| n == 0xA0
    ||| n == 0x1680
    ||| 0x2000 <= n <= 0x200A
    ||| n == 0x2028
    ||| n == 0x2029
    ||| n == 0x202F
    ||| n == 0x205F
    ||| n == 0x3000
}

pub(crate) fn is_whitespace(c: char) -> (white: bool)
    ensures
        white == is_white(c),
{
    let n: u32 = c as u32;
    (0x9 <= n && n <= 0xD) || n == 0x20 || n == 0x85 || n == 0xA0 || n == 0x1680 || (0x2000 <= n
        && n <= 0x200A) || n == 0x2028 || n == 0x2029 || n == 0x202F || n == 0x205F || n == 0x3000
}

/// The text without the white space it begins with.
pub open spec fn trim_start(text: Seq<char>) -> Seq<char>
    decreases text.len(),
{
    if text.len() > 0 && is_white(text[0]) {
        trim_start(text.drop_first())
    } else {
        text
    }
}

/// The text without the white space it ends with.
pub open spec fn trim_end(text: Seq<char>) -> Seq<char>
    decreases text.len(),
{
    if text.len() > 0 && is_white(text.last()) {
        trim_end(text.drop_last())
    } else {
        text
    }
}

/// The text without white space at either end.
pub open spec fn trimmed(text: Seq<char>) -> Seq<char> {
    trim_end(trim_start(text))
}

/// A text with nothing but white space in it.
pub open spec fn is_blank(text: Seq<char>) -> bool {
    forall|i: int| 0 <= i < text.len() ==> is_white(#[trigger] text[i])
}

pub(crate) fn chars_of(text: &str) -> (chars: Vec<char>)
    ensures
        chars@ == text@,
{
    let mut chars: Vec<char> = Vec::new();
    for c in it: text.chars()
        invariant
            it.seq() == text@,
            chars@ == text@.take(it.index() as int),
    {
        assert(text@.take(it.index() as int).push(c) =~= text@.take(it.index() + 1));
        chars.push(c);
    }
    assert(text@.take(text@.len() as int) =~= text@);
    chars
}

pub(crate) fn substring(chars: &Vec<char>, from: usize, to: usize) -> (text: String)
    requires
        from <= to <= chars@.len(),
    ensures
        text@ == chars@.subrange(from as int, to as int),
{
    let mut text = String::new();
    let mut i: usize = from;
    while i < to
        invariant
            from <= i <= to <= chars@.len(),
            text@ == chars@.subrange(from as int, i as int),
        decreases to - i,
    {
        text.push(chars[i]);
        i += 1;
        assert(chars@.subrange(from as int, i - 1).push(chars@[i - 1]) =~= chars@.subrange(
            from as int,
            i as int,
        ));
    }
    text
}

/// Finds the part of `chars[from..to]` that is left after trimming.
pub(crate) fn trim_range(chars: &Vec<char>, from: usize, to: usize) -> (kept: (usize, usize))
    requires
        from <= to <= chars@.len(),
    ensures
        from <= kept.0 <= kept.1 <= to,
        chars@.subrange(kept.0 as int, kept.1 as int) == trimmed(
            chars@.subrange(from as int, to as int),
        ),
{
    let ghost whole = chars@.subrange(from as int, to as int);
    let mut lo: usize = from;
    while lo < to && is_whitespace(chars[lo])
        invariant
            from <= lo <= to <= chars@.len(),
            whole == chars@.subrange(from as int, to as int),
            trim_start(whole) == trim_start(chars@.subrange(lo as int, to as int)),
        decreases to - lo,
    {
        assert(chars@.subrange(lo as int, to as int).drop_first() =~= chars@.subrange(
            lo + 1,
            to as int,
        ));
        lo += 1;
    }
    let ghost head = chars@.subrange(lo as int, to as int);
    assert(trim_start(whole) == head);
    let mut hi: usize = to;
    assert(chars@.subrange(lo as int, hi as int) =~= head);
    while lo < hi && is_whitespace(chars[hi - 1])
        invariant
            lo <= hi <= to <= chars@.len(),
            trim_end(head) == trim_end(chars@.subrange(lo as int, hi as int)),
        decreases hi - lo,
    {
        assert(chars@.subrange(lo as int, hi as int).drop_last() =~= chars@.subrange(
            lo as int,
            hi - 1,
        ));
        hi -= 1;
    }
    (lo, hi)
}

/// The text without white space at either end.
pub(crate) fn trim(text: &str) -> (short: String)
    ensures
        short@ == trimmed(text@),
{
    let chars = chars_of(text);
    let (lo, hi) = trim_range(&chars, 0, chars.len());
    assert(chars@.subrange(0, chars@.len() as int) =~= text@);
    substring(&chars, lo, hi)
}

/// Where the first white space of the text stands, or its length.
pub open spec fn word_len(text: Seq<char>) -> nat
    decreases text.len(),
{
    if text.len() == 0 || is_white(text[0]) {
        0
    } else {
        1 + word_len(text.drop_first())
    }
}

pub proof fn lemma_word_len(text: Seq<char>)
    ensures
        word_len(text) <= text.len(),
        word_len(text) < text.len() ==> is_white(text[word_len(text) as int]),
        forall|i: int| 0 <= i < word_len(text) ==> !is_white(#[trigger] text[i]),
    decreases text.len(),
{
    if text.len() > 0 && !is_white(text[0]) {
        let rest = text.drop_first();
        lemma_word_len(rest);
        assert forall|i: int| 0 <= i < word_len(text) implies !is_white(#[trigger] text[i]) by {
            if i > 0 {
                assert(text[i] == rest[i - 1]);
            }
        }
    }
}

/// The words of a text: its longest runs without white space, in order.
pub open spec fn words(text: Seq<char>) -> Seq<Seq<char>>
    decreases text.len(),
{
    if text.len() == 0 {
        Seq::empty()
    } else if is_white(text[0]) {
        words(text.drop_first())
    } else {
        let n = word_len(text);
        if 0 < n <= text.len() {
            seq![text.take(n as int)] + words(text.skip(n as int))
        } else {
            Seq::empty()
        }
    }
}

/// The words with one space between each two.
pub open spec fn spaced(parts: Seq<Seq<char>>) -> Seq<char>
    decreases parts.len(),
{
    if parts.len() == 0 {
        Seq::empty()
    } else if parts.len() == 1 {
        parts[0]
    } else {
        spaced(parts.drop_last()).push(' ') + parts.last()
    }
}

/// The words of the text with one space between each two.
pub(crate) fn squeeze(text: &str) -> (squeezed: String)
    ensures
        squeezed@ == spaced(words(text@)),
{
    let chars = chars_of(text);
    let mut squeezed = String::new();
    let mut first: bool = true;
    let ghost mut done: Seq<Seq<char>> = Seq::empty();
    let mut i: usize = 0;
    assert(chars@.skip(0) =~= text@);
    assert(done + words(chars@) =~= words(chars@));
    while i < chars.len()
        invariant
            i <= chars@.len(),
            chars@ == text@,
            words(text@) == done + words(chars@.skip(i as int)),
            squeezed@ == spaced(done),
            first == (done.len() == 0),
        decreases chars@.len() - i,
    {
        let ghost rest = chars@.skip(i as int);
        if is_whitespace(chars[i]) {
            assert(rest.drop_first() =~= chars@.skip(i + 1));
            i += 1;
        } else {
            let start = i;
            while i < chars.len() && !is_whitespace(chars[i])
                invariant
                    start <= i <= chars@.len(),
                    rest == chars@.skip(start as int),
                    word_len(rest) == (i - start) + word_len(chars@.skip(i as int)),
                decreases chars@.len() - i,
            {
                assert(chars@.skip(i as int).drop_first() =~= chars@.skip(i + 1));
                i += 1;
            }
            assert(word_len(chars@.skip(i as int)) == 0);
            let word = substring(&chars, start, i);
            let ghost n = word_len(rest);
            proof {
                assert(n == i - start);
                if n == 0 {
                    assert(!is_white(rest[0]));
                    lemma_word_len(rest);
                    assert(false);
                }
                assert(rest.take(n as int) =~= word@);
                assert(rest.skip(n as int) =~= chars@.skip(i as int));
                assert(done + (seq![word@] + words(chars@.skip(i as int))) =~= done.push(word@)
                    + words(chars@.skip(i as int)));
                assert(done.push(word@).drop_last() =~= done);
            }
            if !first {
                squeezed.push(' ');
            }
            first = false;
            squeezed.append(word.as_str());
            proof {
                done = done.push(word@);
            }
        }
    }
    assert(words(chars@.skip(i as int)) =~= Seq::<Seq<char>>::empty());
    assert(done =~= words(text@));
    squeezed
}

/// Whether two texts hold the same characters.
pub(crate) fn same_text(a: &str, b: &str) -> (same: bool)
    ensures
        same == (a@ == b@),
{
    let left = chars_of(a);
    let right = chars_of(b);
    if left.len() != right.len() {
        return false;
    }
    let mut i: usize = 0;
    while i < left.len()
        invariant
            left@ == a@,
            right@ == b@,
            left@.len() == right@.len(),
            i <= left@.len(),
            forall|j: int| 0 <= j < i ==> left@[j] == right@[j],
        decreases left@.len() - i,
    {
        if left[i] != right[i] {
            return false;
        }
        i += 1;
    }
    assert(left@ =~= right@);
    true
}

/// The digit for a number below ten.
pub open spec fn digit(n: nat) -> char {
    ('0' as u32 + n) as char
}

/// A number in decimal notation.
pub open spec fn decimal(n: nat) -> Seq<char>
    decreases n,
{
    if n < 10 {
        seq![digit(n)]
    } else {
        decimal(n / 10).push(digit(n % 10))
    }
}

pub(crate) fn number(n: u64) -> (text: String)
    ensures
        text@ == decimal(n as nat),
    decreases n,
{
    let mut text = String::new();
    if n >= 10 {
        text = number(n / 10);
    }
    let last: u8 = 48 + (n % 10) as u8;
    text.push(last as char);
    text
}

/// A number in decimal notation, with a leading zero below ten.
pub open spec fn two_digits(n: nat) -> Seq<char> {
    if n < 10 {
        seq!['0'] + decimal(n)
    } else {
        decimal(n)
    }
}

pub(crate) fn padded_number(n: u64) -> (text: String)
    ensures
        text@ == two_digits(n as nat),
{
    let mut text = String::new();
    if n < 10 {
        text.push('0');
    }
    text.append(number(n).as_str());
    text
}

/// The control characters: Unicode's general category Cc.
pub open spec fn is_control(c: char) -> bool {
    (c as u32) < 0x20 || 0x7F <= (c as u32) <= 0x9F
}

/// The text on one line: a space in place of every control character.
pub open spec fn flattened(text: Seq<char>) -> Seq<char> {
    text.map_values(|c: char| if is_control(c) { ' ' } else { c })
}

pub(crate) fn flatten(text: &str) -> (line: String)
    ensures
        line@ == flattened(text@),
{
    let mut line = String::new();
    for c in it: text.chars()
        invariant
            it.seq() == text@,
            line@ == flattened(text@.take(it.index() as int)),
    {
        let n: u32 = c as u32;
        if n < 0x20 || (0x7F <= n && n <= 0x9F) {
            line.push(' ');
        } else {
            line.push(c);
        }
        assert(flattened(text@.take(it.index() + 1)) =~= line@);
    }
    assert(text@.take(text@.len() as int) =~= text@);
    line
}

/// How many UTF-16 code units the text takes.
pub open spec fn utf16_len(text: Seq<char>) -> nat
    decreases text.len(),
{
    if text.len() == 0 {
        0
    } else {
        utf16_len(text.drop_last()) + if (text.last() as u32) < 0x1_0000 {
            1nat
        } else {
            2nat
        }
    }
}

/// Whether the text takes more than `limit` UTF-16 code units.
pub(crate) fn exceeds_utf16(text: &str, limit: u32) -> (long: bool)
    ensures
        long == (utf16_len(text@) > limit),
{
    let chars = chars_of(text);
    let mut units: u64 = 0;
    let mut i: usize = 0;
    while i < chars.len()
        invariant
            chars@ == text@,
            i <= chars@.len(),
            units == utf16_len(text@.take(i as int)),
            units <= limit,
        decreases chars@.len() - i,
    {
        let n: u32 = chars[i] as u32;
        assert(text@.take(i + 1).drop_last() =~= text@.take(i as int));
        if n < 0x1_0000 {
            units += 1;
        } else {
            units += 2;
        }
        i += 1;
        if units > limit as u64 {
            proof {
                lemma_utf16_len_take(text@, i as int);
            }
            return true;
        }
    }
    assert(text@.take(text@.len() as int) =~= text@);
    false
}

proof fn lemma_utf16_len_take(text: Seq<char>, n: int)
    requires
        0 <= n <= text.len(),
    ensures
        utf16_len(text.take(n)) <= utf16_len(text),
    decreases text.len() - n,
{
    if n < text.len() {
        assert(text.take(n + 1).drop_last() =~= text.take(n));
        lemma_utf16_len_take(text, n + 1);
    } else {
        assert(text.take(n) =~= text);
    }
}

/// Whether the text has nothing but white space in it.
pub(crate) fn blank(text: &str) -> (blank: bool)
    ensures
        blank == is_blank(text@),
{
    let chars = chars_of(text);
    let mut i: usize = 0;
    while i < chars.len()
        invariant
            chars@ == text@,
            i <= chars@.len(),
            forall|j: int| 0 <= j < i ==> is_white(#[trigger] text@[j]),
        decreases chars@.len() - i,
    {
        if !is_whitespace(chars[i]) {
            assert(!is_white(text@[i as int]));
            return false;
        }
        i += 1;
    }
    true
}

proof fn lemma_word_len_before_white(a: Seq<char>, w: char, b: Seq<char>)
    requires
        is_white(w),
    ensures
        word_len(a.push(w) + b) == word_len(a),
    decreases a.len(),
{
    let whole = a.push(w) + b;
    if a.len() > 0 && !is_white(a[0]) {
        assert(whole.drop_first() =~= a.drop_first().push(w) + b);
        lemma_word_len_before_white(a.drop_first(), w, b);
    }
}

/// White space parts a text: what stands before it and what stands after it
/// have their words each for itself.
pub proof fn law_white_space_parts_words(a: Seq<char>, w: char, b: Seq<char>)
    requires
        is_white(w),
    ensures
        words(a.push(w) + b) == words(a) + words(b),
    decreases a.len(),
{
    let whole = a.push(w) + b;
    if a.len() == 0 {
        assert(whole.drop_first() =~= b);
        assert(words(a) + words(b) =~= words(b));
    } else if is_white(a[0]) {
        assert(whole.drop_first() =~= a.drop_first().push(w) + b);
        law_white_space_parts_words(a.drop_first(), w, b);
    } else {
        let n = word_len(a) as int;
        lemma_word_len(a);
        lemma_word_len_before_white(a, w, b);
        assert(whole.take(n) =~= a.take(n));
        assert(whole.skip(n) =~= a.skip(n).push(w) + b);
        law_white_space_parts_words(a.skip(n), w, b);
        assert(words(whole) =~= seq![a.take(n)] + (words(a.skip(n)) + words(b)));
        assert(words(whole) =~= words(a) + words(b));
    }
}

proof fn lemma_words_of_trim_start(text: Seq<char>)
    ensures
        words(trim_start(text)) == words(text),
    decreases text.len(),
{
    if text.len() > 0 && is_white(text[0]) {
        lemma_words_of_trim_start(text.drop_first());
    }
}

proof fn lemma_words_of_trim_end(text: Seq<char>)
    ensures
        words(trim_end(text)) == words(text),
    decreases text.len(),
{
    if text.len() > 0 && is_white(text.last()) {
        let shorter = text.drop_last();
        lemma_words_of_trim_end(shorter);
        law_white_space_parts_words(shorter, text.last(), Seq::empty());
        assert(shorter.push(text.last()) + Seq::empty() =~= text);
        assert(words(shorter) + words(Seq::empty()) =~= words(shorter));
    }
}

/// Trimming a text leaves its words as they are.
pub proof fn law_trimming_keeps_words(text: Seq<char>)
    ensures
        words(trimmed(text)) == words(text),
{
    lemma_words_of_trim_start(text);
    lemma_words_of_trim_end(trim_start(text));
}

proof fn lemma_blank_trims_away(text: Seq<char>)
    ensures
        is_blank(text) <==> trim_start(text).len() == 0,
    decreases text.len(),
{
    if text.len() > 0 && is_white(text[0]) {
        lemma_blank_trims_away(text.drop_first());
        if is_blank(text.drop_first()) {
            assert forall|i: int| 0 <= i < text.len() implies is_white(#[trigger] text[i]) by {
                if i > 0 {
                    assert(text[i] == text.drop_first()[i - 1]);
                }
            }
        }
        if is_blank(text) {
            assert forall|i: int| 0 <= i < text.drop_first().len() implies is_white(
                #[trigger] text.drop_first()[i],
            ) by {
                assert(text.drop_first()[i] == text[i + 1]);
            }
        }
    }
}

/// A trimmed text is empty, or begins and ends with something other than white
/// space.
pub proof fn law_trimmed_has_no_outer_white_space(text: Seq<char>)
    ensures
        trimmed(text).len() > 0 ==> !is_white(trimmed(text)[0]) && !is_white(trimmed(text).last()),
        trimmed(text).len() == 0 <==> is_blank(text),
{
    lemma_blank_trims_away(text);
    lemma_trim_start_begins(text);
    lemma_trim_end_ends(trim_start(text));
}

proof fn lemma_trim_start_begins(text: Seq<char>)
    ensures
        trim_start(text).len() > 0 ==> !is_white(trim_start(text)[0]),
    decreases text.len(),
{
    if text.len() > 0 && is_white(text[0]) {
        lemma_trim_start_begins(text.drop_first());
    }
}

proof fn lemma_trim_end_ends(text: Seq<char>)
    ensures
        trim_end(text).len() > 0 ==> !is_white(trim_end(text).last()) && trim_end(text)[0] == text[0],
        text.len() > 0 && !is_white(text[0]) ==> trim_end(text).len() > 0,
    decreases text.len(),
{
    if text.len() > 0 && is_white(text.last()) {
        lemma_trim_end_ends(text.drop_last());
    }
}

pub(crate) proof fn lemma_trimmed_is_ascii(text: Seq<char>)
    requires
        vstd::utf8::is_ascii_chars(text),
    ensures
        vstd::utf8::is_ascii_chars(trimmed(text)),
{
    lemma_trim_start_is_ascii(text);
    lemma_trim_end_is_ascii(trim_start(text));
}

proof fn lemma_trim_start_is_ascii(text: Seq<char>)
    requires
        vstd::utf8::is_ascii_chars(text),
    ensures
        vstd::utf8::is_ascii_chars(trim_start(text)),
    decreases text.len(),
{
    if text.len() > 0 && is_white(text[0]) {
        lemma_trim_start_is_ascii(text.drop_first());
    }
}

proof fn lemma_trim_end_is_ascii(text: Seq<char>)
    requires
        vstd::utf8::is_ascii_chars(text),
    ensures
        vstd::utf8::is_ascii_chars(trim_end(text)),
    decreases text.len(),
{
    if text.len() > 0 && is_white(text.last()) {
        lemma_trim_end_is_ascii(text.drop_last());
    }
}

proof fn lemma_words_are_ascii(text: Seq<char>)
    requires
        vstd::utf8::is_ascii_chars(text),
    ensures
        forall|i: int| 0 <= i < words(text).len() ==> vstd::utf8::is_ascii_chars(#[trigger] words(text)[i]),
    decreases text.len(),
{
    if text.len() > 0 {
        if is_white(text[0]) {
            lemma_words_are_ascii(text.drop_first());
            assert(words(text) == words(text.drop_first()));
        } else {
            let n = word_len(text) as int;
            lemma_word_len(text);
            if n > 0 {
                lemma_words_are_ascii(text.skip(n));
                assert(vstd::utf8::is_ascii_chars(text.take(n)));
                assert forall|i: int| 0 <= i < words(text).len() implies vstd::utf8::is_ascii_chars(
                    #[trigger] words(text)[i],
                ) by {
                    if i > 0 {
                        assert(words(text)[i] == words(text.skip(n))[i - 1]);
                    }
                }
            }
        }
    }
}

proof fn lemma_spaced_is_ascii(parts: Seq<Seq<char>>)
    requires
        forall|i: int| 0 <= i < parts.len() ==> vstd::utf8::is_ascii_chars(#[trigger] parts[i]),
    ensures
        vstd::utf8::is_ascii_chars(spaced(parts)),
    decreases parts.len(),
{
    if parts.len() > 1 {
        lemma_spaced_is_ascii(parts.drop_last());
        let front = spaced(parts.drop_last());
        assert(vstd::utf8::is_ascii_chars(front.push(' ')));
        assert(vstd::utf8::is_ascii_chars(parts.last()));
    }
}

/// Whether the words of a text are of ASCII characters; white space may be any.
pub open spec fn has_ascii_words(text: Seq<char>) -> bool {
    forall|i: int|
        0 <= i < words(text).len() ==> vstd::utf8::is_ascii_chars(#[trigger] words(text)[i])
}

pub(crate) proof fn lemma_spaced_words_are_ascii(text: Seq<char>)
    requires
        has_ascii_words(text),
    ensures
        vstd::utf8::is_ascii_chars(spaced(words(text))),
{
    lemma_spaced_is_ascii(words(text));
}

/// A text of ASCII characters has ASCII words.
pub proof fn law_ascii_text_has_ascii_words(text: Seq<char>)
    requires
        vstd::utf8::is_ascii_chars(text),
    ensures
        has_ascii_words(text),
{
    lemma_words_are_ascii(text);
}

/// Whether there is no white space in a word, and the word is not empty.
pub open spec fn is_word(word: Seq<char>) -> bool {
    word.len() > 0 && forall|i: int| 0 <= i < word.len() ==> !is_white(#[trigger] word[i])
}

/// The words of a text are words, and there are none where it is blank.
pub proof fn law_words_hold_no_white_space(text: Seq<char>)
    ensures
        forall|i: int| 0 <= i < words(text).len() ==> is_word(#[trigger] words(text)[i]),
        words(text).len() == 0 <==> is_blank(text),
    decreases text.len(),
{
    if text.len() > 0 {
        if is_white(text[0]) {
            let rest = text.drop_first();
            law_words_hold_no_white_space(rest);
            lemma_blank_trims_away(text);
            lemma_blank_trims_away(rest);
        } else {
            let n = word_len(text) as int;
            lemma_word_len(text);
            law_words_hold_no_white_space(text.skip(n));
            let rest = words(text.skip(n));
            assert(is_word(text.take(n)));
            assert forall|i: int| 0 <= i < words(text).len() implies is_word(
                #[trigger] words(text)[i],
            ) by {
                if i > 0 {
                    assert(words(text)[i] == rest[i - 1]);
                }
            }
        }
    }
}

pub(crate) proof fn lemma_words_of_word(word: Seq<char>)
    requires
        is_word(word),
    ensures
        words(word) == seq![word],
{
    let n = word_len(word) as int;
    lemma_word_len(word);
    assert(n == word.len());
    assert(word.take(n) =~= word);
    assert(words(word.skip(n)) =~= Seq::empty());
    assert(words(word) =~= seq![word]);
}

proof fn lemma_words_of_spaced(parts: Seq<Seq<char>>)
    requires
        forall|i: int| 0 <= i < parts.len() ==> is_word(#[trigger] parts[i]),
    ensures
        words(spaced(parts)) == parts,
    decreases parts.len(),
{
    if parts.len() == 0 {
        assert(words(spaced(parts)) =~= parts);
    } else if parts.len() == 1 {
        lemma_words_of_word(parts[0]);
        assert(parts =~= seq![parts[0]]);
    } else {
        let front = parts.drop_last();
        lemma_words_of_spaced(front);
        lemma_words_of_word(parts.last());
        law_white_space_parts_words(spaced(front), ' ', parts.last());
        assert(front + seq![parts.last()] =~= parts);
    }
}

/// Putting single spaces between the words of a text leaves its words as they
/// are.
pub proof fn law_spacing_keeps_words(text: Seq<char>)
    ensures
        words(spaced(words(text))) == words(text),
{
    law_words_hold_no_white_space(text);
    lemma_words_of_spaced(words(text));
}

/// Whether all white space in a text is single spaces, none of them at an end.
pub open spec fn is_single_spaced(text: Seq<char>) -> bool {
    forall|i: int|
        0 <= i < text.len() && is_white(#[trigger] text[i]) ==> {
            &&& text[i] == ' '
            &&& 0 < i < text.len() - 1
            &&& !is_white(text[i - 1])
            &&& !is_white(text[i + 1])
        }
}

proof fn lemma_spaced_is_single_spaced(parts: Seq<Seq<char>>)
    requires
        forall|i: int| 0 <= i < parts.len() ==> is_word(#[trigger] parts[i]),
    ensures
        is_single_spaced(spaced(parts)),
        parts.len() > 0 ==> spaced(parts).len() > 0 && !is_white(spaced(parts).last()),
    decreases parts.len(),
{
    if parts.len() == 1 {
        assert(is_word(parts[0]));
    } else if parts.len() > 1 {
        lemma_spaced_is_single_spaced(parts.drop_last());
        let front = spaced(parts.drop_last());
        let last = parts.last();
        let all = front.push(' ') + last;
        assert(is_word(last));
        assert forall|i: int| 0 <= i < all.len() && is_white(#[trigger] all[i]) implies {
            &&& all[i] == ' '
            &&& 0 < i < all.len() - 1
            &&& !is_white(all[i - 1])
            &&& !is_white(all[i + 1])
        } by {
            if i < front.len() {
                assert(all[i] == front[i]);
                assert(all[i - 1] == front[i - 1]);
                assert(all[i + 1] == front[i + 1]);
            } else if i == front.len() {
                assert(all[i - 1] == front.last());
                assert(all[i + 1] == last[0]);
            } else {
                assert(all[i] == last[i - front.len() - 1]);
            }
        }
        assert(all.last() == last.last());
    }
}

/// Words with single spaces between them hold no other white space.
pub proof fn law_spaced_is_single_spaced(parts: Seq<Seq<char>>)
    requires
        forall|i: int| 0 <= i < parts.len() ==> is_word(#[trigger] parts[i]),
    ensures
        is_single_spaced(spaced(parts)),
        words(spaced(parts)) == parts,
{
    lemma_spaced_is_single_spaced(parts);
    lemma_words_of_spaced(parts);
}

proof fn lemma_spaced_from_the_front(first: Seq<char>, rest: Seq<Seq<char>>)
    requires
        rest.len() > 0,
    ensures
        spaced(seq![first] + rest) == first.push(' ') + spaced(rest),
    decreases rest.len(),
{
    let all = seq![first] + rest;
    if rest.len() == 1 {
        assert(all.drop_last() =~= seq![first]);
        assert(spaced(all.drop_last()) == first);
    } else {
        assert(all.drop_last() =~= seq![first] + rest.drop_last());
        lemma_spaced_from_the_front(first, rest.drop_last());
        assert(spaced(all) =~= first.push(' ') + (spaced(rest.drop_last()).push(' ')
            + rest.last()));
    }
}

/// A text whose white space is single spaces between words is its words with
/// single spaces between them.
pub proof fn law_single_spaced_text_is_its_words(text: Seq<char>)
    requires
        is_single_spaced(text),
    ensures
        spaced(words(text)) == text,
    decreases text.len(),
{
    if text.len() == 0 {
        assert(spaced(words(text)) =~= text);
    } else {
        assert(!is_white(text[0]));
        let n = word_len(text) as int;
        lemma_word_len(text);
        assert(n > 0);
        if n == text.len() {
            assert(text.take(n) =~= text);
            assert(words(text.skip(n)) =~= Seq::empty());
            assert(words(text) =~= seq![text]);
        } else {
            let rest = text.skip(n + 1);
            assert(is_white(text[n]));
            assert(rest[0] == text[n + 1]);
            assert forall|i: int| 0 <= i < rest.len() && is_white(#[trigger] rest[i]) implies {
                &&& rest[i] == ' '
                &&& 0 < i < rest.len() - 1
                &&& !is_white(rest[i - 1])
                &&& !is_white(rest[i + 1])
            } by {
                assert(rest[i] == text[n + 1 + i]);
                assert(rest[i - 1] == text[n + i]);
                assert(rest[i + 1] == text[n + 2 + i]);
            }
            law_single_spaced_text_is_its_words(rest);
            assert(text.skip(n).drop_first() =~= rest);
            assert(words(text.skip(n)) == words(rest));
            law_words_hold_no_white_space(rest);
            assert(!is_blank(rest));
            lemma_spaced_from_the_front(text.take(n), words(rest));
            assert(text.take(n).push(' ') + rest =~= text);
        }
    }
}

/// The words of a text with single spaces between them hold no other white
/// space; they are empty where the text is blank.
pub proof fn law_spaced_words_are_single_spaced(text: Seq<char>)
    ensures
        is_single_spaced(spaced(words(text))),
        spaced(words(text)).len() == 0 <==> is_blank(text),
{
    law_words_hold_no_white_space(text);
    lemma_spaced_is_single_spaced(words(text));
}

} // verus!
